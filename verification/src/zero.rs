use crate::model::ModelView;
use crate::score::{
    adds_cell, adds_product, bilinear_sums_to, combines, is_score, linear_sums_to, row_sums_to,
    ZERO_BITS,
};
use vstd::prelude::*;

verus! {

/// The bit pattern of the double negative zero.
pub const NEGATIVE_ZERO_BITS: u64 = 0x8000_0000_0000_0000;

/// The eleven exponent bits of a double; all are set in an infinity or a NaN.
pub const EXPONENT_BITS: u64 = 0x7ff0_0000_0000_0000;

/// `x` is one of the two zeros of the doubles.
pub open spec fn is_zero(x: u64) -> bool {
    x == ZERO_BITS || x == NEGATIVE_ZERO_BITS
}

/// `x` is a finite double: neither an infinity nor a NaN.
pub open spec fn is_finite(x: u64) -> bool {
    x & EXPONENT_BITS != EXPONENT_BITS
}

/// Every element of `v` is a zero.
pub open spec fn all_zero(v: Seq<u64>) -> bool {
    forall|i: int| 0 <= i < v.len() ==> is_zero(#[trigger] v[i])
}

/// The weights and every element of the matrix and of `c` are finite.
pub open spec fn coefficients_finite(m: ModelView) -> bool {
    &&& is_finite(m.alpha)
    &&& is_finite(m.beta)
    &&& forall|i: int| 0 <= i < m.c.len() ==> is_finite(#[trigger] m.c[i])
    &&& forall|i: int, j: int|
        0 <= i < m.a.len() && 0 <= j < m.a[i].len() ==> is_finite(#[trigger] m.a[i][j])
}

/// `f` multiplies as the doubles do where a zero meets a finite value: the
/// product is a zero.
pub open spec fn zero_absorbing<F: Fn(u64, u64) -> u64>(f: F) -> bool {
    forall|x: u64, y: u64, r: u64|
        #[trigger] call_ensures(f, (x, y), r) && is_finite(x) && is_finite(y) && (is_zero(x)
            || is_zero(y)) ==> is_zero(r)
}

/// `f` adds as the doubles do where both operands are zeros: the sum is a zero.
pub open spec fn zero_preserving<F: Fn(u64, u64) -> u64>(f: F) -> bool {
    forall|x: u64, y: u64, r: u64|
        #[trigger] call_ensures(f, (x, y), r) && is_zero(x) && is_zero(y) ==> is_zero(r)
}

/// A zero is finite.
pub proof fn lemma_zero_is_finite(x: u64)
    requires
        is_zero(x),
    ensures
        is_finite(x),
{
    assert(0u64 & 0x7ff0_0000_0000_0000u64 != 0x7ff0_0000_0000_0000u64) by (bit_vector);
    assert(0x8000_0000_0000_0000u64 & 0x7ff0_0000_0000_0000u64 != 0x7ff0_0000_0000_0000u64)
        by (bit_vector);
}

/// With a zero vector `b` and finite coefficients, the running sum over a row
/// stays a zero.
proof fn lemma_row_sum_zero<M: Fn(u64, u64) -> u64, A: Fn(u64, u64) -> u64>(
    m: ModelView,
    times: M,
    plus: A,
    i: int,
    j: nat,
    start: u64,
    acc: u64,
)
    requires
        m.well_formed(),
        coefficients_finite(m),
        all_zero(m.b),
        zero_absorbing(times),
        zero_preserving(plus),
        0 <= i < m.side(),
        j <= m.side(),
        is_zero(start),
        row_sums_to(m, times, plus, i, j, start, acc),
    ensures
        is_zero(acc),
    decreases j,
{
    if j > 0 {
        let (prev, pair, term) = choose|prev: u64, pair: u64, term: u64|
            row_sums_to(m, times, plus, i, (j - 1) as nat, start, prev) && #[trigger] adds_cell(
                m,
                times,
                plus,
                i,
                j - 1,
                prev,
                pair,
                term,
                acc,
            );
        lemma_row_sum_zero(m, times, plus, i, (j - 1) as nat, start, prev);
        lemma_zero_is_finite(m.b[i]);
        lemma_zero_is_finite(m.b[j - 1]);
        assert(is_zero(pair));
        lemma_zero_is_finite(pair);
        assert(is_finite(m.a[i][j - 1]));
        assert(is_zero(term));
    }
}

/// With a zero vector `b` and finite coefficients, the bilinear sum is a zero.
pub proof fn lemma_bilinear_sum_zero<M: Fn(u64, u64) -> u64, A: Fn(u64, u64) -> u64>(
    m: ModelView,
    times: M,
    plus: A,
    i: nat,
    acc: u64,
)
    requires
        m.well_formed(),
        coefficients_finite(m),
        all_zero(m.b),
        zero_absorbing(times),
        zero_preserving(plus),
        i <= m.side(),
        bilinear_sums_to(m, times, plus, i, acc),
    ensures
        is_zero(acc),
    decreases i,
{
    if i > 0 {
        let prev = choose|prev: u64|
            bilinear_sums_to(m, times, plus, (i - 1) as nat, prev) && #[trigger] row_sums_to(
                m,
                times,
                plus,
                i - 1,
                m.side(),
                prev,
                acc,
            );
        lemma_bilinear_sum_zero(m, times, plus, (i - 1) as nat, prev);
        lemma_row_sum_zero(m, times, plus, i - 1, m.side(), prev, acc);
    }
}

/// With a zero vector `b` and finite coefficients, the linear sum is a zero.
pub proof fn lemma_linear_sum_zero<M: Fn(u64, u64) -> u64, A: Fn(u64, u64) -> u64>(
    m: ModelView,
    times: M,
    plus: A,
    i: nat,
    acc: u64,
)
    requires
        m.well_formed(),
        coefficients_finite(m),
        all_zero(m.b),
        zero_absorbing(times),
        zero_preserving(plus),
        i <= m.side(),
        linear_sums_to(m, times, plus, i, acc),
    ensures
        is_zero(acc),
    decreases i,
{
    if i > 0 {
        let (prev, term) = choose|prev: u64, term: u64|
            linear_sums_to(m, times, plus, (i - 1) as nat, prev) && #[trigger] adds_product(
                times,
                plus,
                m.c[i - 1],
                m.b[i - 1],
                prev,
                term,
                acc,
            );
        lemma_linear_sum_zero(m, times, plus, (i - 1) as nat, prev);
        lemma_zero_is_finite(m.b[i - 1]);
        assert(is_finite(m.c[i - 1]));
        assert(is_zero(term));
    }
}

/// A model whose vector `b` holds only zeros scores zero, whatever its finite
/// weights, matrix and vector `c`, under a multiplication in which a zero times
/// a finite value is a zero and an addition in which a zero plus a zero is a
/// zero. The zero that comes out may be the negative one.
pub proof fn lemma_zero_vector_scores_zero<M: Fn(u64, u64) -> u64, A: Fn(u64, u64) -> u64>(
    m: ModelView,
    times: M,
    plus: A,
    score: u64,
)
    requires
        m.well_formed(),
        coefficients_finite(m),
        all_zero(m.b),
        zero_absorbing(times),
        zero_preserving(plus),
        is_score(m, times, plus, score),
    ensures
        is_zero(score),
{
    let (bilinear, linear, first, second) = choose|
        bilinear: u64,
        linear: u64,
        first: u64,
        second: u64,
    |
        bilinear_sums_to(m, times, plus, m.side(), bilinear) && linear_sums_to(
            m,
            times,
            plus,
            m.side(),
            linear,
        ) && #[trigger] combines(m, times, plus, bilinear, linear, first, second, score);
    lemma_bilinear_sum_zero(m, times, plus, m.side(), bilinear);
    lemma_linear_sum_zero(m, times, plus, m.side(), linear);
    lemma_zero_is_finite(bilinear);
    lemma_zero_is_finite(linear);
    assert(is_zero(first));
    assert(is_zero(second));
}

} // verus!
