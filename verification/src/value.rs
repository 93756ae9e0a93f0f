use crate::model::ModelView;
use crate::score::{
    adds_cell, adds_product, bilinear_sums_to, combines, is_score, linear_sums_to, row_sums_to,
    ZERO_BITS,
};
use vstd::prelude::*;

verus! {

/// Every result that `f` can give for `x` and `y` is `g(x, y)`.
pub open spec fn computes<F: Fn(u64, u64) -> u64>(f: F, g: spec_fn(u64, u64) -> u64) -> bool {
    forall|x: u64, y: u64, r: u64| #[trigger] call_ensures(f, (x, y), r) ==> r == g(x, y)
}

/// The running sum after the first `j` columns of row `i`, from `start`, where
/// `t` multiplies and `p` adds.
pub open spec fn row_sum(
    m: ModelView,
    t: spec_fn(u64, u64) -> u64,
    p: spec_fn(u64, u64) -> u64,
    i: int,
    j: nat,
    start: u64,
) -> u64
    decreases j,
{
    if j == 0 {
        start
    } else {
        p(row_sum(m, t, p, i, (j - 1) as nat, start), t(m.a[i][j - 1], t(m.b[i], m.b[j - 1])))
    }
}

/// The bilinear sum over the first `i` rows, where `t` multiplies and `p` adds.
pub open spec fn bilinear_sum(
    m: ModelView,
    t: spec_fn(u64, u64) -> u64,
    p: spec_fn(u64, u64) -> u64,
    i: nat,
) -> u64
    decreases i,
{
    if i == 0 {
        ZERO_BITS
    } else {
        row_sum(m, t, p, i - 1, m.side(), bilinear_sum(m, t, p, (i - 1) as nat))
    }
}

/// The linear sum over the first `i` indices, where `t` multiplies and `p` adds.
pub open spec fn linear_sum(
    m: ModelView,
    t: spec_fn(u64, u64) -> u64,
    p: spec_fn(u64, u64) -> u64,
    i: nat,
) -> u64
    decreases i,
{
    if i == 0 {
        ZERO_BITS
    } else {
        p(linear_sum(m, t, p, (i - 1) as nat), t(m.c[i - 1], m.b[i - 1]))
    }
}

/// The score as a value: `alpha * bilinear + beta * linear`, where `t`
/// multiplies and `p` adds.
pub open spec fn score_value(
    m: ModelView,
    t: spec_fn(u64, u64) -> u64,
    p: spec_fn(u64, u64) -> u64,
) -> u64 {
    p(t(m.alpha, bilinear_sum(m, t, p, m.side())), t(m.beta, linear_sum(m, t, p, m.side())))
}

/// Where `times` computes `t` and `plus` computes `p`, the running sum over a
/// row is `row_sum`.
proof fn lemma_row_sum_value<M: Fn(u64, u64) -> u64, A: Fn(u64, u64) -> u64>(
    m: ModelView,
    times: M,
    plus: A,
    t: spec_fn(u64, u64) -> u64,
    p: spec_fn(u64, u64) -> u64,
    i: int,
    j: nat,
    start: u64,
    acc: u64,
)
    requires
        computes(times, t),
        computes(plus, p),
        row_sums_to(m, times, plus, i, j, start, acc),
    ensures
        acc == row_sum(m, t, p, i, j, start),
    decreases j,
{
    if j > 0 {
        let (prev, pair, term) = choose|prev: u64, pair: u64, term: u64|
            row_sums_to(m, times, plus, i, (j - 1) as nat, start, prev) && #[trigger] adds_cell(
                m,
                times,
                plus,
                i,
                j - 1,
                prev,
                pair,
                term,
                acc,
            );
        lemma_row_sum_value(m, times, plus, t, p, i, (j - 1) as nat, start, prev);
    }
}

/// Where `times` computes `t` and `plus` computes `p`, the bilinear sum over
/// the first `i` rows is `bilinear_sum`.
pub proof fn lemma_bilinear_sum_value<M: Fn(u64, u64) -> u64, A: Fn(u64, u64) -> u64>(
    m: ModelView,
    times: M,
    plus: A,
    t: spec_fn(u64, u64) -> u64,
    p: spec_fn(u64, u64) -> u64,
    i: nat,
    acc: u64,
)
    requires
        computes(times, t),
        computes(plus, p),
        bilinear_sums_to(m, times, plus, i, acc),
    ensures
        acc == bilinear_sum(m, t, p, i),
    decreases i,
{
    if i > 0 {
        let prev = choose|prev: u64|
            bilinear_sums_to(m, times, plus, (i - 1) as nat, prev) && #[trigger] row_sums_to(
                m,
                times,
                plus,
                i - 1,
                m.side(),
                prev,
                acc,
            );
        lemma_bilinear_sum_value(m, times, plus, t, p, (i - 1) as nat, prev);
        lemma_row_sum_value(m, times, plus, t, p, i - 1, m.side(), prev, acc);
    }
}

/// Where `times` computes `t` and `plus` computes `p`, the linear sum over the
/// first `i` indices is `linear_sum`.
pub proof fn lemma_linear_sum_value<M: Fn(u64, u64) -> u64, A: Fn(u64, u64) -> u64>(
    m: ModelView,
    times: M,
    plus: A,
    t: spec_fn(u64, u64) -> u64,
    p: spec_fn(u64, u64) -> u64,
    i: nat,
    acc: u64,
)
    requires
        computes(times, t),
        computes(plus, p),
        linear_sums_to(m, times, plus, i, acc),
    ensures
        acc == linear_sum(m, t, p, i),
    decreases i,
{
    if i > 0 {
        let (prev, term) = choose|prev: u64, term: u64|
            linear_sums_to(m, times, plus, (i - 1) as nat, prev) && #[trigger] adds_product(
                times,
                plus,
                m.c[i - 1],
                m.b[i - 1],
                prev,
                term,
                acc,
            );
        lemma_linear_sum_value(m, times, plus, t, p, (i - 1) as nat, prev);
    }
}

/// Where `times` computes the multiplication `t` and `plus` the addition `p`,
/// the score of a model is `alpha * bilinear + beta * linear`, with the
/// bilinear sum accumulated over the cells `a[i][j] * (b[i] * b[j])` in
/// row-major order and the linear sum over `c[i] * b[i]` in index order, each
/// from zero and each to its end before the two are combined.
pub proof fn lemma_score_value<M: Fn(u64, u64) -> u64, A: Fn(u64, u64) -> u64>(
    m: ModelView,
    times: M,
    plus: A,
    t: spec_fn(u64, u64) -> u64,
    p: spec_fn(u64, u64) -> u64,
    score: u64,
)
    requires
        computes(times, t),
        computes(plus, p),
        is_score(m, times, plus, score),
    ensures
        score == score_value(m, t, p),
{
    let (bilinear, linear, first, second) = choose|
        bilinear: u64,
        linear: u64,
        first: u64,
        second: u64,
    |
        bilinear_sums_to(m, times, plus, m.side(), bilinear) && linear_sums_to(
            m,
            times,
            plus,
            m.side(),
            linear,
        ) && #[trigger] combines(m, times, plus, bilinear, linear, first, second, score);
    lemma_bilinear_sum_value(m, times, plus, t, p, m.side(), bilinear);
    lemma_linear_sum_value(m, times, plus, t, p, m.side(), linear);
}

/// `f` gives one result for each pair of operands.
pub open spec fn single_valued<F: Fn(u64, u64) -> u64>(f: F) -> bool {
    forall|x: u64, y: u64, r1: u64, r2: u64|
        #[trigger] call_ensures(f, (x, y), r1) && #[trigger] call_ensures(f, (x, y), r2) ==> r1
            == r2
}

/// Under operations that give one result for each pair of operands, the
/// running sum over a row has one value.
proof fn lemma_row_sum_unique<M: Fn(u64, u64) -> u64, A: Fn(u64, u64) -> u64>(
    m: ModelView,
    times: M,
    plus: A,
    i: int,
    j: nat,
    start: u64,
    s1: u64,
    s2: u64,
)
    requires
        single_valued(times),
        single_valued(plus),
        row_sums_to(m, times, plus, i, j, start, s1),
        row_sums_to(m, times, plus, i, j, start, s2),
    ensures
        s1 == s2,
    decreases j,
{
    if j > 0 {
        let (prev1, pair1, term1) = choose|prev: u64, pair: u64, term: u64|
            row_sums_to(m, times, plus, i, (j - 1) as nat, start, prev) && #[trigger] adds_cell(
                m,
                times,
                plus,
                i,
                j - 1,
                prev,
                pair,
                term,
                s1,
            );
        let (prev2, pair2, term2) = choose|prev: u64, pair: u64, term: u64|
            row_sums_to(m, times, plus, i, (j - 1) as nat, start, prev) && #[trigger] adds_cell(
                m,
                times,
                plus,
                i,
                j - 1,
                prev,
                pair,
                term,
                s2,
            );
        lemma_row_sum_unique(m, times, plus, i, (j - 1) as nat, start, prev1, prev2);
        assert(pair1 == pair2);
        assert(term1 == term2);
    }
}

/// Under operations that give one result for each pair of operands, the
/// bilinear sum over the first `i` rows has one value.
pub proof fn lemma_bilinear_sum_unique<M: Fn(u64, u64) -> u64, A: Fn(u64, u64) -> u64>(
    m: ModelView,
    times: M,
    plus: A,
    i: nat,
    s1: u64,
    s2: u64,
)
    requires
        single_valued(times),
        single_valued(plus),
        bilinear_sums_to(m, times, plus, i, s1),
        bilinear_sums_to(m, times, plus, i, s2),
    ensures
        s1 == s2,
    decreases i,
{
    if i > 0 {
        let prev1 = choose|prev: u64|
            bilinear_sums_to(m, times, plus, (i - 1) as nat, prev) && #[trigger] row_sums_to(
                m,
                times,
                plus,
                i - 1,
                m.side(),
                prev,
                s1,
            );
        let prev2 = choose|prev: u64|
            bilinear_sums_to(m, times, plus, (i - 1) as nat, prev) && #[trigger] row_sums_to(
                m,
                times,
                plus,
                i - 1,
                m.side(),
                prev,
                s2,
            );
        lemma_bilinear_sum_unique(m, times, plus, (i - 1) as nat, prev1, prev2);
        lemma_row_sum_unique(m, times, plus, i - 1, m.side(), prev1, s1, s2);
    }
}

/// Under operations that give one result for each pair of operands, the
/// linear sum over the first `i` indices has one value.
pub proof fn lemma_linear_sum_unique<M: Fn(u64, u64) -> u64, A: Fn(u64, u64) -> u64>(
    m: ModelView,
    times: M,
    plus: A,
    i: nat,
    s1: u64,
    s2: u64,
)
    requires
        single_valued(times),
        single_valued(plus),
        linear_sums_to(m, times, plus, i, s1),
        linear_sums_to(m, times, plus, i, s2),
    ensures
        s1 == s2,
    decreases i,
{
    if i > 0 {
        let (prev1, term1) = choose|prev: u64, term: u64|
            linear_sums_to(m, times, plus, (i - 1) as nat, prev) && #[trigger] adds_product(
                times,
                plus,
                m.c[i - 1],
                m.b[i - 1],
                prev,
                term,
                s1,
            );
        let (prev2, term2) = choose|prev: u64, term: u64|
            linear_sums_to(m, times, plus, (i - 1) as nat, prev) && #[trigger] adds_product(
                times,
                plus,
                m.c[i - 1],
                m.b[i - 1],
                prev,
                term,
                s2,
            );
        lemma_linear_sum_unique(m, times, plus, (i - 1) as nat, prev1, prev2);
        assert(term1 == term2);
    }
}

/// Under operations that give one result for each pair of operands, a model
/// has one score: the operands and the order of the operations are fixed, so
/// two computations of the score agree bit for bit.
pub proof fn lemma_score_unique<M: Fn(u64, u64) -> u64, A: Fn(u64, u64) -> u64>(
    m: ModelView,
    times: M,
    plus: A,
    s1: u64,
    s2: u64,
)
    requires
        single_valued(times),
        single_valued(plus),
        is_score(m, times, plus, s1),
        is_score(m, times, plus, s2),
    ensures
        s1 == s2,
{
    let (bilinear1, linear1, first1, second1) = choose|bilinear: u64, linear: u64, first: u64, second: u64|
        bilinear_sums_to(m, times, plus, m.side(), bilinear) && linear_sums_to(
            m,
            times,
            plus,
            m.side(),
            linear,
        ) && #[trigger] combines(m, times, plus, bilinear, linear, first, second, s1);
    let (bilinear2, linear2, first2, second2) = choose|bilinear: u64, linear: u64, first: u64, second: u64|
        bilinear_sums_to(m, times, plus, m.side(), bilinear) && linear_sums_to(
            m,
            times,
            plus,
            m.side(),
            linear,
        ) && #[trigger] combines(m, times, plus, bilinear, linear, first, second, s2);
    lemma_bilinear_sum_unique(m, times, plus, m.side(), bilinear1, bilinear2);
    lemma_linear_sum_unique(m, times, plus, m.side(), linear1, linear2);
    assert(first1 == first2);
    assert(second1 == second2);
}

} // verus!
