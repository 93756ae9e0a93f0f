use crate::host::grid;
use crate::model::{Model, ModelView};
use vstd::prelude::*;

verus! {

/// The bit pattern of the double zero, with which every sum starts.
pub const ZERO_BITS: u64 = 0;

/// One step of a running sum: `term` is a product of `x` and `y` that `times`
/// can give, and `acc` is a sum of `prev` and `term` that `plus` can give.
pub open spec fn adds_product<M: Fn(u64, u64) -> u64, A: Fn(u64, u64) -> u64>(
    times: M,
    plus: A,
    x: u64,
    y: u64,
    prev: u64,
    term: u64,
    acc: u64,
) -> bool {
    &&& call_ensures(times, (x, y), term)
    &&& call_ensures(plus, (prev, term), acc)
}

/// One step of the bilinear sum, at row `i` and column `j`: `pair` is the
/// product of `b[i]` and `b[j]`, `term` the product of `a[i][j]` and `pair`, and
/// `acc` the sum of `prev` and `term`.
pub open spec fn adds_cell<M: Fn(u64, u64) -> u64, A: Fn(u64, u64) -> u64>(
    m: ModelView,
    times: M,
    plus: A,
    i: int,
    j: int,
    prev: u64,
    pair: u64,
    term: u64,
    acc: u64,
) -> bool {
    &&& call_ensures(times, (m.b[i], m.b[j]), pair)
    &&& adds_product(times, plus, m.a[i][j], pair, prev, term, acc)
}

/// `acc` is what the running sum holds after the first `j` columns of row `i`,
/// taken from left to right, when it held `start` before the row.
pub open spec fn row_sums_to<M: Fn(u64, u64) -> u64, A: Fn(u64, u64) -> u64>(
    m: ModelView,
    times: M,
    plus: A,
    i: int,
    j: nat,
    start: u64,
    acc: u64,
) -> bool
    decreases j,
{
    if j == 0 {
        acc == start
    } else {
        exists|prev: u64, pair: u64, term: u64|
            row_sums_to(m, times, plus, i, (j - 1) as nat, start, prev) && #[trigger] adds_cell(
                m,
                times,
                plus,
                i,
                j - 1,
                prev,
                pair,
                term,
                acc,
            )
    }
}

/// `acc` is what the bilinear sum holds after the first `i` rows, taken from
/// the top, each row from left to right. The sum starts at zero.
pub open spec fn bilinear_sums_to<M: Fn(u64, u64) -> u64, A: Fn(u64, u64) -> u64>(
    m: ModelView,
    times: M,
    plus: A,
    i: nat,
    acc: u64,
) -> bool
    decreases i,
{
    if i == 0 {
        acc == ZERO_BITS
    } else {
        exists|prev: u64|
            bilinear_sums_to(m, times, plus, (i - 1) as nat, prev) && #[trigger] row_sums_to(
                m,
                times,
                plus,
                i - 1,
                m.side(),
                prev,
                acc,
            )
    }
}

/// `acc` is what the linear sum holds after the first `i` products
/// `c[k] * b[k]`, taken in the order of the index. The sum starts at zero.
pub open spec fn linear_sums_to<M: Fn(u64, u64) -> u64, A: Fn(u64, u64) -> u64>(
    m: ModelView,
    times: M,
    plus: A,
    i: nat,
    acc: u64,
) -> bool
    decreases i,
{
    if i == 0 {
        acc == ZERO_BITS
    } else {
        exists|prev: u64, term: u64|
            linear_sums_to(m, times, plus, (i - 1) as nat, prev) && #[trigger] adds_product(
                times,
                plus,
                m.c[i - 1],
                m.b[i - 1],
                prev,
                term,
                acc,
            )
    }
}

/// The last step: `first` is `alpha` times the bilinear sum, `second` is `beta`
/// times the linear sum, and `score` is `first` plus `second`.
pub open spec fn combines<M: Fn(u64, u64) -> u64, A: Fn(u64, u64) -> u64>(
    m: ModelView,
    times: M,
    plus: A,
    bilinear: u64,
    linear: u64,
    first: u64,
    second: u64,
    score: u64,
) -> bool {
    &&& call_ensures(times, (m.alpha, bilinear), first)
    &&& call_ensures(times, (m.beta, linear), second)
    &&& call_ensures(plus, (first, second), score)
}

/// `score` is a score of the model under the multiplication `times` and the
/// addition `plus`: the bilinear sum over all cells in row-major order and the
/// linear sum over all indices are each completed on their own, and then
/// `alpha * bilinear + beta * linear` is formed. Where `times` and `plus` give one
/// result for each pair of operands, the model has exactly one score.
pub open spec fn is_score<M: Fn(u64, u64) -> u64, A: Fn(u64, u64) -> u64>(
    m: ModelView,
    times: M,
    plus: A,
    score: u64,
) -> bool {
    exists|bilinear: u64, linear: u64, first: u64, second: u64|
        bilinear_sums_to(m, times, plus, m.side(), bilinear) && linear_sums_to(
            m,
            times,
            plus,
            m.side(),
            linear,
        ) && #[trigger] combines(m, times, plus, bilinear, linear, first, second, score)
}

impl Model {
    /// The bilinear sum of the model: the sum of `a[i][j] * (b[i] * b[j])` over
    /// all cells, rows from the top and each row from left to right.
    pub fn bilinear_term<M: Fn(u64, u64) -> u64, A: Fn(u64, u64) -> u64>(
        &self,
        times: &M,
        plus: &A,
    ) -> (sum: u64)
        requires
            forall|x: u64, y: u64| call_requires(*times, (x, y)),
            forall|x: u64, y: u64| call_requires(*plus, (x, y)),
        ensures
            bilinear_sums_to(self@, *times, *plus, self@.side(), sum),
    {
        let a = self.a();
        let b = self.b();
        let n: usize = b.len();
        let mut sum: u64 = ZERO_BITS;
        let mut i: usize = 0;
        while i < n
            invariant
                forall|x: u64, y: u64| call_requires(*times, (x, y)),
                forall|x: u64, y: u64| call_requires(*plus, (x, y)),
                self@.well_formed(),
                grid(a@) == self@.a,
                b@ == self@.b,
                n == self@.side(),
                i <= n,
                bilinear_sums_to(self@, *times, *plus, i as nat, sum),
            decreases n - i,
        {
            let ghost start = sum;
            let row = &a[i];
            assert(row@ == self@.a[i as int]);
            let mut j: usize = 0;
            while j < n
                invariant
                    forall|x: u64, y: u64| call_requires(*times, (x, y)),
                    forall|x: u64, y: u64| call_requires(*plus, (x, y)),
                    self@.well_formed(),
                    row@ == self@.a[i as int],
                    b@ == self@.b,
                    n == self@.side(),
                    i < n,
                    j <= n,
                    row_sums_to(self@, *times, *plus, i as int, j as nat, start, sum),
                decreases n - j,
            {
                let ghost prev = sum;
                let pair: u64 = times(b[i], b[j]);
                let term: u64 = times(row[j], pair);
                sum = plus(sum, term);
                proof {
                    let next = (j + 1) as nat;
                    assert(row_sums_to(
                        self@,
                        *times,
                        *plus,
                        i as int,
                        (next - 1) as nat,
                        start,
                        prev,
                    ));
                    assert(adds_cell(
                        self@,
                        *times,
                        *plus,
                        i as int,
                        next - 1,
                        prev,
                        pair,
                        term,
                        sum,
                    ));
                }
                j += 1;
            }
            proof {
                let next = (i + 1) as nat;
                assert(bilinear_sums_to(self@, *times, *plus, (next - 1) as nat, start));
                assert(row_sums_to(self@, *times, *plus, next - 1, self@.side(), start, sum));
            }
            i += 1;
        }
        sum
    }

    /// The linear sum of the model: the sum of `c[i] * b[i]` over all indices,
    /// in their order.
    pub fn linear_term<M: Fn(u64, u64) -> u64, A: Fn(u64, u64) -> u64>(
        &self,
        times: &M,
        plus: &A,
    ) -> (sum: u64)
        requires
            forall|x: u64, y: u64| call_requires(*times, (x, y)),
            forall|x: u64, y: u64| call_requires(*plus, (x, y)),
        ensures
            linear_sums_to(self@, *times, *plus, self@.side(), sum),
    {
        let b = self.b();
        let c = self.c();
        let n: usize = b.len();
        let mut sum: u64 = ZERO_BITS;
        let mut i: usize = 0;
        while i < n
            invariant
                forall|x: u64, y: u64| call_requires(*times, (x, y)),
                forall|x: u64, y: u64| call_requires(*plus, (x, y)),
                self@.well_formed(),
                b@ == self@.b,
                c@ == self@.c,
                n == self@.side(),
                i <= n,
                linear_sums_to(self@, *times, *plus, i as nat, sum),
            decreases n - i,
        {
            let ghost prev = sum;
            let term: u64 = times(c[i], b[i]);
            sum = plus(sum, term);
            proof {
                let next = (i + 1) as nat;
                assert(linear_sums_to(self@, *times, *plus, (next - 1) as nat, prev));
                assert(adds_product(
                    *times,
                    *plus,
                    self@.c[next - 1],
                    self@.b[next - 1],
                    prev,
                    term,
                    sum,
                ));
            }
            i += 1;
        }
        sum
    }

    /// The score of the model: `alpha` times the bilinear sum plus `beta` times
    /// the linear sum. Both sums are completed before they are weighted and
    /// added. `times` and `plus` are the multiplication and the addition of two
    /// doubles, each given and returned as its bit pattern.
    pub fn calc_score<M: Fn(u64, u64) -> u64, A: Fn(u64, u64) -> u64>(
        &self,
        times: &M,
        plus: &A,
    ) -> (score: u64)
        requires
            forall|x: u64, y: u64| call_requires(*times, (x, y)),
            forall|x: u64, y: u64| call_requires(*plus, (x, y)),
        ensures
            is_score(self@, *times, *plus, score),
    {
        let bilinear: u64 = self.bilinear_term(times, plus);
        let linear: u64 = self.linear_term(times, plus);
        let first: u64 = times(self.alpha(), bilinear);
        let second: u64 = times(self.beta(), linear);
        let score: u64 = plus(first, second);
        assert(combines(self@, *times, *plus, bilinear, linear, first, second, score));
        score
    }
}

} // verus!
