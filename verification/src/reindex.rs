use crate::model::ModelView;
use crate::score::{is_score, ZERO_BITS};
use crate::value::{
    bilinear_sum, computes, lemma_score_value, linear_sum, row_sum, score_value,
};
use vstd::prelude::*;
use vstd::seq_lib::{commutative_foldl, lemma_fold_left_permutation};

verus! {

/// The indices `0, 1, .., n - 1` in their order.
pub open spec fn indices(n: nat) -> Seq<int> {
    Seq::new(n, |i: int| i)
}

/// `perm` is a reindexing of `n` indices: it holds each index below `n` once.
pub open spec fn is_reindexing(perm: Seq<int>, n: nat) -> bool {
    &&& perm.len() == n
    &&& perm.to_multiset() == indices(n).to_multiset()
}

/// The model `m` with `perm` applied at once to the rows and the columns of
/// the matrix and to both vectors: index `i` of the result is index `perm[i]`
/// of `m`.
pub open spec fn reindexed(m: ModelView, perm: Seq<int>) -> ModelView {
    ModelView {
        name: m.name,
        alpha: m.alpha,
        beta: m.beta,
        a: Seq::new(m.side(), |i: int| Seq::new(m.side(), |j: int| m.a[perm[i]][perm[j]])),
        b: Seq::new(m.side(), |i: int| m.b[perm[i]]),
        c: Seq::new(m.side(), |i: int| m.c[perm[i]]),
    }
}

/// The addition `p` does not depend on the order in which two terms are added
/// to a sum. This holds of exact arithmetic; it does not hold of the doubles,
/// where each addition rounds.
pub open spec fn order_free(p: spec_fn(u64, u64) -> u64) -> bool {
    forall|v: u64, x: u64, y: u64| #[trigger] p(p(v, x), y) == p(p(v, y), x)
}

/// Adding the cell at row `i` and column `j` to a running sum.
pub open spec fn cell_step(
    m: ModelView,
    t: spec_fn(u64, u64) -> u64,
    p: spec_fn(u64, u64) -> u64,
    i: int,
) -> spec_fn(u64, int) -> u64 {
    |acc: u64, j: int| p(acc, t(m.a[i][j], t(m.b[i], m.b[j])))
}

/// Adding the whole of row `i` to a running sum.
pub open spec fn row_step(
    m: ModelView,
    t: spec_fn(u64, u64) -> u64,
    p: spec_fn(u64, u64) -> u64,
) -> spec_fn(u64, int) -> u64 {
    |acc: u64, i: int| row_sum(m, t, p, i, m.side(), acc)
}

/// Adding the product at index `i` to the running linear sum.
pub open spec fn product_step(
    m: ModelView,
    t: spec_fn(u64, u64) -> u64,
    p: spec_fn(u64, u64) -> u64,
) -> spec_fn(u64, int) -> u64 {
    |acc: u64, i: int| p(acc, t(m.c[i], m.b[i]))
}

proof fn lemma_indices_step(n: nat)
    requires
        n > 0,
    ensures
        indices(n).drop_last() == indices((n - 1) as nat),
        indices(n).last() == n - 1,
{
    assert(indices(n).drop_last() =~= indices((n - 1) as nat));
}

/// A fold over the indices with a step that looks each index up in `perm` is
/// the fold over `perm` itself.
proof fn lemma_fold_through(
    perm: Seq<int>,
    k: nat,
    v: u64,
    h: spec_fn(u64, int) -> u64,
    g: spec_fn(u64, int) -> u64,
)
    requires
        k <= perm.len(),
        forall|acc: u64, j: int| 0 <= j < perm.len() ==> #[trigger] g(acc, j) == h(acc, perm[j]),
    ensures
        indices(k).fold_left(v, g) == perm.take(k as int).fold_left(v, h),
    decreases k,
{
    if k > 0 {
        lemma_indices_step(k);
        lemma_fold_through(perm, (k - 1) as nat, v, h, g);
        assert(perm.take(k as int).drop_last() =~= perm.take(k - 1));
        assert(perm.take(k as int).last() == perm[k - 1]);
    }
}

/// Where two steps may be exchanged, a step may be moved across a fold.
proof fn lemma_step_across_fold(
    s: Seq<int>,
    v: u64,
    b: int,
    f: spec_fn(u64, int) -> u64,
    g: spec_fn(u64, int) -> u64,
)
    requires
        forall|u: u64, x: int, y: int| #[trigger] g(f(u, x), y) == f(g(u, y), x),
    ensures
        g(s.fold_left(v, f), b) == s.fold_left(g(v, b), f),
    decreases s.len(),
{
    if s.len() > 0 {
        lemma_step_across_fold(s.drop_last(), v, b, f, g);
    }
}

/// Where two steps may be exchanged, so may two folds.
proof fn lemma_folds_exchange(
    s1: Seq<int>,
    s2: Seq<int>,
    v: u64,
    f: spec_fn(u64, int) -> u64,
    g: spec_fn(u64, int) -> u64,
)
    requires
        forall|u: u64, x: int, y: int| #[trigger] g(f(u, x), y) == f(g(u, y), x),
    ensures
        s1.fold_left(s2.fold_left(v, f), g) == s2.fold_left(s1.fold_left(v, g), f),
    decreases s1.len(),
{
    if s1.len() > 0 {
        lemma_folds_exchange(s1.drop_last(), s2, v, f, g);
        lemma_step_across_fold(s2, s1.drop_last().fold_left(v, g), s1.last(), f, g);
    }
}

/// The running sum over a row is a fold over the column indices.
proof fn lemma_row_sum_is_fold(
    m: ModelView,
    t: spec_fn(u64, u64) -> u64,
    p: spec_fn(u64, u64) -> u64,
    i: int,
    j: nat,
    start: u64,
)
    ensures
        row_sum(m, t, p, i, j, start) == indices(j).fold_left(start, cell_step(m, t, p, i)),
    decreases j,
{
    if j > 0 {
        lemma_indices_step(j);
        lemma_row_sum_is_fold(m, t, p, i, (j - 1) as nat, start);
    }
}

/// The bilinear sum is a fold over the row indices.
proof fn lemma_bilinear_sum_is_fold(
    m: ModelView,
    t: spec_fn(u64, u64) -> u64,
    p: spec_fn(u64, u64) -> u64,
    i: nat,
)
    ensures
        bilinear_sum(m, t, p, i) == indices(i).fold_left(ZERO_BITS, row_step(m, t, p)),
    decreases i,
{
    if i > 0 {
        lemma_indices_step(i);
        lemma_bilinear_sum_is_fold(m, t, p, (i - 1) as nat);
    }
}

/// The linear sum is a fold over the indices.
proof fn lemma_linear_sum_is_fold(
    m: ModelView,
    t: spec_fn(u64, u64) -> u64,
    p: spec_fn(u64, u64) -> u64,
    i: nat,
)
    ensures
        linear_sum(m, t, p, i) == indices(i).fold_left(ZERO_BITS, product_step(m, t, p)),
    decreases i,
{
    if i > 0 {
        lemma_indices_step(i);
        lemma_linear_sum_is_fold(m, t, p, (i - 1) as nat);
    }
}

/// A fold over the indices with a step that looks each index up in a
/// reindexing is the fold with the step itself, where the step is order-free.
proof fn lemma_fold_reindexed(
    perm: Seq<int>,
    v: u64,
    h: spec_fn(u64, int) -> u64,
    g: spec_fn(u64, int) -> u64,
)
    requires
        is_reindexing(perm, perm.len()),
        commutative_foldl(h),
        forall|acc: u64, j: int| 0 <= j < perm.len() ==> #[trigger] g(acc, j) == h(acc, perm[j]),
    ensures
        indices(perm.len()).fold_left(v, g) == indices(perm.len()).fold_left(v, h),
{
    lemma_fold_through(perm, perm.len(), v, h, g);
    assert(perm.take(perm.len() as int) =~= perm);
    lemma_fold_left_permutation(perm, indices(perm.len()), h, v);
}

/// The running sum over a whole row of the reindexed model is that over the
/// row of the model that it came from.
proof fn lemma_row_sum_reindexed(
    m: ModelView,
    perm: Seq<int>,
    t: spec_fn(u64, u64) -> u64,
    p: spec_fn(u64, u64) -> u64,
    i: int,
    start: u64,
)
    requires
        is_reindexing(perm, m.side()),
        order_free(p),
        0 <= i < m.side(),
    ensures
        row_sum(reindexed(m, perm), t, p, i, m.side(), start) == row_sum(
            m,
            t,
            p,
            perm[i],
            m.side(),
            start,
        ),
{
    let n = m.side();
    let r = reindexed(m, perm);
    let h = cell_step(m, t, p, perm[i]);
    let g = cell_step(r, t, p, i);
    assert(commutative_foldl(h)) by {
        assert forall|x: int, y: int, v: u64| #[trigger] h(h(v, x), y) == h(h(v, y), x) by {
            let tx = t(m.a[perm[i]][x], t(m.b[perm[i]], m.b[x]));
            let ty = t(m.a[perm[i]][y], t(m.b[perm[i]], m.b[y]));
            assert(p(p(v, tx), ty) == p(p(v, ty), tx));
        }
    }
    assert forall|acc: u64, j: int| 0 <= j < perm.len() implies #[trigger] g(acc, j) == h(
        acc,
        perm[j],
    ) by {
        assert(r.a[i][j] == m.a[perm[i]][perm[j]]);
        assert(r.b[i] == m.b[perm[i]]);
        assert(r.b[j] == m.b[perm[j]]);
    }
    lemma_fold_reindexed(perm, start, h, g);
    lemma_row_sum_is_fold(r, t, p, i, n, start);
    lemma_row_sum_is_fold(m, t, p, perm[i], n, start);
}

/// Under an order-free addition the score of a model, as a value, is kept by
/// every reindexing.
pub proof fn lemma_reindexing_keeps_score_value(
    m: ModelView,
    perm: Seq<int>,
    t: spec_fn(u64, u64) -> u64,
    p: spec_fn(u64, u64) -> u64,
)
    requires
        is_reindexing(perm, m.side()),
        order_free(p),
    ensures
        score_value(reindexed(m, perm), t, p) == score_value(m, t, p),
{
    let n = m.side();
    let r = reindexed(m, perm);
    assert(r.side() == n);
    // The bilinear sum.
    let h = row_step(m, t, p);
    let g = row_step(r, t, p);
    assert forall|u: u64, x: int, y: int| #[trigger] h(h(u, x), y) == h(h(u, y), x) by {
        let fx = cell_step(m, t, p, x);
        let fy = cell_step(m, t, p, y);
        assert forall|w: u64, c: int, d: int| #[trigger] fy(fx(w, c), d) == fx(fy(w, d), c) by {
            let tc = t(m.a[x][c], t(m.b[x], m.b[c]));
            let td = t(m.a[y][d], t(m.b[y], m.b[d]));
            assert(p(p(w, tc), td) == p(p(w, td), tc));
        }
        lemma_folds_exchange(indices(n), indices(n), u, fx, fy);
        lemma_row_sum_is_fold(m, t, p, x, n, u);
        lemma_row_sum_is_fold(m, t, p, y, n, u);
        lemma_row_sum_is_fold(m, t, p, y, n, h(u, x));
        lemma_row_sum_is_fold(m, t, p, x, n, h(u, y));
    }
    assert(commutative_foldl(h));
    assert forall|acc: u64, j: int| 0 <= j < perm.len() implies #[trigger] g(acc, j) == h(
        acc,
        perm[j],
    ) by {
        lemma_row_sum_reindexed(m, perm, t, p, j, acc);
    }
    lemma_fold_reindexed(perm, ZERO_BITS, h, g);
    lemma_bilinear_sum_is_fold(r, t, p, n);
    lemma_bilinear_sum_is_fold(m, t, p, n);
    // The linear sum.
    let hl = product_step(m, t, p);
    let gl = product_step(r, t, p);
    assert(commutative_foldl(hl)) by {
        assert forall|x: int, y: int, v: u64| #[trigger] hl(hl(v, x), y) == hl(hl(v, y), x) by {
            let tx = t(m.c[x], m.b[x]);
            let ty = t(m.c[y], m.b[y]);
            assert(p(p(v, tx), ty) == p(p(v, ty), tx));
        }
    }
    assert forall|acc: u64, j: int| 0 <= j < perm.len() implies #[trigger] gl(acc, j) == hl(
        acc,
        perm[j],
    ) by {
        assert(r.c[j] == m.c[perm[j]]);
        assert(r.b[j] == m.b[perm[j]]);
    }
    lemma_fold_reindexed(perm, ZERO_BITS, hl, gl);
    lemma_linear_sum_is_fold(r, t, p, n);
    lemma_linear_sum_is_fold(m, t, p, n);
}

/// Reindexing invariance: where the multiplication computes `t` and the
/// addition computes an order-free `p`, a model and the same model with its
/// rows, its columns and both vectors reindexed at once have the same score.
/// The matrix need not be symmetric for this.
pub proof fn lemma_reindexing_keeps_score<M: Fn(u64, u64) -> u64, A: Fn(u64, u64) -> u64>(
    m: ModelView,
    perm: Seq<int>,
    times: M,
    plus: A,
    t: spec_fn(u64, u64) -> u64,
    p: spec_fn(u64, u64) -> u64,
    score: u64,
    reindexed_score: u64,
)
    requires
        is_reindexing(perm, m.side()),
        computes(times, t),
        computes(plus, p),
        order_free(p),
        is_score(m, times, plus, score),
        is_score(reindexed(m, perm), times, plus, reindexed_score),
    ensures
        reindexed_score == score,
{
    lemma_score_value(m, times, plus, t, p, score);
    lemma_score_value(reindexed(m, perm), times, plus, t, p, reindexed_score);
    lemma_reindexing_keeps_score_value(m, perm, t, p);
}

} // verus!
