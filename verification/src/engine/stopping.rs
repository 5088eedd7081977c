//! When fitting stops.

use crate::engine::emission::EmissionModel;
use crate::engine::fit::{
    begun, fit_reaches, fit_result, initialized, is_run, is_split, iterates, iteration, prepared,
    EStep,
};
use crate::engine::fitted::Fitted;
use crate::engine::hmm::Hmm;
use crate::linalg::Dense;
use crate::matrix::Matrix;
use crate::reading::reads_real;
use vstd::prelude::*;

verus! {

/// Every state of a run holds the first values of the last one's history, with the same
/// tolerance and cap.
proof fn histories_grow<T: Dense, E: EmissionModel<T>>(
    states: Seq<Hmm<T, E>>,
    x: &Matrix<T>,
    ranges: Seq<(usize, usize)>,
    k: int,
    i: int,
)
    requires
        is_run(states, x, ranges),
        states[0].monitor.iter == 0,
        states[0].monitor.history@.len() == 0,
        0 <= i <= k < states.len(),
    ensures
        states[k].monitor.history@.len() == k,
        states[k].monitor.iter == k,
        states[k].monitor.tol == states[0].monitor.tol,
        states[k].monitor.n_iter == states[0].monitor.n_iter,
        states[i].monitor.history@ == states[k].monitor.history@.take(i),
    decreases k,
{
    if k > 0 {
        assert(iterates(&states[k - 1], x, ranges, &states[k - 1 + 1]));
        let (mid, trans, tr, c) = choose|
            mid: Hmm<T, E>,
            trans: Matrix<T>,
            tr: EStep<T, E>,
            c: T,
        | #[trigger]
            iteration(&states[k - 1], x, ranges, &mid, &trans, tr, c, &states[k - 1 + 1]);
        assert(begun(&states[k - 1], &mid));
        if i < k {
            histories_grow(states, x, ranges, k - 1, i);
            assert(states[k].monitor.history@.take(i) =~= states[k - 1].monitor.history@.take(i));
        } else {
            histories_grow(states, x, ranges, k - 1, k - 1);
            assert(states[k].monitor.history@.take(k) =~= states[k].monitor.history@);
        }
    } else {
        assert(states[0].monitor.history@.take(0) =~= states[0].monitor.history@);
    }
}

/// Fitting goes on as long as an iteration improves the objective by at least the
/// tolerance: every improvement but the last does, and where fitting stops before the cap
/// on iterations, the last falls short of it.
pub proof fn fit_goes_on_while_it_improves<T: Dense, E: EmissionModel<T>>(
    rd: spec_fn(T) -> real,
    pre: &Hmm<T, E>,
    x: &Matrix<T>,
    lengths: Option<&[usize]>,
    f: Fitted<T, E>,
)
    requires
        reads_real(rd),
        fit_result(pre, x, lengths, Ok(f)),
        pre.monitor.n_iter == pre.n_iter,
    ensures
        ({
            let h = f.0.monitor.history@;
            let n = h.len() as int;
            let tol = rd(pre.monitor.tol);
            &&& n <= pre.n_iter
            &&& forall|i: int|
                1 <= i < n - 1 ==> rd(#[trigger] h[i]) - rd(h[i - 1]) >= tol
            &&& n < pre.n_iter ==> n >= 2 && rd(h[n - 1]) - rd(h[n - 2]) < tol
        }),
{
    let (ranges, states) = choose|ranges: Seq<(usize, usize)>, states: Seq<Hmm<T, E>>|
        is_split(lengths, x.rows.len() as int, ranges) && #[trigger] fit_reaches(
            pre,
            x,
            ranges,
            states,
        ) && states.last() == f.0;
    assert(prepared(pre, x, ranges.len() as int, &states[0]));
    let looked = choose|looked: E| #[trigger]
        initialized(pre, x, ranges.len() as int, &looked, &states[0]);
    assert(initialized(pre, x, ranges.len() as int, &looked, &states[0]));
    let n = states.len() - 1;
    histories_grow(states, x, ranges, n, n);
    let h = f.0.monitor.history@;
    assert forall|i: int| 1 <= i < n - 1 implies rd(#[trigger] h[i]) - rd(h[i - 1]) >= rd(
        pre.monitor.tol,
    ) by {
        histories_grow(states, x, ranges, n, i + 1);
        histories_grow(states, x, ranges, i + 1, i + 1);
        assert(!states[i + 1].has_converged());
        let g = states[i + 1].monitor.history@;
        assert(g == h.take(i + 1));
        assert(g[i] == h[i] && g[i - 1] == h[i - 1]);
        reveal(reads_real);
    }
    if n < pre.n_iter {
        reveal(reads_real);
        assert(states.last().has_converged());
    }
}

} // verus!
