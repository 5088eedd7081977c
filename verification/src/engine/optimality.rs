//! What Viterbi decoding guarantees: the decoded path attains the reported
//! log-probability, and no path has a higher one.

use crate::engine::algorithms::{first_best, last_best, log_arrivals, viterbi_row, viterbi_state};
use crate::matrix::Matrix;
use crate::scalar::Scalar;
use crate::special::max_upto;
use vstd::prelude::*;

verus! {

/// Neither of the two is below the other.
pub open spec fn level<T: Scalar>(a: T, b: T) -> bool {
    !a.s_below(b) && !b.s_below(a)
}

/// On the numbers of `dom`, `below` is a strict weak order with negative infinity
/// at the bottom, equal numbers are level, and addition stays in `dom` and keeps
/// the order. Of floating-point numbers, those that are not positive (negative
/// infinity included) are such a domain.
pub open spec fn ordered_domain<T: Scalar>(dom: Set<T>) -> bool {
    &&& dom.contains(T::s_neg_inf())
    &&& forall|a: T, b: T|
        dom.contains(a) && dom.contains(b) ==> dom.contains(#[trigger] a.s_plus(b))
    &&& forall|a: T| dom.contains(a) ==> !(#[trigger] a.s_below(T::s_neg_inf()))
    &&& forall|a: T, b: T|
        dom.contains(a) && dom.contains(b) && #[trigger] a.s_below(b) ==> !b.s_below(a)
    &&& forall|a: T, b: T, c: T|
        #![trigger a.s_below(b), b.s_below(c)]
        dom.contains(a) && dom.contains(b) && dom.contains(c) && !a.s_below(b) && !b.s_below(c)
            ==> !a.s_below(c)
    &&& forall|a: T, b: T|
        dom.contains(a) && dom.contains(b) && #[trigger] a.s_same(b) ==> level(a, b)
    &&& forall|a: T, b: T, c: T|
        #![trigger a.s_plus(c), b.s_plus(c)]
        dom.contains(a) && dom.contains(b) && dom.contains(c) && !a.s_below(b) ==> !a.s_plus(
            c,
        ).s_below(b.s_plus(c))
}

/// All the log-probabilities of a model and its frames lie in `dom`.
pub open spec fn logs_in<T: Scalar>(
    dom: Set<T>,
    startprob: Seq<T>,
    transmat: &Matrix<T>,
    frames: &Matrix<T>,
) -> bool {
    &&& forall|i: int| 0 <= i < frames.ncols ==> dom.contains((#[trigger] startprob[i]).s_ln())
    &&& forall|i: int, j: int|
        0 <= i < frames.ncols && 0 <= j < frames.ncols ==> dom.contains(
            (#[trigger] transmat.at(i, j)).s_ln(),
        )
    &&& forall|t: int, i: int|
        0 <= t < frames.rows.len() && 0 <= i < frames.ncols ==> dom.contains(
            #[trigger] frames.at(t, i),
        )
}

/// A state for every frame.
pub open spec fn is_path<T>(path: Seq<int>, frames: &Matrix<T>) -> bool {
    path.len() == frames.rows.len() && forall|t: int|
        0 <= t < path.len() ==> 0 <= #[trigger] path[t] < frames.ncols
}

/// The log-probability of following `path` over the first `t + 1` frames, added
/// up in the order of the frames.
pub open spec fn path_score<T: Scalar>(
    startprob: Seq<T>,
    transmat: &Matrix<T>,
    frames: &Matrix<T>,
    path: Seq<int>,
    t: int,
) -> T
    decreases t,
{
    if t <= 0 {
        startprob[path[0]].s_ln().s_plus(frames.at(0, path[0]))
    } else {
        path_score(startprob, transmat, frames, path, t - 1).s_plus(
            transmat.at(path[t - 1], path[t]).s_ln(),
        ).s_plus(frames.at(t, path[t]))
    }
}

/// The decoded path.
pub open spec fn viterbi_path<T: Scalar>(
    startprob: Seq<T>,
    transmat: &Matrix<T>,
    frames: &Matrix<T>,
) -> Seq<int> {
    Seq::new(frames.rows.len() as nat, |t: int| viterbi_state(startprob, transmat, frames, t))
}

proof fn max_dominates<T: Scalar>(dom: Set<T>, s: Seq<T>, n: int)
    requires
        ordered_domain(dom),
        0 <= n <= s.len(),
        forall|k: int| 0 <= k < s.len() ==> dom.contains(#[trigger] s[k]),
    ensures
        dom.contains(max_upto(s, n)),
        forall|k: int| 0 <= k < n ==> !max_upto(s, n).s_below(#[trigger] s[k]),
    decreases n,
{
    if n > 0 {
        max_dominates(dom, s, n - 1);
        let m = max_upto(s, n - 1);
        let x = s[n - 1];
        assert(dom.contains(x));
        if m.s_below(x) {
            assert(!x.s_below(m));
            assert forall|k: int| 0 <= k < n implies !x.s_below(#[trigger] s[k]) by {
                if k < n - 1 {
                    assert(!m.s_below(s[k]));
                } else if x.s_below(x) {
                    assert(false);
                }
            }
        }
    }
}

proof fn first_best_attains<T: Scalar>(dom: Set<T>, s: Seq<T>, n: int)
    requires
        ordered_domain(dom),
        0 <= n <= s.len(),
        s.len() >= 1,
        forall|k: int| 0 <= k < s.len() ==> dom.contains(#[trigger] s[k]),
    ensures
        0 <= first_best(s, n) < s.len(),
        first_best(s, n) == 0 || first_best(s, n) < n,
        n >= 1 ==> level(s[first_best(s, n)], max_upto(s, n)),
        n == 0 || max_upto(s, n) == s[first_best(s, n)] || (max_upto(s, n) == T::s_neg_inf()
            && first_best(s, n) == 0),
    decreases n,
{
    if n > 0 {
        first_best_attains(dom, s, n - 1);
        max_dominates(dom, s, n - 1);
        max_dominates(dom, s, n);
        let b = first_best(s, n);
        assert(dom.contains(s[b]));
        assert(dom.contains(s[n - 1]));
        if !max_upto(s, n - 1).s_below(s[n - 1]) && n == 1 {
            assert(!s[0].s_below(T::s_neg_inf()));
        }
    }
}

proof fn last_best_attains<T: Scalar>(dom: Set<T>, s: Seq<T>, n: int)
    requires
        ordered_domain(dom),
        0 <= n <= s.len(),
        s.len() >= 1,
        forall|k: int| 0 <= k < s.len() ==> dom.contains(#[trigger] s[k]),
    ensures
        0 <= last_best(s, n).1 < s.len(),
        dom.contains(last_best(s, n).0),
        level(last_best(s, n).0, max_upto(s, n)),
        last_best(s, n).0 == s[last_best(s, n).1] || (last_best(s, n).0 == T::s_neg_inf()
            && last_best(s, n).1 == 0 && (n >= 1 ==> level(s[0], T::s_neg_inf()))),
    decreases n,
{
    let bottom = T::s_neg_inf();
    if n <= 0 {
        assert(!bottom.s_below(bottom));
    } else {
        last_best_attains(dom, s, n - 1);
        max_dominates(dom, s, n - 1);
        max_dominates(dom, s, n);
        let (best, idx) = last_best(s, n - 1);
        let v = s[n - 1];
        let m = max_upto(s, n - 1);
        assert(dom.contains(v));
        assert(!v.s_below(bottom));
        if v.s_below(v) {
            assert(false);
        }
        // `best` and `m` are level, so `v` is above both or above neither.
        assert(best.s_below(v) == m.s_below(v)) by {
            assert(!best.s_below(m) && !m.s_below(best));
        }
        if v.s_same(best) {
            assert(level(v, best));
            assert(!v.s_below(m)) by {
                assert(!v.s_below(best) && !best.s_below(m));
            }
            assert(!m.s_below(v));
        }
        if !best.s_below(v) && n == 1 {
            assert(best == bottom);
        }
    }
}

/// Every lattice entry lies in the domain.
proof fn lattice_in_domain<T: Scalar>(
    dom: Set<T>,
    startprob: Seq<T>,
    transmat: &Matrix<T>,
    frames: &Matrix<T>,
    t: int,
)
    requires
        ordered_domain(dom),
        logs_in(dom, startprob, transmat, frames),
        0 <= t < frames.rows.len(),
    ensures
        viterbi_row(startprob, transmat, frames, t).len() == frames.ncols,
        forall|i: int|
            0 <= i < frames.ncols ==> dom.contains(
                #[trigger] viterbi_row(startprob, transmat, frames, t)[i],
            ),
        forall|j: int, i: int|
            0 <= i < frames.ncols && 0 <= j < frames.ncols ==> dom.contains(
                #[trigger] log_arrivals(
                    viterbi_row(startprob, transmat, frames, t),
                    transmat,
                    j,
                )[i],
            ),
    decreases t,
{
    let nc = frames.ncols as int;
    let row = viterbi_row(startprob, transmat, frames, t);
    if t > 0 {
        lattice_in_domain(dom, startprob, transmat, frames, t - 1);
        let prev = viterbi_row(startprob, transmat, frames, t - 1);
        assert forall|i: int| 0 <= i < nc implies dom.contains(#[trigger] row[i]) by {
            let arr = log_arrivals(prev, transmat, i);
            assert forall|k: int| 0 <= k < arr.len() implies dom.contains(#[trigger] arr[k]) by {
            }
            max_dominates(dom, arr, nc);
            assert(dom.contains(frames.at(t, i)));
        }
    } else {
        assert forall|i: int| 0 <= i < nc implies dom.contains(#[trigger] row[i]) by {
            assert(dom.contains(startprob[i].s_ln()));
            assert(dom.contains(frames.at(0, i)));
        }
    }
    assert forall|j: int, i: int| 0 <= i < nc && 0 <= j < nc implies dom.contains(
        #[trigger] log_arrivals(row, transmat, j)[i],
    ) by {
        assert(dom.contains(row[i]));
        assert(dom.contains(transmat.at(i, j).s_ln()));
    }
}

/// The lattice is an upper bound: no path to a state scores above its entry.
proof fn lattice_bounds_paths<T: Scalar>(
    dom: Set<T>,
    startprob: Seq<T>,
    transmat: &Matrix<T>,
    frames: &Matrix<T>,
    path: Seq<int>,
    t: int,
)
    requires
        ordered_domain(dom),
        logs_in(dom, startprob, transmat, frames),
        is_path(path, frames),
        0 <= t < frames.rows.len(),
    ensures
        dom.contains(path_score(startprob, transmat, frames, path, t)),
        !viterbi_row(startprob, transmat, frames, t)[path[t]].s_below(
            path_score(startprob, transmat, frames, path, t),
        ),
    decreases t,
{
    let nc = frames.ncols as int;
    lattice_in_domain(dom, startprob, transmat, frames, t);
    let i = path[t];
    let here = viterbi_row(startprob, transmat, frames, t)[i];
    let score = path_score(startprob, transmat, frames, path, t);
    assert(dom.contains(frames.at(t, i)));
    if t <= 0 {
        assert(dom.contains(startprob[i].s_ln()));
        assert(dom.contains(score));
        assert(here == score);
        if here.s_below(score) {
            assert(false);
        }
    } else {
        lattice_bounds_paths(dom, startprob, transmat, frames, path, t - 1);
        lattice_in_domain(dom, startprob, transmat, frames, t - 1);
        let j = path[t - 1];
        let prev = viterbi_row(startprob, transmat, frames, t - 1);
        let before = path_score(startprob, transmat, frames, path, t - 1);
        let step = transmat.at(j, i).s_ln();
        assert(dom.contains(step));
        let arr = log_arrivals(prev, transmat, i);
        assert forall|k: int| 0 <= k < arr.len() implies dom.contains(#[trigger] arr[k]) by {
        }
        max_dominates(dom, arr, nc);
        let m = max_upto(arr, nc);
        assert(arr[j] == prev[j].s_plus(step));
        assert(!m.s_below(arr[j]));
        assert(dom.contains(prev[j]));
        assert(!prev[j].s_plus(step).s_below(before.s_plus(step)));
        assert(dom.contains(before.s_plus(step)));
        assert(!m.s_below(before.s_plus(step)));
        let e = frames.at(t, i);
        assert(!m.s_plus(e).s_below(before.s_plus(step).s_plus(e)));
    }
}

/// Along the decoded path the lattice entry is attained at every frame.
proof fn decoded_path_attains<T: Scalar>(
    dom: Set<T>,
    startprob: Seq<T>,
    transmat: &Matrix<T>,
    frames: &Matrix<T>,
    t: int,
)
    requires
        ordered_domain(dom),
        logs_in(dom, startprob, transmat, frames),
        is_path(viterbi_path(startprob, transmat, frames), frames),
        0 <= t < frames.rows.len(),
    ensures
        level(
            path_score(
                startprob,
                transmat,
                frames,
                viterbi_path(startprob, transmat, frames),
                t,
            ),
            viterbi_row(startprob, transmat, frames, t)[viterbi_state(
                startprob,
                transmat,
                frames,
                t,
            )],
        ),
    decreases t,
{
    let nc = frames.ncols as int;
    let path = viterbi_path(startprob, transmat, frames);
    lattice_in_domain(dom, startprob, transmat, frames, t);
    lattice_bounds_paths(dom, startprob, transmat, frames, path, t);
    let i = path[t];
    assert(i == viterbi_state(startprob, transmat, frames, t));
    let here = viterbi_row(startprob, transmat, frames, t)[i];
    let score = path_score(startprob, transmat, frames, path, t);
    assert(dom.contains(here));
    if t <= 0 {
        assert(here == score);
        if here.s_below(score) {
            assert(false);
        }
    } else {
        decoded_path_attains(dom, startprob, transmat, frames, t - 1);
        lattice_in_domain(dom, startprob, transmat, frames, t - 1);
        lattice_bounds_paths(dom, startprob, transmat, frames, path, t - 1);
        let j = path[t - 1];
        assert(j == viterbi_state(startprob, transmat, frames, t - 1));
        let prev = viterbi_row(startprob, transmat, frames, t - 1);
        let before = path_score(startprob, transmat, frames, path, t - 1);
        let step = transmat.at(j, i).s_ln();
        assert(dom.contains(step));
        let arr = log_arrivals(prev, transmat, i);
        assert forall|k: int| 0 <= k < arr.len() implies dom.contains(#[trigger] arr[k]) by {
        }
        max_dominates(dom, arr, nc);
        last_best_attains(dom, arr, nc);
        let m = max_upto(arr, nc);
        assert(j == last_best(arr, nc).1);
        assert(dom.contains(arr[j]));
        // The chosen predecessor is level with the maximum.
        let b = last_best(arr, nc).0;
        assert(!arr[j].s_below(m)) by {
            if b != arr[j] {
                assert(b == T::s_neg_inf());
                assert(!arr[j].s_below(b));
            }
            assert(!b.s_below(m));
        }
        assert(arr[j] == prev[j].s_plus(step));
        assert(dom.contains(prev[j]));
        assert(!before.s_below(prev[j]));
        assert(!before.s_plus(step).s_below(prev[j].s_plus(step)));
        assert(dom.contains(before.s_plus(step)));
        assert(!before.s_plus(step).s_below(m));
        let e = frames.at(t, i);
        assert(dom.contains(e));
        assert(!before.s_plus(step).s_plus(e).s_below(m.s_plus(e)));
    }
}

/// Every decoded state is a state.
proof fn decoded_states_are_states<T: Scalar>(
    dom: Set<T>,
    startprob: Seq<T>,
    transmat: &Matrix<T>,
    frames: &Matrix<T>,
    t: int,
)
    requires
        ordered_domain(dom),
        logs_in(dom, startprob, transmat, frames),
        frames.ncols >= 1,
        0 <= t < frames.rows.len(),
    ensures
        0 <= viterbi_state(startprob, transmat, frames, t) < frames.ncols,
    decreases frames.rows.len() - t,
{
    let nc = frames.ncols as int;
    if t >= frames.rows.len() - 1 {
        lattice_in_domain(dom, startprob, transmat, frames, t);
        first_best_attains(dom, viterbi_row(startprob, transmat, frames, t), nc);
    } else {
        decoded_states_are_states(dom, startprob, transmat, frames, t + 1);
        lattice_in_domain(dom, startprob, transmat, frames, t);
        let next = viterbi_state(startprob, transmat, frames, t + 1);
        let arr = log_arrivals(viterbi_row(startprob, transmat, frames, t), transmat, next);
        assert forall|k: int| 0 <= k < arr.len() implies dom.contains(#[trigger] arr[k]) by {
        }
        last_best_attains(dom, arr, nc);
    }
}

/// Viterbi decoding is optimal. Over log-probabilities that addition keeps in
/// order, the decoded path scores the reported log-probability (neither is below
/// the other), and no path scores above it.
pub proof fn viterbi_is_optimal<T: Scalar>(
    dom: Set<T>,
    startprob: Seq<T>,
    transmat: &Matrix<T>,
    frames: &Matrix<T>,
    path: Seq<int>,
)
    requires
        ordered_domain(dom),
        logs_in(dom, startprob, transmat, frames),
        frames.rows.len() >= 1,
        frames.ncols >= 1,
        is_path(path, frames),
    ensures
        is_path(viterbi_path(startprob, transmat, frames), frames),
        ({
            let last = frames.rows.len() - 1;
            let reported = viterbi_row(startprob, transmat, frames, last)[viterbi_state(
                startprob,
                transmat,
                frames,
                last,
            )];
            &&& level(
                path_score(
                    startprob,
                    transmat,
                    frames,
                    viterbi_path(startprob, transmat, frames),
                    last,
                ),
                reported,
            )
            &&& !reported.s_below(path_score(startprob, transmat, frames, path, last))
        }),
{
    let nc = frames.ncols as int;
    let last = frames.rows.len() - 1;
    let best = viterbi_path(startprob, transmat, frames);
    assert forall|t: int| 0 <= t < best.len() implies 0 <= #[trigger] best[t] < nc by {
        decoded_states_are_states(dom, startprob, transmat, frames, t);
    }
    decoded_path_attains(dom, startprob, transmat, frames, last);
    lattice_bounds_paths(dom, startprob, transmat, frames, path, last);
    lattice_in_domain(dom, startprob, transmat, frames, last);
    let row = viterbi_row(startprob, transmat, frames, last);
    first_best_attains(dom, row, nc);
    max_dominates(dom, row, nc);
    let k = viterbi_state(startprob, transmat, frames, last);
    assert(!max_upto(row, nc).s_below(row[path[last]]));
    assert(!row[k].s_below(max_upto(row, nc)));
    assert(!row[k].s_below(row[path[last]]));
}

} // verus!
