//! Scoring and decoding fix one result for given entries.

use crate::engine::algorithms::{
    backward_log_row, backward_scaled_row, first_best, forward_log_row, forward_raw_row,
    forward_scaled_row, last_best, log_arrivals, log_departures, log_posterior_at, log_start_row,
    scale_of, scaled_log_prob, scaled_posterior_at, viterbi_row, viterbi_state,
};
use crate::engine::emission::{is_slice, EmissionModel};
use crate::engine::fit::{is_split, lengths_ok};
use crate::engine::fitted::{
    as_path, chosen_at, chosen_upto, decoded_at, decoded_upto, is_decoding, is_score, joined_paths,
    scored_at, scored_upto, stacked, Decoding, Scoring,
};
use crate::engine::hmm::{frame_value, frames_of, FbMode, ForwardBackward, Hmm};
use crate::engine::inference::Inference;
use crate::engine::joined::{
    decoded_apart, in_a_row, joined_decoding_is_single_decodings, joined_score_is_single_scores,
    scored_apart, zero_adds_nothing,
};
use crate::engine::optimality::path_score;
use crate::engine::params::{DecoderAlgorithm, Implementation};
use crate::linalg::Dense;
use crate::matrix::Matrix;
use crate::scalar::{lanes_ext, sigma, sigma_ext, Scalar};
use crate::util::{as_ints, ranges_of};
use vstd::prelude::*;

verus! {

/// Two matrices of one shape hold the same entries.
pub open spec fn alike<T>(a: &Matrix<T>, b: &Matrix<T>) -> bool {
    &&& a.rows.len() == b.rows.len()
    &&& a.ncols == b.ncols
    &&& forall|i: int, j: int|
        0 <= i < a.rows.len() && 0 <= j < a.ncols ==> #[trigger] a.at(i, j) == b.at(i, j)
}

/// Matrices of one shape with equal views hold the same entries.
pub(crate) proof fn alike_by_view<T>(a: &Matrix<T>, b: &Matrix<T>)
    requires
        a.ncols == b.ncols,
        a@ == b@,
    ensures
        alike(a, b),
{
    assert(a@.len() == a.rows.len());
    assert(b@.len() == b.rows.len());
    assert forall|i: int, j: int| 0 <= i < a.rows.len() && 0 <= j < a.ncols implies #[trigger] a.at(
        i,
        j,
    ) == b.at(i, j) by {
        assert(a@[i] == b@[i]);
    }
}

/// Rectangular matrices that hold the same entries have equal views.
pub(crate) proof fn view_of_alike<T>(a: &Matrix<T>, b: &Matrix<T>, n: int, m: int)
    requires
        a.has_dims(n, m),
        b.has_dims(n, m),
        alike(a, b),
    ensures
        a@ == b@,
{
    assert forall|i: int| 0 <= i < n implies #[trigger] a@[i] == b@[i] by {
        assert(a.rows@[i].len() == m);
        assert(b.rows@[i].len() == m);
        assert forall|j: int| 0 <= j < m implies #[trigger] a@[i][j] == b@[i][j] by {
            assert(a.at(i, j) == b.at(i, j));
        }
        assert(a@[i] =~= b@[i]);
    }
    assert(a@ =~= b@);
}

/// The transitions and the frames of two passes hold the same entries.
pub open spec fn same_chain<T>(
    trans: &Matrix<T>,
    frames: &Matrix<T>,
    trans2: &Matrix<T>,
    frames2: &Matrix<T>,
) -> bool {
    &&& trans.has_dims(frames.ncols as int, frames.ncols as int)
    &&& alike(trans, trans2)
    &&& alike(frames, frames2)
}

proof fn arrivals_of_alike<T: Scalar>(prev: Seq<T>, a: &Matrix<T>, b: &Matrix<T>, j: int)
    requires
        alike(a, b),
        prev.len() == a.rows.len(),
        0 <= j < a.ncols,
    ensures
        log_arrivals(prev, a, j) == log_arrivals(prev, b, j),
{
    assert forall|i: int| 0 <= i < prev.len() implies #[trigger] log_arrivals(prev, a, j)[i]
        == log_arrivals(prev, b, j)[i] by {
        assert(a.at(i, j) == b.at(i, j));
    }
    assert(log_arrivals(prev, a, j) =~= log_arrivals(prev, b, j));
}

proof fn start_row_of_alike<T: Scalar>(start: Seq<T>, a: &Matrix<T>, b: &Matrix<T>)
    requires
        alike(a, b),
        a.rows.len() >= 1,
    ensures
        log_start_row(start, a) == log_start_row(start, b),
{
    assert forall|i: int| 0 <= i < a.ncols implies #[trigger] log_start_row(start, a)[i]
        == log_start_row(start, b)[i] by {
        assert(a.at(0, i) == b.at(0, i));
    }
    assert(log_start_row(start, a) =~= log_start_row(start, b));
}

proof fn forward_of_alike<T: Scalar>(
    start: Seq<T>,
    trans: &Matrix<T>,
    frames: &Matrix<T>,
    trans2: &Matrix<T>,
    frames2: &Matrix<T>,
    t: int,
)
    requires
        same_chain(trans, frames, trans2, frames2),
        0 <= t < frames.rows.len(),
    ensures
        forward_log_row(start, trans, frames, t) == forward_log_row(start, trans2, frames2, t),
        forward_log_row(start, trans, frames, t).len() == frames.ncols,
    decreases t,
{
    if t > 0 {
        forward_of_alike(start, trans, frames, trans2, frames2, t - 1);
        let prev = forward_log_row(start, trans, frames, t - 1);
        let a = forward_log_row(start, trans, frames, t);
        let b = forward_log_row(start, trans2, frames2, t);
        assert forall|j: int| 0 <= j < frames.ncols implies #[trigger] a[j] == b[j] by {
            arrivals_of_alike(prev, trans, trans2, j);
            assert(frames.at(t, j) == frames2.at(t, j));
        }
        assert(a =~= b);
    } else {
        start_row_of_alike(start, frames, frames2);
    }
}

proof fn backward_of_alike<T: Scalar>(
    trans: &Matrix<T>,
    frames: &Matrix<T>,
    trans2: &Matrix<T>,
    frames2: &Matrix<T>,
    t: int,
)
    requires
        same_chain(trans, frames, trans2, frames2),
        0 <= t < frames.rows.len(),
    ensures
        backward_log_row(trans, frames, t) == backward_log_row(trans2, frames2, t),
    decreases frames.rows.len() - t,
{
    let a = backward_log_row(trans, frames, t);
    let b = backward_log_row(trans2, frames2, t);
    if t < frames.rows.len() - 1 {
        backward_of_alike(trans, frames, trans2, frames2, t + 1);
        let next = backward_log_row(trans, frames, t + 1);
        assert forall|i: int| 0 <= i < frames.ncols implies #[trigger] a[i] == b[i] by {
            let d = log_departures(trans, frames, next, t, i);
            let e = log_departures(trans2, frames2, next, t, i);
            assert forall|j: int| 0 <= j < frames.ncols implies #[trigger] d[j] == e[j] by {
                assert(trans.at(i, j) == trans2.at(i, j));
                assert(frames.at(t + 1, j) == frames2.at(t + 1, j));
            }
            assert(d =~= e);
        }
    }
    assert(a =~= b);
}

pub(crate) proof fn raw_of_alike<T: Scalar>(
    start: Seq<T>,
    trans: &Matrix<T>,
    frames: &Matrix<T>,
    trans2: &Matrix<T>,
    frames2: &Matrix<T>,
    t: int,
)
    requires
        same_chain(trans, frames, trans2, frames2),
        0 <= t < frames.rows.len(),
    ensures
        forward_raw_row(start, trans, frames, t) == forward_raw_row(start, trans2, frames2, t),
        forward_scaled_row(start, trans, frames, t) == forward_scaled_row(
            start,
            trans2,
            frames2,
            t,
        ),
    decreases t,
{
    let a = forward_raw_row(start, trans, frames, t);
    let b = forward_raw_row(start, trans2, frames2, t);
    if t > 0 {
        raw_of_alike(start, trans, frames, trans2, frames2, t - 1);
        let prev = forward_scaled_row(start, trans, frames, t - 1);
        let nc = frames.ncols as int;
        assert forall|j: int| 0 <= j < nc implies #[trigger] a[j] == b[j] by {
            let f = |i: int| prev[i].s_times(trans.at(i, j));
            let g = |i: int| prev[i].s_times(trans2.at(i, j));
            assert forall|i: int| 0 <= i < nc implies #[trigger] f(i) == g(i) by {
                assert(trans.at(i, j) == trans2.at(i, j));
            }
            sigma_ext(nc, f, g);
            assert(frames.at(t, j) == frames2.at(t, j));
        }
    } else {
        assert forall|j: int| 0 <= j < frames.ncols implies #[trigger] a[j] == b[j] by {
            assert(frames.at(0, j) == frames2.at(0, j));
        }
    }
    assert(a =~= b);
}

pub(crate) proof fn scaled_score_of_alike<T: Scalar>(
    start: Seq<T>,
    trans: &Matrix<T>,
    frames: &Matrix<T>,
    trans2: &Matrix<T>,
    frames2: &Matrix<T>,
    t: int,
)
    requires
        same_chain(trans, frames, trans2, frames2),
        0 <= t <= frames.rows.len(),
    ensures
        scaled_log_prob(start, trans, frames, t) == scaled_log_prob(start, trans2, frames2, t),
    decreases t,
{
    if t > 0 {
        scaled_score_of_alike(start, trans, frames, trans2, frames2, t - 1);
        raw_of_alike(start, trans, frames, trans2, frames2, t - 1);
    }
}

pub(crate) proof fn backward_scaled_of_alike<T: Scalar>(
    trans: &Matrix<T>,
    frames: &Matrix<T>,
    trans2: &Matrix<T>,
    frames2: &Matrix<T>,
    scaling: Seq<T>,
    t: int,
)
    requires
        same_chain(trans, frames, trans2, frames2),
        0 <= t < frames.rows.len(),
    ensures
        backward_scaled_row(trans, frames, scaling, t) == backward_scaled_row(
            trans2,
            frames2,
            scaling,
            t,
        ),
    decreases frames.rows.len() - t,
{
    let a = backward_scaled_row(trans, frames, scaling, t);
    let b = backward_scaled_row(trans2, frames2, scaling, t);
    if t < frames.rows.len() - 1 {
        backward_scaled_of_alike(trans, frames, trans2, frames2, scaling, t + 1);
        let next = backward_scaled_row(trans, frames, scaling, t + 1);
        let nc = frames.ncols as int;
        assert forall|i: int| 0 <= i < nc implies #[trigger] a[i] == b[i] by {
            let f = |j: int| trans.at(i, j).s_times(frames.at(t + 1, j)).s_times(next[j]);
            let g = |j: int| trans2.at(i, j).s_times(frames2.at(t + 1, j)).s_times(next[j]);
            assert forall|j: int| 0 <= j < nc implies #[trigger] f(j) == g(j) by {
                assert(trans.at(i, j) == trans2.at(i, j));
                assert(frames.at(t + 1, j) == frames2.at(t + 1, j));
            }
            sigma_ext(nc, f, g);
        }
    }
    assert(a =~= b);
}

/// Posteriors that are read off lattices with the same entries are the same.
proof fn posterior_of_alike<T: Scalar>(
    fwd: &Matrix<T>,
    bwd: &Matrix<T>,
    fwd2: &Matrix<T>,
    bwd2: &Matrix<T>,
    t: int,
    j: int,
)
    requires
        alike(fwd, fwd2),
        alike(bwd, bwd2),
        fwd.rows.len() == bwd.rows.len(),
        fwd.ncols == bwd.ncols,
        0 <= t < fwd.rows.len(),
        0 <= j < fwd.ncols,
    ensures
        log_posterior_at(fwd, bwd, t, j) == log_posterior_at(fwd2, bwd2, t, j),
        scaled_posterior_at(fwd, bwd, t, j) == scaled_posterior_at(fwd2, bwd2, t, j),
{
    let nc = fwd.ncols as int;
    let a = Seq::new(nc as nat, |k: int| fwd.at(t, k).s_plus(bwd.at(t, k)));
    let b = Seq::new(nc as nat, |k: int| fwd2.at(t, k).s_plus(bwd2.at(t, k)));
    assert forall|k: int| 0 <= k < nc implies #[trigger] fwd.at(t, k) == fwd2.at(t, k) && bwd.at(
        t,
        k,
    ) == bwd2.at(t, k) by {
        assert(bwd.at(t, k) == bwd2.at(t, k));
    }
    assert(a =~= b);
    let f = |k: int| fwd.at(t, k).s_times(bwd.at(t, k));
    let g = |k: int| fwd2.at(t, k).s_times(bwd2.at(t, k));
    assert forall|k: int| 0 <= k < nc implies #[trigger] f(k) == g(k) by {
        assert(fwd.at(t, k) == fwd2.at(t, k));
    }
    lanes_ext(nc, f, g);
}

/// Passes over frames with the same entries find the same log-likelihood and the
/// same posteriors.
proof fn pass_of_alike<T: Scalar>(
    implementation: Implementation,
    start: Seq<T>,
    trans: &Matrix<T>,
    fb: &ForwardBackward<T>,
    trans2: &Matrix<T>,
    fb2: &ForwardBackward<T>,
    ns: int,
    nc: int,
)
    requires
        ns >= 1,
        fb.has_dims(ns, nc),
        fb2.has_dims(ns, nc),
        same_chain(trans, &fb.frameprob, trans2, &fb2.frameprob),
        fb.is_pass(implementation, start, trans),
        fb2.is_pass(implementation, start, trans2),
    ensures
        fb.log_prob == fb2.log_prob,
        fb.posteriors@ == fb2.posteriors@,
{
    let frames = &fb.frameprob;
    let frames2 = &fb2.frameprob;
    match implementation {
        Implementation::Log => {
            forward_of_alike(start, trans, frames, trans2, frames2, ns - 1);
            assert forall|t: int| 0 <= t < ns implies #[trigger] fb.fwd@[t] == fb2.fwd@[t] by {
                forward_of_alike(start, trans, frames, trans2, frames2, t);
            }
            assert forall|t: int| 0 <= t < ns implies #[trigger] fb.bwd@[t] == fb2.bwd@[t] by {
                backward_of_alike(trans, frames, trans2, frames2, t);
            }
        },
        Implementation::Scaling => {
            scaled_score_of_alike(start, trans, frames, trans2, frames2, ns);
            let scaling = Seq::new(
                ns as nat,
                |u: int| scale_of(forward_raw_row(start, trans, frames, u)),
            );
            let scaling2 = Seq::new(
                ns as nat,
                |u: int| scale_of(forward_raw_row(start, trans2, frames2, u)),
            );
            assert forall|t: int| 0 <= t < ns implies #[trigger] scaling[t] == scaling2[t] by {
                raw_of_alike(start, trans, frames, trans2, frames2, t);
            }
            assert(scaling =~= scaling2);
            assert forall|t: int| 0 <= t < ns implies #[trigger] fb.fwd@[t] == fb2.fwd@[t] by {
                raw_of_alike(start, trans, frames, trans2, frames2, t);
            }
            assert forall|t: int| 0 <= t < ns implies #[trigger] fb.bwd@[t] == fb2.bwd@[t] by {
                backward_scaled_of_alike(trans, frames, trans2, frames2, scaling, t);
            }
        },
    }
    assert(fb.fwd@ =~= fb2.fwd@);
    assert(fb.bwd@ =~= fb2.bwd@);
    alike_by_view(&fb.fwd, &fb2.fwd);
    alike_by_view(&fb.bwd, &fb2.bwd);
    assert forall|t: int, j: int| 0 <= t < ns && 0 <= j < nc implies #[trigger] fb.posteriors.at(
        t,
        j,
    ) == fb2.posteriors.at(t, j) by {
        posterior_of_alike(&fb.fwd, &fb.bwd, &fb2.fwd, &fb2.bwd, t, j);
        assert(fb2.posteriors.at(t, j) == fb2.posteriors.at(t, j));
    }
    view_of_alike(&fb.posteriors, &fb2.posteriors, ns, nc);
}

/// The frames of observations with the same entries hold the same entries.
pub(crate) proof fn frames_of_alike<T: Dense, E: EmissionModel<T>>(
    emission: &E,
    implementation: Implementation,
    mode: FbMode,
    x: &Matrix<T>,
    frames: &Matrix<T>,
    y: &Matrix<T>,
    frames2: &Matrix<T>,
)
    requires
        x.ncols == y.ncols,
        x@ == y@,
        frames_of(emission, implementation, mode, x, frames),
        frames_of(emission, implementation, mode, y, frames2),
    ensures
        alike(frames, frames2),
{
    assert(x@.len() == x.rows.len());
    assert(y@.len() == y.rows.len());
    assert forall|t: int, c: int|
        0 <= t < frames.rows.len() && 0 <= c < frames.ncols implies #[trigger] frames.at(t, c)
        == frames2.at(t, c) by {
        assert(x@[t] == y@[t]);
        emission.likelihoods_of_row(x, t, y, t, c);
        assert(frames.at(t, c) == frame_value(emission, implementation, mode, x, t, c));
        assert(frames2.at(t, c) == frame_value(emission, implementation, mode, y, t, c));
    }
}

pub(crate) proof fn one_split(
    lengths: Option<&[usize]>,
    n: int,
    a: Seq<(usize, usize)>,
    b: Seq<(usize, usize)>,
)
    requires
        is_split(lengths, n, a),
        is_split(lengths, n, b),
    ensures
        a == b,
{
    assert(as_ints(a) == as_ints(b));
    assert(as_ints(a).len() == a.len());
    assert(as_ints(b).len() == b.len());
    assert forall|k: int| 0 <= k < a.len() implies #[trigger] a[k] == b[k] by {
        assert(as_ints(a)[k] == (a[k].0 as int, a[k].1 as int));
        assert(as_ints(b)[k] == (b[k].0 as int, b[k].1 as int));
    }
    assert(a =~= b);
}

pub(crate) proof fn scored_of_alike<T: Dense, E: EmissionModel<T>>(
    h: &Hmm<T, E>,
    x: &Matrix<T>,
    trans: &Matrix<T>,
    tr: Scoring<T>,
    y: &Matrix<T>,
    trans2: &Matrix<T>,
    tr2: Scoring<T>,
    ranges: Seq<(usize, usize)>,
    n: int,
    k: int,
)
    requires
        h.emission.states() == h.inference.states(),
        x.ncols == y.ncols,
        x@ == y@,
        scored_upto(h, x, ranges, trans, tr, n),
        scored_upto(h, y, ranges, trans2, tr2, n),
        forall|i: int| 0 <= i < n ==> (#[trigger] ranges[i]).0 < ranges[i].1,
        0 <= k <= n,
    ensures
        tr.logs[k] == tr2.logs[k],
        stacked(tr.fbs, k) == stacked(tr2.fbs, k),
        k < n ==> tr.fbs[k].posteriors@ == tr2.fbs[k].posteriors@ && tr.fbs[k].log_prob
            == tr2.fbs[k].log_prob && tr.subs[k]@ == tr2.subs[k]@ && tr.subs[k].ncols
            == tr2.subs[k].ncols,
    decreases k,
{
    alike_by_view(trans, trans2);
    if k > 0 {
        scored_of_alike(h, x, trans, tr, y, trans2, tr2, ranges, n, k - 1);
        assert(scored_at(h, x, ranges, trans, tr, k - 1));
        assert(scored_at(h, y, ranges, trans2, tr2, k - 1));
    }
    if k < n {
        assert(scored_at(h, x, ranges, trans, tr, k));
        assert(scored_at(h, y, ranges, trans2, tr2, k));
        assert(ranges[k].0 < ranges[k].1);
        frames_of_alike(
            &h.emission,
            h.implementation,
            FbMode::Score,
            &tr.subs[k],
            &tr.fbs[k].frameprob,
            &tr2.subs[k],
            &tr2.fbs[k].frameprob,
        );
        pass_of_alike(
            h.implementation,
            h.inference.start_view(),
            trans,
            &tr.fbs[k],
            trans2,
            &tr2.fbs[k],
            tr.subs[k].rows.len() as int,
            h.inference.states(),
        );
    }
}

/// Usable lengths leave no sequence of the split empty.
pub(crate) proof fn no_empty_range(lengths: Option<&[usize]>, n: int, ranges: Seq<(usize, usize)>)
    requires
        lengths_ok(lengths, n),
        is_split(lengths, n, ranges),
    ensures
        forall|k: int| 0 <= k < ranges.len() ==> (#[trigger] ranges[k]).0 < ranges[k].1,
{
    assert forall|k: int| 0 <= k < ranges.len() implies (#[trigger] ranges[k]).0 < ranges[k].1 by {
        assert(as_ints(ranges).len() == ranges.len());
        assert(as_ints(ranges)[k] == (ranges[k].0 as int, ranges[k].1 as int));
        match lengths {
            None => {},
            Some(ls) => {
                assert(as_ints(ranges)[k] == ranges_of(ls@)[k]);
                assert(ls@[k] >= 1);
            },
        }
    }
}

/// Scoring fixes one log-probability and one matrix of posteriors for given entries.
pub proof fn one_score<T: Dense, E: EmissionModel<T>>(
    h: &Hmm<T, E>,
    x: &Matrix<T>,
    y: &Matrix<T>,
    lengths: Option<&[usize]>,
    log_prob: T,
    posteriors: Seq<Seq<T>>,
    log_prob2: T,
    posteriors2: Seq<Seq<T>>,
)
    requires
        h.shaped(),
        x.ncols == y.ncols,
        x@ == y@,
        lengths_ok(lengths, x.rows.len() as int),
        is_score(h, x, lengths, log_prob, posteriors),
        is_score(h, y, lengths, log_prob2, posteriors2),
    ensures
        log_prob == log_prob2,
        posteriors == posteriors2,
{
    assert(x@.len() == x.rows.len());
    assert(y@.len() == y.rows.len());
    let (ranges, trans, tr) = choose|
        ranges: Seq<(usize, usize)>,
        trans: Matrix<T>,
        tr: Scoring<T>,
    |
        is_split(lengths, x.rows.len() as int, ranges) && #[trigger] scored_upto(
            h,
            x,
            ranges,
            &trans,
            tr,
            ranges.len() as int,
        ) && log_prob == tr.logs.last() && posteriors == stacked(tr.fbs, ranges.len() as int);
    let (ranges2, trans2, tr2) = choose|
        ranges: Seq<(usize, usize)>,
        trans: Matrix<T>,
        tr: Scoring<T>,
    |
        is_split(lengths, y.rows.len() as int, ranges) && #[trigger] scored_upto(
            h,
            y,
            ranges,
            &trans,
            tr,
            ranges.len() as int,
        ) && log_prob2 == tr.logs.last() && posteriors2 == stacked(tr.fbs, ranges.len() as int);
    one_split(lengths, x.rows.len() as int, ranges, ranges2);
    no_empty_range(lengths, x.rows.len() as int, ranges);
    let n = ranges.len() as int;
    scored_of_alike(h, x, &trans, tr, y, &trans2, tr2, ranges, n, n);
}

proof fn viterbi_of_alike<T: Scalar>(
    start: Seq<T>,
    trans: &Matrix<T>,
    frames: &Matrix<T>,
    trans2: &Matrix<T>,
    frames2: &Matrix<T>,
    t: int,
)
    requires
        same_chain(trans, frames, trans2, frames2),
        0 <= t < frames.rows.len(),
    ensures
        viterbi_row(start, trans, frames, t) == viterbi_row(start, trans2, frames2, t),
        viterbi_row(start, trans, frames, t).len() == frames.ncols,
    decreases t,
{
    if t > 0 {
        viterbi_of_alike(start, trans, frames, trans2, frames2, t - 1);
        let prev = viterbi_row(start, trans, frames, t - 1);
        let a = viterbi_row(start, trans, frames, t);
        let b = viterbi_row(start, trans2, frames2, t);
        assert forall|j: int| 0 <= j < frames.ncols implies #[trigger] a[j] == b[j] by {
            arrivals_of_alike(prev, trans, trans2, j);
            assert(frames.at(t, j) == frames2.at(t, j));
        }
        assert(a =~= b);
    } else {
        start_row_of_alike(start, frames, frames2);
    }
}

proof fn best_index<T: Scalar>(s: Seq<T>, n: int)
    requires
        1 <= n,
    ensures
        0 <= first_best(s, n) < n,
        0 <= last_best(s, n).1 < n,
    decreases n,
{
    if n > 1 {
        best_index(s, n - 1);
    } else {
        assert(first_best(s, 0) == 0);
        assert(last_best(s, 0).1 == 0);
    }
}

proof fn state_of_alike<T: Scalar>(
    start: Seq<T>,
    trans: &Matrix<T>,
    frames: &Matrix<T>,
    trans2: &Matrix<T>,
    frames2: &Matrix<T>,
    t: int,
)
    requires
        same_chain(trans, frames, trans2, frames2),
        0 <= t < frames.rows.len(),
        1 <= frames.ncols,
    ensures
        viterbi_state(start, trans, frames, t) == viterbi_state(start, trans2, frames2, t),
        0 <= viterbi_state(start, trans, frames, t) < frames.ncols,
    decreases frames.rows.len() - t,
{
    let nc = frames.ncols as int;
    let last = frames.rows.len() - 1;
    viterbi_of_alike(start, trans, frames, trans2, frames2, t);
    let row = viterbi_row(start, trans, frames, t);
    if t < last {
        state_of_alike(start, trans, frames, trans2, frames2, t + 1);
        let next = viterbi_state(start, trans, frames, t + 1);
        arrivals_of_alike(row, trans, trans2, next);
        best_index(log_arrivals(row, trans, next), nc);
    } else {
        best_index(row, nc);
    }
}

proof fn path_of_alike<T: Scalar>(
    start: Seq<T>,
    trans: &Matrix<T>,
    frames: &Matrix<T>,
    trans2: &Matrix<T>,
    frames2: &Matrix<T>,
    path: Seq<int>,
    t: int,
)
    requires
        same_chain(trans, frames, trans2, frames2),
        0 <= t < frames.rows.len(),
        forall|u: int| 0 <= u <= t ==> 0 <= #[trigger] path[u] < frames.ncols,
    ensures
        path_score(start, trans, frames, path, t) == path_score(start, trans2, frames2, path, t),
    decreases t,
{
    assert(0 <= path[t] < frames.ncols);
    assert(frames.at(t, path[t]) == frames2.at(t, path[t]));
    if t > 0 {
        path_of_alike(start, trans, frames, trans2, frames2, path, t - 1);
        assert(0 <= path[t - 1] < frames.ncols);
        assert(trans.at(path[t - 1], path[t]) == trans2.at(path[t - 1], path[t]));
    }
}

proof fn decoded_of_alike<T: Dense, E: EmissionModel<T>>(
    h: &Hmm<T, E>,
    x: &Matrix<T>,
    trans: &Matrix<T>,
    tr: Decoding<T>,
    y: &Matrix<T>,
    trans2: &Matrix<T>,
    tr2: Decoding<T>,
    ranges: Seq<(usize, usize)>,
    n: int,
    k: int,
)
    requires
        h.emission.states() == h.inference.states(),
        h.inference.states() >= 1,
        x.ncols == y.ncols,
        x@ == y@,
        decoded_upto(h, x, ranges, trans, tr, n),
        decoded_upto(h, y, ranges, trans2, tr2, n),
        forall|i: int| 0 <= i < n ==> (#[trigger] ranges[i]).0 < ranges[i].1,
        0 <= k <= n,
    ensures
        tr.logs[k] == tr2.logs[k],
        joined_paths(tr.paths, k) == joined_paths(tr2.paths, k),
    decreases k,
{
    if k > 0 {
        decoded_of_alike(h, x, trans, tr, y, trans2, tr2, ranges, n, k - 1);
        let i = k - 1;
        let start = h.inference.start_view();
        alike_by_view(trans, trans2);
        assert(decoded_at(h, x, ranges, trans, tr, i));
        assert(decoded_at(h, y, ranges, trans2, tr2, i));
        assert(ranges[i].0 < ranges[i].1);
        frames_of_alike(
            &h.emission,
            Implementation::Log,
            FbMode::Score,
            &tr.subs[i],
            &tr.frames[i],
            &tr2.subs[i],
            &tr2.frames[i],
        );
        let last = tr.subs[i].rows.len() - 1;
        viterbi_of_alike(start, trans, &tr.frames[i], trans2, &tr2.frames[i], last);
        assert forall|t: int| 0 <= t <= last implies #[trigger] tr.paths[i][t] == tr2.paths[i][t] by {
            state_of_alike(start, trans, &tr.frames[i], trans2, &tr2.frames[i], t);
            assert(tr2.paths[i][t] == viterbi_state(start, trans2, &tr2.frames[i], t));
        }
        state_of_alike(start, trans, &tr.frames[i], trans2, &tr2.frames[i], last);
        assert(tr.paths[i] =~= tr2.paths[i]);
    }
}

proof fn chosen_of_alike<T: Dense, E: EmissionModel<T>>(
    h: &Hmm<T, E>,
    x: &Matrix<T>,
    trans: &Matrix<T>,
    scored: Scoring<T>,
    tr: Decoding<T>,
    y: &Matrix<T>,
    trans2: &Matrix<T>,
    scored2: Scoring<T>,
    tr2: Decoding<T>,
    ranges: Seq<(usize, usize)>,
    n: int,
    k: int,
)
    requires
        h.emission.states() == h.inference.states(),
        h.inference.states() >= 1,
        x.ncols == y.ncols,
        x@ == y@,
        scored_upto(h, x, ranges, trans, scored, n),
        scored_upto(h, y, ranges, trans2, scored2, n),
        chosen_upto(h, trans, scored, tr, n),
        chosen_upto(h, trans2, scored2, tr2, n),
        forall|i: int| 0 <= i < n ==> (#[trigger] ranges[i]).0 < ranges[i].1,
        0 <= k <= n,
    ensures
        tr.logs[k] == tr2.logs[k],
        joined_paths(tr.paths, k) == joined_paths(tr2.paths, k),
    decreases k,
{
    if k > 0 {
        chosen_of_alike(h, x, trans, scored, tr, y, trans2, scored2, tr2, ranges, n, k - 1);
        let i = k - 1;
        let start = h.inference.start_view();
        let nc = h.inference.states();
        alike_by_view(trans, trans2);
        assert(scored_at(h, x, ranges, trans, scored, i));
        assert(scored_at(h, y, ranges, trans2, scored2, i));
        assert(chosen_at(h, trans, scored, tr, i));
        assert(chosen_at(h, trans2, scored2, tr2, i));
        assert(ranges[i].0 < ranges[i].1);
        scored_of_alike(h, x, trans, scored, y, trans2, scored2, ranges, n, i);
        frames_of_alike(
            &h.emission,
            Implementation::Log,
            FbMode::Score,
            &scored.subs[i],
            &tr.frames[i],
            &scored2.subs[i],
            &tr2.frames[i],
        );
        let last = scored.subs[i].rows.len() - 1;
        assert forall|t: int| 0 <= t <= last implies #[trigger] tr.paths[i][t] == tr2.paths[i][t]
            && tr.paths[i][t] < nc by {
            best_index(scored.fbs[i].posteriors@[t], nc);
            assert(tr2.paths[i][t] == first_best(scored2.fbs[i].posteriors@[t], nc));
        }
        assert(tr.paths[i] =~= tr2.paths[i]);
        let path = as_path(tr.paths[i]);
        assert forall|u: int| 0 <= u <= last implies 0 <= #[trigger] path[u] < nc by {
            assert(tr.paths[i][u] < nc);
        }
        path_of_alike(start, trans, &tr.frames[i], trans2, &tr2.frames[i], path, last);
    }
}

/// Decoding fixes one log-probability and one path for given entries, whatever the
/// algorithm.
pub proof fn one_decoding<T: Dense, E: EmissionModel<T>>(
    h: &Hmm<T, E>,
    x: &Matrix<T>,
    y: &Matrix<T>,
    lengths: Option<&[usize]>,
    a: DecoderAlgorithm,
    log_prob: T,
    states: Seq<usize>,
    log_prob2: T,
    states2: Seq<usize>,
)
    requires
        h.shaped(),
        x.ncols == y.ncols,
        x@ == y@,
        lengths_ok(lengths, x.rows.len() as int),
        is_decoding(h, x, lengths, a, log_prob, states),
        is_decoding(h, y, lengths, a, log_prob2, states2),
    ensures
        log_prob == log_prob2,
        states == states2,
{
    assert(x@.len() == x.rows.len());
    assert(y@.len() == y.rows.len());
    let rows = x.rows.len() as int;
    match a {
        DecoderAlgorithm::Viterbi => {
            let (ranges, trans, tr) = choose|
                ranges: Seq<(usize, usize)>,
                trans: Matrix<T>,
                tr: Decoding<T>,
            |
                is_split(lengths, x.rows.len() as int, ranges) && #[trigger] decoded_upto(
                    h,
                    x,
                    ranges,
                    &trans,
                    tr,
                    ranges.len() as int,
                ) && log_prob == tr.logs.last() && states == joined_paths(
                    tr.paths,
                    ranges.len() as int,
                );
            let (ranges2, trans2, tr2) = choose|
                ranges: Seq<(usize, usize)>,
                trans: Matrix<T>,
                tr: Decoding<T>,
            |
                is_split(lengths, y.rows.len() as int, ranges) && #[trigger] decoded_upto(
                    h,
                    y,
                    ranges,
                    &trans,
                    tr,
                    ranges.len() as int,
                ) && log_prob2 == tr.logs.last() && states2 == joined_paths(
                    tr.paths,
                    ranges.len() as int,
                );
            one_split(lengths, rows, ranges, ranges2);
            no_empty_range(lengths, rows, ranges);
            let n = ranges.len() as int;
            decoded_of_alike(h, x, &trans, tr, y, &trans2, tr2, ranges, n, n);
        },
        DecoderAlgorithm::Posterior => {
            let (ranges, trans, scored, tr) = choose|
                ranges: Seq<(usize, usize)>,
                trans: Matrix<T>,
                scored: Scoring<T>,
                tr: Decoding<T>,
            |
                is_split(lengths, x.rows.len() as int, ranges) && #[trigger] scored_upto(
                    h,
                    x,
                    ranges,
                    &trans,
                    scored,
                    ranges.len() as int,
                ) && #[trigger] chosen_upto(h, &trans, scored, tr, ranges.len() as int) && log_prob
                    == tr.logs.last() && states == joined_paths(tr.paths, ranges.len() as int);
            let (ranges2, trans2, scored2, tr2) = choose|
                ranges: Seq<(usize, usize)>,
                trans: Matrix<T>,
                scored: Scoring<T>,
                tr: Decoding<T>,
            |
                is_split(lengths, y.rows.len() as int, ranges) && #[trigger] scored_upto(
                    h,
                    y,
                    ranges,
                    &trans,
                    scored,
                    ranges.len() as int,
                ) && #[trigger] chosen_upto(h, &trans, scored, tr, ranges.len() as int) && log_prob2
                    == tr.logs.last() && states2 == joined_paths(tr.paths, ranges.len() as int);
            one_split(lengths, rows, ranges, ranges2);
            no_empty_range(lengths, rows, ranges);
            let n = ranges.len() as int;
            chosen_of_alike(
                h,
                x,
                &trans,
                scored,
                tr,
                y,
                &trans2,
                scored2,
                tr2,
                ranges,
                n,
                n,
            );
        },
    }
}

/// Scoring several sequences at once gives the sum of the log-probabilities, and one
/// under the other the posteriors, that scoring each of them in a call of its own
/// gives.
pub proof fn joined_score_is_sum_of_scores<T: Dense, E: EmissionModel<T>>(
    h: &Hmm<T, E>,
    x: &Matrix<T>,
    lengths: Option<&[usize]>,
    log_prob: T,
    posteriors: Seq<Seq<T>>,
    ranges: Seq<(usize, usize)>,
    subs: Seq<Matrix<T>>,
    logs: Seq<T>,
    parts: Seq<Seq<Seq<T>>>,
)
    requires
        zero_adds_nothing::<T>(),
        h.shaped(),
        lengths_ok(lengths, x.rows.len() as int),
        is_score(h, x, lengths, log_prob, posteriors),
        is_split(lengths, x.rows.len() as int, ranges),
        scored_apart(h, x, ranges, subs, logs, parts),
    ensures
        log_prob == sigma(ranges.len() as int, |k: int| logs[k]),
        posteriors == in_a_row(parts, ranges.len() as int),
{
    joined_score_is_single_scores(h, x, lengths, log_prob, posteriors);
    let (ranges2, subs2, logs2, parts2) = choose|
        ranges: Seq<(usize, usize)>,
        subs: Seq<Matrix<T>>,
        logs: Seq<T>,
        parts: Seq<Seq<Seq<T>>>,
    |
        is_split(lengths, x.rows.len() as int, ranges) && #[trigger] scored_apart(
            h,
            x,
            ranges,
            subs,
            logs,
            parts,
        ) && log_prob == sigma(ranges.len() as int, |k: int| logs[k]) && posteriors == in_a_row(
            parts,
            ranges.len() as int,
        );
    one_split(lengths, x.rows.len() as int, ranges, ranges2);
    no_empty_range(lengths, x.rows.len() as int, ranges);
    let n = ranges.len() as int;
    assert forall|k: int| 0 <= k < n implies #[trigger] logs[k] == logs2[k] && parts[k]
        == parts2[k] by {
        assert(is_slice(x, ranges[k].0 as int, ranges[k].1 as int, &subs[k]));
        assert(is_slice(x, ranges[k].0 as int, ranges[k].1 as int, &subs2[k]));
        assert(ranges[k].0 < ranges[k].1);
        one_score(h, &subs[k], &subs2[k], None, logs[k], parts[k], logs2[k], parts2[k]);
    }
    assert(logs =~= logs2);
    assert forall|k: int| 0 <= k < n implies #[trigger] parts[k] == parts2[k] by {
        assert(logs[k] == logs2[k]);
    }
    assert(parts =~= parts2);
}

/// Decoding several sequences at once gives the sum of the log-probabilities, and one
/// after the other the states, that decoding each of them in a call of its own gives.
pub proof fn joined_decoding_is_sum_of_decodings<T: Dense, E: EmissionModel<T>>(
    h: &Hmm<T, E>,
    x: &Matrix<T>,
    lengths: Option<&[usize]>,
    a: DecoderAlgorithm,
    log_prob: T,
    states: Seq<usize>,
    ranges: Seq<(usize, usize)>,
    subs: Seq<Matrix<T>>,
    logs: Seq<T>,
    paths: Seq<Seq<usize>>,
)
    requires
        zero_adds_nothing::<T>(),
        h.shaped(),
        lengths_ok(lengths, x.rows.len() as int),
        is_decoding(h, x, lengths, a, log_prob, states),
        is_split(lengths, x.rows.len() as int, ranges),
        decoded_apart(h, x, ranges, a, subs, logs, paths),
    ensures
        log_prob == sigma(ranges.len() as int, |k: int| logs[k]),
        states == in_a_row(paths, ranges.len() as int),
{
    joined_decoding_is_single_decodings(h, x, lengths, a, log_prob, states);
    let (ranges2, subs2, logs2, paths2) = choose|
        ranges: Seq<(usize, usize)>,
        subs: Seq<Matrix<T>>,
        logs: Seq<T>,
        paths: Seq<Seq<usize>>,
    |
        is_split(lengths, x.rows.len() as int, ranges) && #[trigger] decoded_apart(
            h,
            x,
            ranges,
            a,
            subs,
            logs,
            paths,
        ) && log_prob == sigma(ranges.len() as int, |k: int| logs[k]) && states == in_a_row(
            paths,
            ranges.len() as int,
        );
    one_split(lengths, x.rows.len() as int, ranges, ranges2);
    no_empty_range(lengths, x.rows.len() as int, ranges);
    let n = ranges.len() as int;
    assert forall|k: int| 0 <= k < n implies #[trigger] logs[k] == logs2[k] && paths[k]
        == paths2[k] by {
        assert(is_slice(x, ranges[k].0 as int, ranges[k].1 as int, &subs[k]));
        assert(is_slice(x, ranges[k].0 as int, ranges[k].1 as int, &subs2[k]));
        assert(ranges[k].0 < ranges[k].1);
        one_decoding(h, &subs[k], &subs2[k], None, a, logs[k], paths[k], logs2[k], paths2[k]);
    }
    assert(logs =~= logs2);
    assert forall|k: int| 0 <= k < n implies #[trigger] paths[k] == paths2[k] by {
        assert(logs[k] == logs2[k]);
    }
    assert(paths =~= paths2);
}

} // verus!
