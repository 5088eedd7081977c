//! What holds of a whole fit, and of what a fitted model returns.

use crate::engine::emission::EmissionModel;
use crate::engine::fit::{
    begun, fit_reaches, fit_result, is_run, is_split, iterates, iteration, prepared, EStep,
};
use crate::engine::fitted::{
    chosen_at, chosen_upto, decoded_at, decoded_upto, is_decoding, is_score,
    joined_paths, scored_at, scored_upto, stacked, Decoding, Fitted, Scoring,
};
use crate::engine::hmm::Hmm;
use crate::engine::inference::{
    mstep_keeps_forbidden_start, mstep_keeps_forbidden_transitions, zero_stays_zero, Em, Inference,
};
use crate::engine::params::{DecoderAlgorithm, Param};
use crate::linalg::Dense;
use crate::matrix::Matrix;
use crate::scalar::num;
use crate::util::{as_ints, ranges_of};
use vstd::prelude::*;

verus! {

/// After `k` iterations of a run the monitor has counted `k` and holds as many
/// values.
proof fn history_of_a_run<T: Dense, E: EmissionModel<T>>(
    states: Seq<Hmm<T, E>>,
    x: &Matrix<T>,
    ranges: Seq<(usize, usize)>,
    k: int,
)
    requires
        is_run(states, x, ranges),
        states[0].monitor.iter == 0,
        states[0].monitor.history@.len() == 0,
        0 <= k < states.len(),
    ensures
        states[k].monitor.iter == k,
        states[k].monitor.history@.len() == k,
    decreases k,
{
    if k > 0 {
        history_of_a_run(states, x, ranges, k - 1);
        assert(iterates(&states[k - 1], x, ranges, &states[k - 1 + 1]));
        let (mid, trans, tr, c) = choose|
            mid: Hmm<T, E>,
            trans: Matrix<T>,
            tr: EStep<T, E>,
            c: T,
        | #[trigger]
            iteration(&states[k - 1], x, ranges, &mid, &trans, tr, c, &states[k - 1 + 1]);
        assert(begun(&states[k - 1], &mid));
    }
}

/// A fitted model's monitor holds one value for every iteration it counted, has
/// counted no more iterations than the cap, and stopped at the cap or at
/// convergence.
pub proof fn fit_records_every_iteration<T: Dense, E: EmissionModel<T>>(
    pre: &Hmm<T, E>,
    x: &Matrix<T>,
    lengths: Option<&[usize]>,
    f: Fitted<T, E>,
)
    requires
        fit_result(pre, x, lengths, Ok(f)),
    ensures
        f.0.monitor.iter == f.0.monitor.history@.len(),
        f.0.monitor.iter <= pre.n_iter,
        f.0.monitor.iter == pre.n_iter || f.0.has_converged(),
{
    let (ranges, states) = choose|ranges: Seq<(usize, usize)>, states: Seq<Hmm<T, E>>|
        is_split(lengths, x.rows.len() as int, ranges) && #[trigger] fit_reaches(
            pre,
            x,
            ranges,
            states,
        ) && states.last() == f.0;
    assert(prepared(pre, x, ranges.len() as int, &states[0]));
    history_of_a_run(states, x, ranges, states.len() - 1);
}

/// A zero of the transition matrix, and one of the start distribution, is there
/// after every iteration of a run.
proof fn zeros_of_a_run<T: Dense, E: EmissionModel<T, Inference = Em<T>>>(
    states: Seq<Hmm<T, E>>,
    x: &Matrix<T>,
    ranges: Seq<(usize, usize)>,
    i: int,
    j: int,
    k: int,
)
    requires
        is_run(states, x, ranges),
        zero_stays_zero::<T>(),
        0 <= k < states.len(),
        0 <= i < states[0].inference.states(),
        0 <= j < states[0].inference.states(),
        states[0].inference.shaped(),
    ensures
        states[k].inference.shaped(),
        states[k].inference.states() == states[0].inference.states(),
        states[0].inference.trans_mat.at(i, j) == num::<T>(0) ==> states[k].inference.trans_mat.at(
            i,
            j,
        ) == num::<T>(0),
        states[0].inference.start_prob@[i] == num::<T>(0) ==> states[k].inference.start_prob@[i]
            == num::<T>(0),
    decreases k,
{
    if k > 0 {
        zeros_of_a_run(states, x, ranges, i, j, k - 1);
        assert(iterates(&states[k - 1], x, ranges, &states[k - 1 + 1]));
        let (mid, trans, tr, c) = choose|
            mid: Hmm<T, E>,
            trans: Matrix<T>,
            tr: EStep<T, E>,
            c: T,
        | #[trigger]
            iteration(&states[k - 1], x, ranges, &mid, &trans, tr, c, &states[k - 1 + 1]);
        assert(begun(&states[k - 1], &mid));
        let core = tr.cores.last();
        if mid.inference.trans_mat.at(i, j) == num::<T>(0) {
            mstep_keeps_forbidden_transitions(
                &mid.inference,
                &core,
                mid.params,
                &states[k].inference,
                i,
                j,
            );
        }
        if mid.inference.start_prob@[i] == num::<T>(0) {
            mstep_keeps_forbidden_start(&mid.inference, &core, mid.params, &states[k].inference, i);
        }
    }
}

/// Fitting keeps structural zeros: a preset transition or start probability that
/// is zero, and that initialisation leaves alone, is zero in the fitted model.
pub proof fn fit_keeps_forbidden_transitions<T: Dense, E: EmissionModel<T, Inference = Em<T>>>(
    pre: &Hmm<T, E>,
    x: &Matrix<T>,
    lengths: Option<&[usize]>,
    f: Fitted<T, E>,
    i: int,
    j: int,
)
    requires
        pre.wf(),
        fit_result(pre, x, lengths, Ok(f)),
        zero_stays_zero::<T>(),
        0 <= i < pre.inference.n_components,
        0 <= j < pre.inference.n_components,
    ensures
        pre.inference.trans_preset && !pre.init_params.members().contains(Param::Trans)
            && pre.inference.trans_mat.at(i, j) == num::<T>(0) ==> f.0.inference.trans_mat.at(i, j)
            == num::<T>(0),
        pre.inference.start_preset && !pre.init_params.members().contains(Param::Start)
            && pre.inference.start_prob@[i] == num::<T>(0) ==> f.0.inference.start_prob@[i]
            == num::<T>(0),
{
    let (ranges, states) = choose|ranges: Seq<(usize, usize)>, states: Seq<Hmm<T, E>>|
        is_split(lengths, x.rows.len() as int, ranges) && #[trigger] fit_reaches(
            pre,
            x,
            ranges,
            states,
        ) && states.last() == f.0;
    assert(prepared(pre, x, ranges.len() as int, &states[0]));
    zeros_of_a_run(states, x, ranges, i, j, states.len() - 1);
}

/// Each range of a split begins where the one before it ended, and the last ends
/// at the last row.
proof fn split_is_contiguous(lengths: Option<&[usize]>, n: int, ranges: Seq<(usize, usize)>, k: int)
    requires
        is_split(lengths, n, ranges),
        0 <= k < ranges.len(),
    ensures
        k == 0 ==> ranges[0].0 == 0,
        k > 0 ==> ranges[k].0 == ranges[k - 1].1,
        k == ranges.len() - 1 ==> ranges[k].1 == n,
{
    let pairs = as_ints(ranges);
    assert(pairs.len() == ranges.len());
    assert(pairs[k] == (ranges[k].0 as int, ranges[k].1 as int));
    if k > 0 {
        assert(pairs[k - 1] == (ranges[k - 1].0 as int, ranges[k - 1].1 as int));
    }
    match lengths {
        None => {
            assert(pairs.len() == 1);
        },
        Some(ls) => {
            assert(pairs.len() == ls@.len());
            assert(pairs[k] == ranges_of(ls@)[k]);
            if k > 0 {
                assert(pairs[k - 1] == ranges_of(ls@)[k - 1]);
            }
        },
    }
}

/// The first `k` decoded paths cover the rows up to the end of range `k - 1`.
proof fn paths_cover<T: Dense, E: EmissionModel<T>>(
    h: &Hmm<T, E>,
    x: &Matrix<T>,
    lengths: Option<&[usize]>,
    ranges: Seq<(usize, usize)>,
    trans: &Matrix<T>,
    tr: Decoding<T>,
    k: int,
)
    requires
        is_split(lengths, x.rows.len() as int, ranges),
        decoded_upto(h, x, ranges, trans, tr, ranges.len() as int),
        0 <= k <= ranges.len(),
    ensures
        joined_paths(tr.paths, k).len() == if k == 0 {
            0
        } else {
            ranges[k - 1].1 as int
        },
    decreases k,
{
    if k > 0 {
        paths_cover(h, x, lengths, ranges, trans, tr, k - 1);
        split_is_contiguous(lengths, x.rows.len() as int, ranges, k - 1);
        assert(decoded_at(h, x, ranges, trans, tr, k - 1));
    }
}

/// The first `k` chosen paths cover the rows up to the end of range `k - 1`.
proof fn choices_cover<T: Dense, E: EmissionModel<T>>(
    h: &Hmm<T, E>,
    x: &Matrix<T>,
    lengths: Option<&[usize]>,
    ranges: Seq<(usize, usize)>,
    trans: &Matrix<T>,
    scored: Scoring<T>,
    tr: Decoding<T>,
    k: int,
)
    requires
        is_split(lengths, x.rows.len() as int, ranges),
        scored_upto(h, x, ranges, trans, scored, ranges.len() as int),
        chosen_upto(h, trans, scored, tr, ranges.len() as int),
        0 <= k <= ranges.len(),
    ensures
        joined_paths(tr.paths, k).len() == if k == 0 {
            0
        } else {
            ranges[k - 1].1 as int
        },
    decreases k,
{
    if k > 0 {
        choices_cover(h, x, lengths, ranges, trans, scored, tr, k - 1);
        split_is_contiguous(lengths, x.rows.len() as int, ranges, k - 1);
        assert(scored_at(h, x, ranges, trans, scored, k - 1));
        assert(chosen_at(h, trans, scored, tr, k - 1));
    }
}

/// The posteriors of the first `k` sequences cover the rows up to the end of range
/// `k - 1`.
proof fn posteriors_cover<T: Dense, E: EmissionModel<T>>(
    h: &Hmm<T, E>,
    x: &Matrix<T>,
    lengths: Option<&[usize]>,
    ranges: Seq<(usize, usize)>,
    trans: &Matrix<T>,
    tr: Scoring<T>,
    k: int,
)
    requires
        is_split(lengths, x.rows.len() as int, ranges),
        scored_upto(h, x, ranges, trans, tr, ranges.len() as int),
        0 <= k <= ranges.len(),
    ensures
        stacked(tr.fbs, k).len() == if k == 0 {
            0
        } else {
            ranges[k - 1].1 as int
        },
    decreases k,
{
    if k > 0 {
        posteriors_cover(h, x, lengths, ranges, trans, tr, k - 1);
        split_is_contiguous(lengths, x.rows.len() as int, ranges, k - 1);
        assert(scored_at(h, x, ranges, trans, tr, k - 1));
    }
}

/// There is a posterior row for every observation.
pub proof fn score_covers_every_row<T: Dense, E: EmissionModel<T>>(
    h: &Hmm<T, E>,
    x: &Matrix<T>,
    lengths: Option<&[usize]>,
    log_prob: T,
    posteriors: Seq<Seq<T>>,
)
    requires
        is_score(h, x, lengths, log_prob, posteriors),
    ensures
        posteriors.len() == x.rows.len(),
{
    let (ranges, trans, tr) = choose|
        ranges: Seq<(usize, usize)>,
        trans: Matrix<T>,
        tr: Scoring<T>,
    |
        is_split(lengths, x.rows.len() as int, ranges) && #[trigger] scored_upto(
            h,
            x,
            ranges,
            &trans,
            tr,
            ranges.len() as int,
        ) && log_prob == tr.logs.last() && posteriors == stacked(tr.fbs, ranges.len() as int);
    let k = ranges.len() as int;
    posteriors_cover(h, x, lengths, ranges, &trans, tr, k);
    if k > 0 {
        split_is_contiguous(lengths, x.rows.len() as int, ranges, k - 1);
    } else {
        no_ranges_no_rows(lengths, x.rows.len() as int, ranges);
    }
}

proof fn no_ranges_no_rows(lengths: Option<&[usize]>, n: int, ranges: Seq<(usize, usize)>)
    requires
        is_split(lengths, n, ranges),
        ranges.len() == 0,
    ensures
        n == 0,
{
    assert(as_ints(ranges).len() == 0);
}

/// There is a decoded state for every observation, whatever the algorithm.
pub proof fn decoding_covers_every_row<T: Dense, E: EmissionModel<T>>(
    h: &Hmm<T, E>,
    x: &Matrix<T>,
    lengths: Option<&[usize]>,
    a: DecoderAlgorithm,
    log_prob: T,
    states: Seq<usize>,
)
    requires
        is_decoding(h, x, lengths, a, log_prob, states),
    ensures
        states.len() == x.rows.len(),
{
    match a {
        DecoderAlgorithm::Viterbi => {
            let (ranges, trans, tr) = choose|
                ranges: Seq<(usize, usize)>,
                trans: Matrix<T>,
                tr: Decoding<T>,
            |
                is_split(lengths, x.rows.len() as int, ranges) && #[trigger] decoded_upto(
                    h,
                    x,
                    ranges,
                    &trans,
                    tr,
                    ranges.len() as int,
                ) && log_prob == tr.logs.last() && states == joined_paths(
                    tr.paths,
                    ranges.len() as int,
                );
            let k = ranges.len() as int;
            paths_cover(h, x, lengths, ranges, &trans, tr, k);
            if k > 0 {
                split_is_contiguous(lengths, x.rows.len() as int, ranges, k - 1);
            } else {
                no_ranges_no_rows(lengths, x.rows.len() as int, ranges);
            }
        },
        DecoderAlgorithm::Posterior => {
            let (ranges, trans, scored, tr) = choose|
                ranges: Seq<(usize, usize)>,
                trans: Matrix<T>,
                scored: Scoring<T>,
                tr: Decoding<T>,
            |
                is_split(lengths, x.rows.len() as int, ranges) && #[trigger] scored_upto(
                    h,
                    x,
                    ranges,
                    &trans,
                    scored,
                    ranges.len() as int,
                ) && #[trigger] chosen_upto(h, &trans, scored, tr, ranges.len() as int) && log_prob
                    == tr.logs.last() && states == joined_paths(tr.paths, ranges.len() as int);
            let k = ranges.len() as int;
            choices_cover(h, x, lengths, ranges, &trans, scored, tr, k);
            if k > 0 {
                split_is_contiguous(lengths, x.rows.len() as int, ranges, k - 1);
            } else {
                no_ranges_no_rows(lengths, x.rows.len() as int, ranges);
            }
        },
    }
}

} // verus!
