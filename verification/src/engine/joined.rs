//! A call on several sequences is made of calls on each of them alone.

use crate::engine::algorithms::{first_best, viterbi_row, viterbi_state};
use crate::engine::emission::{is_slice, EmissionModel};
use crate::engine::fit::is_split;
use crate::engine::fitted::{
    as_path, chosen_at, chosen_upto, decoded_at, decoded_upto, is_decoding, is_posterior_decoding,
    is_score, is_viterbi_decoding, joined_paths, scored_at, scored_upto, stacked, Decoding,
    Scoring,
};
use crate::engine::hmm::{ForwardBackward, Hmm};
use crate::engine::inference::Inference;
use crate::engine::optimality::path_score;
use crate::engine::params::DecoderAlgorithm;
use crate::linalg::Dense;
use crate::matrix::Matrix;
use crate::scalar::{num, sigma, Scalar};
use crate::util::as_ints;
use vstd::prelude::*;

verus! {

/// Zero added to a number is that number.
pub open spec fn zero_adds_nothing<T: Scalar>() -> bool {
    forall|a: T| #[trigger] num::<T>(0).s_plus(a) == a
}

/// The first `n` pieces, one after the other.
pub open spec fn in_a_row<A>(pieces: Seq<Seq<A>>, n: int) -> Seq<A>
    decreases n,
{
    if n <= 0 {
        Seq::empty()
    } else {
        in_a_row(pieces, n - 1) + pieces[n - 1]
    }
}

/// Each sequence, scored alone, gives its log-probability and its posteriors.
pub open spec fn scored_apart<T: Dense, E: EmissionModel<T>>(
    h: &Hmm<T, E>,
    x: &Matrix<T>,
    ranges: Seq<(usize, usize)>,
    subs: Seq<Matrix<T>>,
    logs: Seq<T>,
    posteriors: Seq<Seq<Seq<T>>>,
) -> bool {
    &&& subs.len() == ranges.len()
    &&& logs.len() == ranges.len()
    &&& posteriors.len() == ranges.len()
    &&& forall|k: int|
        0 <= k < ranges.len() ==> is_slice(
            x,
            ranges[k].0 as int,
            ranges[k].1 as int,
            #[trigger] &subs[k],
        ) && is_score(h, &subs[k], None, logs[k], posteriors[k])
}

/// Each sequence, decoded alone, gives its log-probability and its states.
pub open spec fn decoded_apart<T: Dense, E: EmissionModel<T>>(
    h: &Hmm<T, E>,
    x: &Matrix<T>,
    ranges: Seq<(usize, usize)>,
    a: DecoderAlgorithm,
    subs: Seq<Matrix<T>>,
    logs: Seq<T>,
    paths: Seq<Seq<usize>>,
) -> bool {
    &&& subs.len() == ranges.len()
    &&& logs.len() == ranges.len()
    &&& paths.len() == ranges.len()
    &&& forall|k: int|
        0 <= k < ranges.len() ==> is_slice(
            x,
            ranges[k].0 as int,
            ranges[k].1 as int,
            #[trigger] &subs[k],
        ) && is_decoding(h, &subs[k], None, a, logs[k], paths[k])
}

/// The whole of a matrix is the split of it without lengths.
proof fn whole_is_a_split<T>(sub: &Matrix<T>)
    requires
        sub.wf(),
    ensures
        is_split(None, sub.rows.len() as int, seq![(0usize, sub.rows.len())]),
        is_slice(sub, 0, sub.rows.len() as int, sub),
{
    assert(as_ints(seq![(0usize, sub.rows.len())]) =~= seq![(0int, sub.rows.len() as int)]);
    assert(sub@.subrange(0, sub.rows.len() as int) =~= sub@);
}

/// A sequence of a scoring pass, scored alone.
proof fn scored_alone<T: Dense, E: EmissionModel<T>>(
    h: &Hmm<T, E>,
    x: &Matrix<T>,
    ranges: Seq<(usize, usize)>,
    trans: &Matrix<T>,
    tr: Scoring<T>,
    n: int,
    k: int,
)
    requires
        zero_adds_nothing::<T>(),
        scored_upto(h, x, ranges, trans, tr, n),
        0 <= k < n,
    ensures
        is_score(h, &tr.subs[k], None, tr.fbs[k].log_prob, tr.fbs[k].posteriors@),
{
    let sub = tr.subs[k];
    let fb = tr.fbs[k];
    assert(scored_at(h, x, ranges, trans, tr, k));
    whole_is_a_split(&sub);
    let whole = seq![(0usize, sub.rows.len())];
    let own = Scoring {
        subs: seq![sub],
        fbs: seq![fb],
        logs: seq![num::<T>(0), fb.log_prob],
    };
    assert(num::<T>(0).s_plus(fb.log_prob) == fb.log_prob);
    assert(scored_at(h, &sub, whole, trans, own, 0));
    assert(scored_upto(h, &sub, whole, trans, own, whole.len() as int));
    assert(stacked(own.fbs, 0) =~= Seq::<Seq<T>>::empty());
    assert(stacked(own.fbs, 1) =~= fb.posteriors@);
    assert(own.logs.last() == fb.log_prob);
}

proof fn logs_are_sums<T: Scalar>(logs: Seq<T>, parts: Seq<T>, n: int)
    requires
        0 <= n <= parts.len(),
        logs.len() > n,
        logs[0] == num::<T>(0),
        forall|i: int| 0 <= i < n ==> #[trigger] logs[i + 1] == logs[i].s_plus(parts[i]),
    ensures
        logs[n] == sigma(n, |i: int| parts[i]),
    decreases n,
{
    if n > 0 {
        logs_are_sums(logs, parts, n - 1);
        assert(logs[(n - 1) + 1] == logs[n - 1].s_plus(parts[n - 1]));
    }
}

proof fn stacked_in_a_row<T: Dense>(
    fbs: Seq<ForwardBackward<T>>,
    pieces: Seq<Seq<Seq<T>>>,
    n: int,
)
    requires
        0 <= n <= fbs.len(),
        pieces.len() == fbs.len(),
        forall|i: int| 0 <= i < n ==> #[trigger] pieces[i] == fbs[i].posteriors@,
    ensures
        in_a_row(pieces, n) == stacked(fbs, n),
    decreases n,
{
    if n > 0 {
        stacked_in_a_row(fbs, pieces, n - 1);
        assert(pieces[n - 1] == fbs[n - 1].posteriors@);
    }
}

/// Scoring several sequences at once is scoring each of them alone: the
/// log-probability is the sum of theirs, and the posteriors are theirs, one under
/// the other.
pub proof fn joined_score_is_single_scores<T: Dense, E: EmissionModel<T>>(
    h: &Hmm<T, E>,
    x: &Matrix<T>,
    lengths: Option<&[usize]>,
    log_prob: T,
    posteriors: Seq<Seq<T>>,
)
    requires
        zero_adds_nothing::<T>(),
        is_score(h, x, lengths, log_prob, posteriors),
    ensures
        exists|
            ranges: Seq<(usize, usize)>,
            subs: Seq<Matrix<T>>,
            logs: Seq<T>,
            parts: Seq<Seq<Seq<T>>>,
        |
            is_split(lengths, x.rows.len() as int, ranges) && #[trigger] scored_apart(
                h,
                x,
                ranges,
                subs,
                logs,
                parts,
            ) && log_prob == sigma(ranges.len() as int, |k: int| logs[k]) && posteriors == in_a_row(
                parts,
                ranges.len() as int,
            ),
{
    let (ranges, trans, tr) = choose|
        ranges: Seq<(usize, usize)>,
        trans: Matrix<T>,
        tr: Scoring<T>,
    |
        is_split(lengths, x.rows.len() as int, ranges) && #[trigger] scored_upto(
            h,
            x,
            ranges,
            &trans,
            tr,
            ranges.len() as int,
        ) && log_prob == tr.logs.last() && posteriors == stacked(tr.fbs, ranges.len() as int);
    let n = ranges.len() as int;
    let logs = Seq::new(n as nat, |k: int| tr.fbs[k].log_prob);
    let parts = Seq::new(n as nat, |k: int| tr.fbs[k].posteriors@);
    assert forall|k: int| 0 <= k < n implies is_slice(
        x,
        ranges[k].0 as int,
        ranges[k].1 as int,
        #[trigger] &tr.subs[k],
    ) && is_score(h, &tr.subs[k], None, logs[k], parts[k]) by {
        assert(scored_at(h, x, ranges, &trans, tr, k));
        scored_alone(h, x, ranges, &trans, tr, n, k);
    }
    assert forall|i: int| 0 <= i < n implies #[trigger] tr.logs[i + 1] == tr.logs[i].s_plus(
        logs[i],
    ) by {
        assert(scored_at(h, x, ranges, &trans, tr, i));
    }
    logs_are_sums(tr.logs, logs, n);
    stacked_in_a_row(tr.fbs, parts, n);
    assert(scored_apart(h, x, ranges, tr.subs, logs, parts));
}

/// A sequence of a Viterbi decoding, decoded alone.
proof fn decoded_alone<T: Dense, E: EmissionModel<T>>(
    h: &Hmm<T, E>,
    x: &Matrix<T>,
    ranges: Seq<(usize, usize)>,
    trans: &Matrix<T>,
    tr: Decoding<T>,
    n: int,
    k: int,
    log_prob: T,
)
    requires
        zero_adds_nothing::<T>(),
        decoded_upto(h, x, ranges, trans, tr, n),
        0 <= k < n,
        tr.logs[k + 1] == tr.logs[k].s_plus(log_prob),
        ({
            let start = h.inference.start_view();
            let last = tr.subs[k].rows.len() - 1;
            log_prob == viterbi_row(start, trans, &tr.frames[k], last)[viterbi_state(
                start,
                trans,
                &tr.frames[k],
                last,
            )]
        }),
    ensures
        is_viterbi_decoding(h, &tr.subs[k], None, log_prob, tr.paths[k]),
{
    let sub = tr.subs[k];
    assert(decoded_at(h, x, ranges, trans, tr, k));
    whole_is_a_split(&sub);
    let whole = seq![(0usize, sub.rows.len())];
    let own = Decoding {
        subs: seq![sub],
        frames: seq![tr.frames[k]],
        paths: seq![tr.paths[k]],
        logs: seq![num::<T>(0), log_prob],
    };
    assert(num::<T>(0).s_plus(log_prob) == log_prob);
    assert(decoded_at(h, &sub, whole, trans, own, 0));
    assert(decoded_upto(h, &sub, whole, trans, own, whole.len() as int));
    assert(joined_paths(own.paths, 0) =~= Seq::<usize>::empty());
    assert(joined_paths(own.paths, 1) =~= tr.paths[k]);
    assert(own.logs.last() == log_prob);
}

proof fn paths_in_a_row(paths: Seq<Seq<usize>>, n: int)
    ensures
        in_a_row(paths, n) == joined_paths(paths, n),
    decreases n,
{
    if n > 0 {
        paths_in_a_row(paths, n - 1);
    }
}

/// A sequence of a posterior decoding, decoded alone.
proof fn chosen_alone<T: Dense, E: EmissionModel<T>>(
    h: &Hmm<T, E>,
    x: &Matrix<T>,
    ranges: Seq<(usize, usize)>,
    trans: &Matrix<T>,
    scored: Scoring<T>,
    tr: Decoding<T>,
    n: int,
    k: int,
    log_prob: T,
)
    requires
        zero_adds_nothing::<T>(),
        scored_upto(h, x, ranges, trans, scored, n),
        chosen_upto(h, trans, scored, tr, n),
        0 <= k < n,
        log_prob == path_score(
            h.inference.start_view(),
            trans,
            &tr.frames[k],
            as_path(tr.paths[k]),
            scored.subs[k].rows.len() - 1,
        ),
    ensures
        is_posterior_decoding(h, &scored.subs[k], None, log_prob, tr.paths[k]),
{
    let sub = scored.subs[k];
    let fb = scored.fbs[k];
    assert(scored_at(h, x, ranges, trans, scored, k));
    assert(chosen_at(h, trans, scored, tr, k));
    whole_is_a_split(&sub);
    let whole = seq![(0usize, sub.rows.len())];
    let own_score = Scoring {
        subs: seq![sub],
        fbs: seq![fb],
        logs: seq![num::<T>(0), fb.log_prob],
    };
    let own = Decoding {
        subs: seq![sub],
        frames: seq![tr.frames[k]],
        paths: seq![tr.paths[k]],
        logs: seq![num::<T>(0), log_prob],
    };
    assert(num::<T>(0).s_plus(fb.log_prob) == fb.log_prob);
    assert(num::<T>(0).s_plus(log_prob) == log_prob);
    assert(scored_at(h, &sub, whole, trans, own_score, 0));
    assert(scored_upto(h, &sub, whole, trans, own_score, whole.len() as int));
    assert forall|t: int| 0 <= t < own.paths[0].len() implies #[trigger] own.paths[0][t]
        == first_best(own_score.fbs[0].posteriors@[t], h.inference.states()) by {
        assert(tr.paths[k][t] == first_best(fb.posteriors@[t], h.inference.states()));
    }
    assert(chosen_at(h, trans, own_score, own, 0));
    assert(chosen_upto(h, trans, own_score, own, whole.len() as int));
    assert(joined_paths(own.paths, 0) =~= Seq::<usize>::empty());
    assert(joined_paths(own.paths, 1) =~= tr.paths[k]);
    assert(own.logs.last() == log_prob);
}

/// Decoding several sequences at once is decoding each of them alone, whatever the
/// algorithm: the log-probability is the sum of theirs, and the states are theirs,
/// one after the other.
pub proof fn joined_decoding_is_single_decodings<T: Dense, E: EmissionModel<T>>(
    h: &Hmm<T, E>,
    x: &Matrix<T>,
    lengths: Option<&[usize]>,
    a: DecoderAlgorithm,
    log_prob: T,
    states: Seq<usize>,
)
    requires
        zero_adds_nothing::<T>(),
        is_decoding(h, x, lengths, a, log_prob, states),
    ensures
        exists|
            ranges: Seq<(usize, usize)>,
            subs: Seq<Matrix<T>>,
            logs: Seq<T>,
            paths: Seq<Seq<usize>>,
        |
            is_split(lengths, x.rows.len() as int, ranges) && #[trigger] decoded_apart(
                h,
                x,
                ranges,
                a,
                subs,
                logs,
                paths,
            ) && log_prob == sigma(ranges.len() as int, |k: int| logs[k]) && states == in_a_row(
                paths,
                ranges.len() as int,
            ),
{
    let start = h.inference.start_view();
    match a {
        DecoderAlgorithm::Viterbi => {
            let (ranges, trans, tr) = choose|
                ranges: Seq<(usize, usize)>,
                trans: Matrix<T>,
                tr: Decoding<T>,
            |
                is_split(lengths, x.rows.len() as int, ranges) && #[trigger] decoded_upto(
                    h,
                    x,
                    ranges,
                    &trans,
                    tr,
                    ranges.len() as int,
                ) && log_prob == tr.logs.last() && states == joined_paths(
                    tr.paths,
                    ranges.len() as int,
                );
            let n = ranges.len() as int;
            let logs = Seq::new(
                n as nat,
                |k: int|
                    {
                        let last = tr.subs[k].rows.len() - 1;
                        viterbi_row(start, &trans, &tr.frames[k], last)[viterbi_state(
                            start,
                            &trans,
                            &tr.frames[k],
                            last,
                        )]
                    },
            );
            assert forall|k: int| 0 <= k < n implies is_slice(
                x,
                ranges[k].0 as int,
                ranges[k].1 as int,
                #[trigger] &tr.subs[k],
            ) && is_decoding(h, &tr.subs[k], None, a, logs[k], tr.paths[k]) by {
                assert(decoded_at(h, x, ranges, &trans, tr, k));
                decoded_alone(h, x, ranges, &trans, tr, n, k, logs[k]);
            }
            assert forall|i: int| 0 <= i < n implies #[trigger] tr.logs[i + 1] == tr.logs[i].s_plus(
                logs[i],
            ) by {
                assert(decoded_at(h, x, ranges, &trans, tr, i));
            }
            logs_are_sums(tr.logs, logs, n);
            paths_in_a_row(tr.paths, n);
            assert(decoded_apart(h, x, ranges, a, tr.subs, logs, tr.paths));
        },
        DecoderAlgorithm::Posterior => {
            let (ranges, trans, scored, tr) = choose|
                ranges: Seq<(usize, usize)>,
                trans: Matrix<T>,
                scored: Scoring<T>,
                tr: Decoding<T>,
            |
                is_split(lengths, x.rows.len() as int, ranges) && #[trigger] scored_upto(
                    h,
                    x,
                    ranges,
                    &trans,
                    scored,
                    ranges.len() as int,
                ) && #[trigger] chosen_upto(h, &trans, scored, tr, ranges.len() as int) && log_prob
                    == tr.logs.last() && states == joined_paths(tr.paths, ranges.len() as int);
            let n = ranges.len() as int;
            let logs = Seq::new(
                n as nat,
                |k: int|
                    path_score(
                        start,
                        &trans,
                        &tr.frames[k],
                        as_path(tr.paths[k]),
                        scored.subs[k].rows.len() - 1,
                    ),
            );
            assert forall|k: int| 0 <= k < n implies is_slice(
                x,
                ranges[k].0 as int,
                ranges[k].1 as int,
                #[trigger] &scored.subs[k],
            ) && is_decoding(h, &scored.subs[k], None, a, logs[k], tr.paths[k]) by {
                assert(scored_at(h, x, ranges, &trans, scored, k));
                chosen_alone(h, x, ranges, &trans, scored, tr, n, k, logs[k]);
            }
            assert forall|i: int| 0 <= i < n implies #[trigger] tr.logs[i + 1] == tr.logs[i].s_plus(
                logs[i],
            ) by {
                assert(chosen_at(h, &trans, scored, tr, i));
            }
            logs_are_sums(tr.logs, logs, n);
            paths_in_a_row(tr.paths, n);
            assert(decoded_apart(h, x, ranges, a, scored.subs, logs, tr.paths));
        },
    }
}

} // verus!
