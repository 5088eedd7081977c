//! The objectives that a fit records never fall, where arithmetic is exact.

use crate::engine::agreement::{chain_in, exact_logs, exp_of, likelihood, log_added, log_constants};
use crate::engine::ascent::frames_gain;
use crate::engine::emission::{is_slice, EmissionModel};
use crate::engine::expected::exact_ln_1p;
use crate::engine::fit::{
    estep_at, fit_reaches, fit_result, initialized, is_run, is_split, iterates, iteration, prepared, EStep,
};
use crate::engine::fitted::{is_log_likelihood, is_score, scored_at, scored_upto, Fitted, Scoring};
use crate::engine::history::{
    likelihood_of_alike, logs_in_order, not_below, pass_scores_the_likelihood, summed_logs_read,
};
use crate::engine::hmm::{frames_of, FbMode, Hmm};
use crate::engine::inference::{Em, Inference};
use crate::engine::params::Implementation;
use crate::engine::raising::{
    exact_sequences, exact_update, flat_chain, flat_updates, frames_in, frames_match,
    iteration_never_lowers_the_likelihood, reads, row_of, sums_to_one, trellises_of,
};
use crate::engine::unique::{alike, alike_by_view, one_split};
use crate::exact::{constants, exact_numbers, multiplied};
use crate::linalg::Dense;
use crate::matrix::Matrix;
use crate::reals::{is_ln, rsum, rsum_ext};
use crate::scalar::{lanes_ext, num, Scalar};
use vstd::prelude::*;

verus! {

/// Numbers that are added, multiplied and divided exactly, their logarithms, and
/// their readings as reals.
pub open spec fn exact_reading<T: Scalar>(
    p: Set<T>,
    l: Set<T>,
    val: spec_fn(T) -> real,
    ln: spec_fn(real) -> real,
) -> bool {
    &&& exact_numbers(p)
    &&& exact_logs(p, l)
    &&& exact_ln_1p(p, l)
    &&& reads(p, val)
    &&& flat_updates(p)
    &&& is_ln(ln)
    &&& logs_in_order(l, val)
}

/// The frames of the sequences under an emission.
pub open spec fn framed<T, E>(
    framing: spec_fn(E, int) -> Matrix<T>,
    emission: E,
    count: int,
) -> Seq<Matrix<T>> {
    Seq::new(count as nat, |s: int| framing(emission, s))
}

/// `framing` gives the likelihoods that passes over the sequences work with, and the
/// emissions of `sound` add nothing to the objective.
pub open spec fn frames_sequences<T: Dense, E: EmissionModel<T, Inference = Em<T>>>(
    l: Set<T>,
    implementation: Implementation,
    x: &Matrix<T>,
    ranges: Seq<(usize, usize)>,
    framing: spec_fn(E, int) -> Matrix<T>,
    sound: spec_fn(E) -> bool,
) -> bool {
    &&& forall|e: E, mode: FbMode, sub: Matrix<T>, own: Matrix<T>, s: int|
        #![trigger frames_of(&e, implementation, mode, &sub, &own), framing(e, s)]
        0 <= s < ranges.len() && sound(e) && is_slice(
            x,
            ranges[s].0 as int,
            ranges[s].1 as int,
            &sub,
        ) && frames_of(&e, implementation, mode, &sub, &own) ==> frames_match(
            implementation,
            l,
            &own,
            &framing(e, s),
        ) && own.dims() == framing(e, s).dims()
    &&& forall|e: E| #[trigger] sound(e) ==> e.contribution() == Some(num::<T>(0))
    &&& forall|e: E, mid: E| sound(e) && #[trigger] e.begin_rel(&mid) ==> mid == e
}

/// The new frames are numbers, are positive wherever mass went, and raise the
/// expected log-likelihood of the frames.
pub open spec fn emission_gains<T: Dense>(
    p: Set<T>,
    val: spec_fn(T) -> real,
    ln: spec_fn(real) -> real,
    start: Seq<T>,
    trans: &Matrix<T>,
    frames: Seq<Matrix<T>>,
    after: &Em<T>,
    new_frames: Seq<Matrix<T>>,
    count: int,
) -> bool {
    &&& forall|s: int|
        0 <= s < count ==> frames_in(p, #[trigger] &new_frames[s]) && new_frames[s].dims()
            == frames[s].dims()
    &&& forall|s: int, t: int, j: int|
        0 <= s < count && 0 <= t < frames[s].rows.len() && 0 <= j < frames[s].ncols && 0real
            < #[trigger] trellises_of(val, start, trans, frames)(s).at(t, j) ==> 0real < val(
            new_frames[s].at(t, j),
        )
    &&& 0real <= rsum(
        count,
        |s: int|
            frames_gain(
                ln,
                trellises_of(val, start, trans, frames)(s),
                trellises_of(val, after.start_prob@, &after.trans_mat, new_frames)(s),
            ),
    )
}

/// Every update of a sound emission to one of `viable` is sound, and does not lower
/// the expected log-likelihood of the frames.
pub open spec fn updates_gain<T: Dense, E: EmissionModel<T, Inference = Em<T>>>(
    p: Set<T>,
    l: Set<T>,
    val: spec_fn(T) -> real,
    ln: spec_fn(real) -> real,
    x: &Matrix<T>,
    ranges: Seq<(usize, usize)>,
    framing: spec_fn(E, int) -> Matrix<T>,
    sound: spec_fn(E) -> bool,
    viable: spec_fn(E) -> bool,
) -> bool {
    let count = ranges.len() as int;
    forall|h: Hmm<T, E>, trans: Matrix<T>, tr: EStep<T, E>, after: Em<T>, after_emission: E|
        #![trigger exact_update(p, l, &h, x, ranges, &trans, tr, framed(framing, h.emission, count), &after), h.emission.mstep_rel(&tr.stats.last(), h.params, &after_emission)]
        sound(h.emission) && exact_update(
            p,
            l,
            &h,
            x,
            ranges,
            &trans,
            tr,
            framed(framing, h.emission, count),
            &after,
        ) && h.emission.mstep_rel(&tr.stats.last(), h.params, &after_emission) && viable(
            after_emission,
        ) ==> sound(after_emission) && emission_gains(
            p,
            val,
            ln,
            h.inference.start_prob@,
            &trans,
            framed(framing, h.emission, count),
            &after,
            framed(framing, after_emission, count),
            count,
        )
}

/// A model with a sound emission, whose chain is exact and gives every sequence a
/// probability.
pub open spec fn model_sound<T: Dense, E: EmissionModel<T, Inference = Em<T>>>(
    p: Set<T>,
    h: &Hmm<T, E>,
    framing: spec_fn(E, int) -> Matrix<T>,
    sound: spec_fn(E) -> bool,
    count: int,
) -> bool {
    sound(h.emission) && flat_chain(p, &h.inference, framed(framing, h.emission, count), count)
}

/// The log-likelihood of the sequences under a model.
pub open spec fn score_of<T: Dense, E: EmissionModel<T, Inference = Em<T>>>(
    val: spec_fn(T) -> real,
    ln: spec_fn(real) -> real,
    h: &Hmm<T, E>,
    framing: spec_fn(E, int) -> Matrix<T>,
    count: int,
) -> real {
    rsum(
        count,
        |s: int|
            ln(val(likelihood(h.inference.start_prob@, &h.inference.trans_mat, &framing(h.emission, s)))),
    )
}

/// `u` is a logarithm that reads as `score`.
pub open spec fn logs_to<T: Scalar>(
    l: Set<T>,
    val: spec_fn(T) -> real,
    ln: spec_fn(real) -> real,
    u: T,
    score: real,
) -> bool {
    &&& l.contains(u)
    &&& 0real < val(u.s_exp())
    &&& ln(val(u.s_exp())) == score
}

/// Passes over all sequences, summed up, read as the log-likelihood.
proof fn passes_log_to<T: Dense, E: EmissionModel<T, Inference = Em<T>>>(
    p: Set<T>,
    l: Set<T>,
    val: spec_fn(T) -> real,
    ln: spec_fn(real) -> real,
    h: &Hmm<T, E>,
    framing: spec_fn(E, int) -> Matrix<T>,
    sound: spec_fn(E) -> bool,
    count: int,
    trans: &Matrix<T>,
    tr: Scoring<T>,
)
    requires
        exact_reading(p, l, val, ln),
        model_sound(p, h, framing, sound, count),
        trans@ == h.inference.trans_mat@,
        trans.has_dims(h.inference.n_components as int, h.inference.n_components as int),
        0 <= count,
        tr.logs.len() == count + 1,
        tr.logs[0] == num::<T>(0),
        forall|s: int|
            0 <= s < count ==> frames_match(
                h.implementation,
                l,
                #[trigger] &tr.fbs[s].frameprob,
                &framing(h.emission, s),
            ) && tr.fbs[s].frameprob.dims() == framing(h.emission, s).dims()
                && tr.fbs[s].is_pass(h.implementation, h.inference.start_prob@, trans)
                && tr.logs[s + 1] == tr.logs[s].s_plus(tr.fbs[s].log_prob),
    ensures
        logs_to(l, val, ln, tr.logs[count], score_of(val, ln, h, framing, count)),
        forall|s: int|
            0 <= s < count ==> chain_in(
                p,
                h.inference.start_prob@,
                trans,
                #[trigger] &framing(h.emission, s),
            ) && likelihood(h.inference.start_prob@, trans, &framing(h.emission, s)) == likelihood(
                h.inference.start_prob@,
                &h.inference.trans_mat,
                &framing(h.emission, s),
            ),
{
    let start = h.inference.start_prob@;
    let own = &h.inference.trans_mat;
    let frames = framed(framing, h.emission, count);
    let part = |s: int| tr.fbs[s].log_prob;
    let whole = |s: int| likelihood(start, own, &framing(h.emission, s));
    alike_by_view(trans, own);
    assert forall|s: int| 0 <= s < count implies chain_in(
        p,
        start,
        trans,
        #[trigger] &framing(h.emission, s),
    ) && likelihood(start, trans, &framing(h.emission, s)) == whole(s) by {
        assert(framing(h.emission, s) == frames[s]);
        assert(chain_in(p, start, own, &frames[s]));
        assert forall|i: int, j: int|
            0 <= i < frames[s].ncols && 0 <= j < frames[s].ncols implies p.contains(
            #[trigger] trans.at(i, j),
        ) by {
            assert(trans.at(i, j) == own.at(i, j));
        }
        likelihood_of_alike(start, trans, own, &frames[s]);
    }
    assert forall|s: int| 0 <= s < count implies l.contains(#[trigger] part(s)) && tr.logs[s + 1]
        == tr.logs[s].s_plus(part(s)) && part(s).s_exp() == whole(s) && whole(s) != num::<T>(0) by {
        let fb = &tr.fbs[s];
        assert(framing(h.emission, s) == frames[s]);
        assert(frames_match(h.implementation, l, &fb.frameprob, &framing(h.emission, s)));
        assert(chain_in(p, start, own, &frames[s]));
        assert(chain_in(p, start, trans, &framing(h.emission, s)));
        pass_scores_the_likelihood(p, l, h.implementation, start, trans, &frames[s], fb);
    }
    summed_logs_read(p, l, val, ln, tr.logs, part, whole, count);
    rsum_ext(
        count,
        |s: int| ln(val(whole(s))),
        |s: int| ln(val(likelihood(start, own, &framing(h.emission, s)))),
    );
}

/// Rows that hold the same entries sum to 1 together.
proof fn rows_of_alike<T: Scalar>(a: &Matrix<T>, b: &Matrix<T>, n: int, i: int)
    requires
        alike(a, b),
        a.has_dims(n, n),
        0 <= i < n,
        sums_to_one(n, row_of(b, i)),
    ensures
        sums_to_one(n, row_of(a, i)),
{
    let (f, g) = (row_of(a, i), row_of(b, i));
    assert forall|j: int| 0 <= j < n implies #[trigger] f(j) == g(j) by {
        assert(a.at(i, j) == b.at(i, j));
    }
    lanes_ext(n, f, g);
    assert forall|j: int|
        (forall|k: int| 0 <= k < n ==> #[trigger] g(k) == num::<T>(0)) && 0 <= j < n implies #[trigger] f(
        j,
    ) == num::<T>(0) by {
        assert(f(j) == g(j));
    }
}

/// An iteration from a sound model leads to a sound model, whose log-likelihood is
/// no smaller, and records the log-likelihood before the update.
pub proof fn iteration_rises<T: Dense, E: EmissionModel<T, Inference = Em<T>>>(
    p: Set<T>,
    l: Set<T>,
    val: spec_fn(T) -> real,
    ln: spec_fn(real) -> real,
    pre: &Hmm<T, E>,
    x: &Matrix<T>,
    ranges: Seq<(usize, usize)>,
    post: &Hmm<T, E>,
    framing: spec_fn(E, int) -> Matrix<T>,
    sound: spec_fn(E) -> bool,
    viable: spec_fn(E) -> bool,
) -> (objective: T)
    requires
        exact_reading(p, l, val, ln),
        ranges.len() >= 1,
        frames_sequences(l, pre.implementation, x, ranges, framing, sound),
        updates_gain(p, l, val, ln, x, ranges, framing, sound, viable),
        viable(post.emission),
        model_sound(p, pre, framing, sound, ranges.len() as int),
        iterates(pre, x, ranges, post),
    ensures
        model_sound(p, post, framing, sound, ranges.len() as int),
        post.implementation == pre.implementation,
        score_of(val, ln, pre, framing, ranges.len() as int) <= score_of(
            val,
            ln,
            post,
            framing,
            ranges.len() as int,
        ),
        post.monitor.history@ == pre.monitor.history@.push(objective),
        logs_to(l, val, ln, objective, score_of(val, ln, pre, framing, ranges.len() as int)),
{
    let count = ranges.len() as int;
    let (mid, trans, tr, contribution) = choose|
        mid: Hmm<T, E>,
        trans: Matrix<T>,
        tr: EStep<T, E>,
        contribution: T,
    | #[trigger] iteration(pre, x, ranges, &mid, &trans, tr, contribution, post);
    let start = pre.inference.start_prob@;
    let nc = pre.inference.n_components as int;
    let frames = framed(framing, pre.emission, count);
    let new_frames = framed(framing, post.emission, count);
    assert(mid.emission == pre.emission);
    assert(mid.inference == pre.inference);
    assert(contribution == num::<T>(0));
    let scoring = Scoring { subs: tr.subs, fbs: tr.fbs, logs: tr.logs };
    assert forall|s: int| 0 <= s < count implies frames_match(
        pre.implementation,
        l,
        #[trigger] &tr.fbs[s].frameprob,
        &framing(pre.emission, s),
    ) && tr.fbs[s].frameprob.dims() == framing(pre.emission, s).dims() && tr.fbs[s].is_pass(
        pre.implementation,
        start,
        &trans,
    ) && tr.logs[s + 1] == tr.logs[s].s_plus(tr.fbs[s].log_prob) by {
        assert(estep_at(&mid, x, ranges, start, &trans, tr, s));
        let own = tr.fbs[s].frameprob;
        let sub = tr.subs[s];
        assert(frames_of(&pre.emission, pre.implementation, FbMode::Fit, &sub, &own));
    }
    passes_log_to(p, l, val, ln, pre, framing, sound, count, &trans, scoring);
    assert(exact_sequences(p, l, mid.implementation, start, &trans, tr, frames, count)) by {
        assert forall|s: int| 0 <= s < count implies chain_in(
            p,
            start,
            &trans,
            #[trigger] &frames[s],
        ) && frames_match(mid.implementation, l, &tr.fbs[s].frameprob, &frames[s])
            && tr.fbs[s].frameprob.dims() == frames[s].dims() && likelihood(
            start,
            &trans,
            &frames[s],
        ) != num::<T>(0) by {
            assert(frames[s] == framing(pre.emission, s));
            assert(chain_in(p, start, &trans, &framing(pre.emission, s)));
            assert(frames_match(
                pre.implementation,
                l,
                &tr.fbs[s].frameprob,
                &framing(pre.emission, s),
            ));
            assert(chain_in(p, start, &pre.inference.trans_mat, &frames[s]));
        }
    }
    alike_by_view(&trans, &pre.inference.trans_mat);
    assert forall|i: int| 0 <= i < nc implies sums_to_one(nc, #[trigger] row_of(&trans, i)) by {
        assert(sums_to_one(nc, row_of(&pre.inference.trans_mat, i)));
        rows_of_alike(&trans, &pre.inference.trans_mat, nc, i);
    }
    let after = post.inference;
    assert(exact_update(
        p,
        l,
        &mid,
        x,
        ranges,
        &trans,
        tr,
        framed(framing, mid.emission, count),
        &after,
    ));
    assert(mid.emission.mstep_rel(&tr.stats.last(), mid.params, &post.emission));
    assert(emission_gains(p, val, ln, start, &trans, frames, &after, new_frames, count));
    iteration_never_lowers_the_likelihood(
        p,
        l,
        val,
        ln,
        &mid,
        x,
        ranges,
        &trans,
        tr,
        frames,
        &after,
        new_frames,
    );
    let f = |s: int| ln(val(likelihood(mid.inference.start_prob@, &trans, &frames[s])));
    let f2 = |s: int|
        ln(val(likelihood(start, &pre.inference.trans_mat, &framing(pre.emission, s))));
    assert forall|s: int| 0 <= s < count implies #[trigger] f(s) == f2(s) by {
        assert(frames[s] == framing(pre.emission, s));
        assert(chain_in(p, start, &trans, &framing(pre.emission, s)));
    }
    rsum_ext(count, f, f2);
    let g = |s: int| ln(val(likelihood(after.start_prob@, &after.trans_mat, &new_frames[s])));
    let g2 = |s: int|
        ln(val(likelihood(after.start_prob@, &after.trans_mat, &framing(post.emission, s))));
    assert forall|s: int| 0 <= s < count implies #[trigger] g(s) == g2(s) by {
        assert(new_frames[s] == framing(post.emission, s));
    }
    rsum_ext(count, g, g2);
    let u = tr.logs.last();
    let objective = contribution.s_plus(mid.inference.bound(u));
    log_constants(p, l);
    constants(p);
    log_added(p, l, num(0), u);
    exp_of(p, l, u);
    multiplied(p, num::<T>(1), u.s_exp());
    multiplied(p, u.s_exp(), num::<T>(1));
    objective
}

/// Along a run of viable models from a sound one every model is sound, no model has a smaller
/// log-likelihood than the one before it, and the history of each holds the
/// log-likelihoods of those before it.
pub proof fn run_rises<T: Dense, E: EmissionModel<T, Inference = Em<T>>>(
    p: Set<T>,
    l: Set<T>,
    val: spec_fn(T) -> real,
    ln: spec_fn(real) -> real,
    states: Seq<Hmm<T, E>>,
    x: &Matrix<T>,
    ranges: Seq<(usize, usize)>,
    framing: spec_fn(E, int) -> Matrix<T>,
    sound: spec_fn(E) -> bool,
    viable: spec_fn(E) -> bool,
    i: int,
)
    requires
        exact_reading(p, l, val, ln),
        ranges.len() >= 1,
        is_run(states, x, ranges),
        frames_sequences(l, states[0].implementation, x, ranges, framing, sound),
        updates_gain(p, l, val, ln, x, ranges, framing, sound, viable),
        forall|k: int| 0 <= k < states.len() ==> viable((#[trigger] states[k]).emission),
        model_sound(p, &states[0], framing, sound, ranges.len() as int),
        states[0].monitor.history@ == Seq::<T>::empty(),
        0 <= i < states.len(),
    ensures
        model_sound(p, &states[i], framing, sound, ranges.len() as int),
        states[i].implementation == states[0].implementation,
        states[i].monitor.history@.len() == i,
        forall|k: int|
            0 <= k < i ==> logs_to(
                l,
                val,
                ln,
                #[trigger] states[i].monitor.history@[k],
                score_of(val, ln, &states[k], framing, ranges.len() as int),
            ),
        forall|k: int|
            0 <= k < i ==> #[trigger] score_of(val, ln, &states[k], framing, ranges.len() as int)
                <= score_of(val, ln, &states[k + 1], framing, ranges.len() as int),
    decreases i,
{
    if i > 0 {
        run_rises(p, l, val, ln, states, x, ranges, framing, sound, viable, i - 1);
        assert(iterates(&states[i - 1], x, ranges, &states[i - 1 + 1]));
        let objective = iteration_rises(
            p,
            l,
            val,
            ln,
            &states[i - 1],
            x,
            ranges,
            &states[i],
            framing,
            sound,
            viable,
        );
        assert forall|k: int| 0 <= k < i implies logs_to(
            l,
            val,
            ln,
            #[trigger] states[i].monitor.history@[k],
            score_of(val, ln, &states[k], framing, ranges.len() as int),
        ) by {
            if k < i - 1 {
                assert(states[i].monitor.history@[k] == states[i - 1].monitor.history@[k]);
            }
        }
    }
}

/// A score of the sequences under a sound model reads as their log-likelihood.
proof fn score_logs_to<T: Dense, E: EmissionModel<T, Inference = Em<T>>>(
    p: Set<T>,
    l: Set<T>,
    val: spec_fn(T) -> real,
    ln: spec_fn(real) -> real,
    h: &Hmm<T, E>,
    x: &Matrix<T>,
    lengths: Option<&[usize]>,
    ranges: Seq<(usize, usize)>,
    framing: spec_fn(E, int) -> Matrix<T>,
    sound: spec_fn(E) -> bool,
    score: T,
)
    requires
        exact_reading(p, l, val, ln),
        is_split(lengths, x.rows.len() as int, ranges),
        frames_sequences(l, h.implementation, x, ranges, framing, sound),
        model_sound(p, h, framing, sound, ranges.len() as int),
        is_log_likelihood(h, x, lengths, score),
    ensures
        logs_to(l, val, ln, score, score_of(val, ln, h, framing, ranges.len() as int)),
{
    let count = ranges.len() as int;
    let posteriors = choose|posteriors: Seq<Seq<T>>| #[trigger]
        is_score(h, x, lengths, score, posteriors);
    let (own, trans, tr) = choose|own: Seq<(usize, usize)>, trans: Matrix<T>, tr: Scoring<T>|
        is_split(lengths, x.rows.len() as int, own) && #[trigger] scored_upto(
            h,
            x,
            own,
            &trans,
            tr,
            own.len() as int,
        ) && score == tr.logs.last();
    one_split(lengths, x.rows.len() as int, own, ranges);
    assert forall|s: int| 0 <= s < count implies frames_match(
        h.implementation,
        l,
        #[trigger] &tr.fbs[s].frameprob,
        &framing(h.emission, s),
    ) && tr.fbs[s].frameprob.dims() == framing(h.emission, s).dims() && tr.fbs[s].is_pass(
        h.implementation,
        h.inference.start_prob@,
        &trans,
    ) && tr.logs[s + 1] == tr.logs[s].s_plus(tr.fbs[s].log_prob) by {
        assert(scored_at(h, x, ranges, &trans, tr, s));
        let mine = tr.fbs[s].frameprob;
        let sub = tr.subs[s];
        assert(frames_of(&h.emission, h.implementation, FbMode::Score, &sub, &mine));
    }
    passes_log_to(p, l, val, ln, h, framing, sound, count, &trans, tr);
}

/// The history of a fit never falls, and a score of the fitted model on the
/// observations that it was fitted to is not below the last entry: where arithmetic
/// is exact, every model that the fit can start from is sound, every model that it
/// can reach is viable, and updates of sound emissions to viable ones gain.
pub proof fn history_never_falls<T: Dense, E: EmissionModel<T, Inference = Em<T>>>(
    p: Set<T>,
    l: Set<T>,
    val: spec_fn(T) -> real,
    ln: spec_fn(real) -> real,
    pre: &Hmm<T, E>,
    x: &Matrix<T>,
    lengths: Option<&[usize]>,
    fitted: Fitted<T, E>,
    ranges: Seq<(usize, usize)>,
    framing: spec_fn(E, int) -> Matrix<T>,
    sound: spec_fn(E) -> bool,
    viable: spec_fn(E) -> bool,
)
    requires
        exact_reading(p, l, val, ln),
        fit_result(pre, x, lengths, Ok(fitted)),
        is_split(lengths, x.rows.len() as int, ranges),
        ranges.len() >= 1,
        frames_sequences(l, pre.implementation, x, ranges, framing, sound),
        updates_gain(p, l, val, ln, x, ranges, framing, sound, viable),
        forall|states: Seq<Hmm<T, E>>, k: int|
            #[trigger] fit_reaches(pre, x, ranges, states) && 0 <= k < states.len() ==> viable(
                (#[trigger] states[k]).emission,
            ),
        forall|first: Hmm<T, E>| #[trigger]
            prepared(pre, x, ranges.len() as int, &first) ==> model_sound(
                p,
                &first,
                framing,
                sound,
                ranges.len() as int,
            ),
    ensures
        forall|k: int|
            0 <= k < fitted.0.monitor.history@.len() - 1 ==> !fitted.0.monitor.history@[k
                + 1].s_below(#[trigger] fitted.0.monitor.history@[k]),
        forall|score: T|
            fitted.0.monitor.history@.len() >= 1 && #[trigger] is_log_likelihood(
                &fitted.0,
                x,
                lengths,
                score,
            ) ==> !score.s_below(fitted.0.monitor.history@.last()),
{
    let count = ranges.len() as int;
    let (own, states) = choose|own: Seq<(usize, usize)>, states: Seq<Hmm<T, E>>|
        is_split(lengths, x.rows.len() as int, own) && #[trigger] fit_reaches(pre, x, own, states)
            && states.last() == fitted.0;
    one_split(lengths, x.rows.len() as int, own, ranges);
    let last = states.len() - 1;
    let history = fitted.0.monitor.history@;
    let first = states[0];
    assert(prepared(pre, x, count, &first));
    let looked = choose|looked: E| #[trigger] initialized(pre, x, count, &looked, &first);
    assert(initialized(pre, x, count, &looked, &first));
    assert forall|k: int| 0 <= k < states.len() implies viable((#[trigger] states[k]).emission) by {
        assert(fit_reaches(pre, x, ranges, states));
    }
    run_rises(p, l, val, ln, states, x, ranges, framing, sound, viable, last);
    assert forall|k: int| 0 <= k < history.len() - 1 implies !history[k + 1].s_below(
        #[trigger] history[k],
    ) by {
        assert(states[last].monitor.history@[k] == history[k]);
        assert(states[last].monitor.history@[k + 1] == history[k + 1]);
        assert(score_of(val, ln, &states[k], framing, count) <= score_of(
            val,
            ln,
            &states[k + 1],
            framing,
            count,
        ));
        not_below(l, val, ln, history[k], history[k + 1]);
    }
    assert forall|score: T|
        history.len() >= 1 && #[trigger] is_log_likelihood(&fitted.0, x, lengths, score) implies !score.s_below(
        history.last(),
    ) by {
        score_logs_to(
            p,
            l,
            val,
            ln,
            &fitted.0,
            x,
            lengths,
            ranges,
            framing,
            sound,
            score,
        );
        assert(states[last].monitor.history@[last - 1] == history.last());
        assert(score_of(val, ln, &states[last - 1], framing, count) <= score_of(
            val,
            ln,
            &states[last - 1 + 1],
            framing,
            count,
        ));
        not_below(l, val, ln, history.last(), score);
    }
}

} // verus!
