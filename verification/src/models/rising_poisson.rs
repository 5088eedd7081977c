//! Expectation-maximisation never lowers the likelihood of a Poisson model, where
//! arithmetic is exact.

use crate::engine::agreement::{chain_in, exact_logs, exp_of};
use crate::engine::ascent::frames_gain;
use crate::engine::counts::{
    all_visits, all_weighed, counts_gain, linear_in_counts, state_gain, visits, weighed,
    weighed_facts, weighed_somewhere,
};
use crate::engine::emission::is_slice;
use crate::engine::fit::{
    estep_at, estep_upto, fit_reaches, fit_result, initialized, is_split, prepared, EStep,
};
use crate::engine::fitted::{is_log_likelihood, Fitted};
use crate::engine::hmm::{frame_value, frames_of, FbMode, Hmm};
use crate::engine::expected::cancelled;
use crate::engine::inference::{Em, Inference};
use crate::engine::params::{Implementation, Param};
use crate::engine::powers::{
    exact_powers, log_difference_reads, log_gamma_reads, log_sigma_reads, log_value,
    numbers_are_logs, power_reads, reads_log,
};
use crate::engine::raising::{
    exact_sequences, exact_update, flat_chain, flat_updates, frames_in, frames_match,
    read_constants, read_product, read_sigma, read_sign, read_sum, reads, trellises_of,
    trellises_wf,
};
use crate::engine::rising::{
    emission_gains, exact_reading, framed, frames_sequences, history_never_falls, model_sound,
    updates_gain,
};
use crate::engine::scaled::exact_quotients;
use crate::engine::EmissionModel;
use crate::exact::{added, constants, exact_numbers, lanes_are_sum, multiplied};
use crate::linalg::Dense;
use crate::matrix::{col_total, Matrix};
use crate::models::poisson::{updated_rate, PoissonEm};
use crate::models::weighing::{counts_among, counts_of, slice_among, weighed_reads};
use crate::reals::{is_ln, rsum, rsum_ext, rsum_member};
use crate::scalar::{num, sigma, total, Scalar};
use vstd::prelude::*;

verus! {

/// Rates over exact numbers, none of them zero.
pub open spec fn positive_rates<T: Dense>(p: Set<T>, e: &PoissonEm<T>) -> bool {
    &&& e.fits()
    &&& forall|j: int, f: int|
        0 <= j < e.n_components && 0 <= f < e.width() ==> p.contains(
            #[trigger] e.lambdas->0.at(j, f),
        ) && e.lambdas->0.at(j, f) != num::<T>(0)
}

/// Positive rates under a flat prior.
pub open spec fn flat_rates<T: Dense>(p: Set<T>, e: &PoissonEm<T>) -> bool {
    &&& positive_rates(p, e)
    &&& e.lambdas_prior == num::<T>(0)
    &&& e.lambdas_weight == num::<T>(0)
}

/// `frames` holds the likelihoods of the rows of `sub` in each state.
pub open spec fn likelihoods_of<T: Dense>(
    e: &PoissonEm<T>,
    sub: &Matrix<T>,
    frames: &Matrix<T>,
) -> bool {
    &&& frames.has_dims(sub.rows.len() as int, e.n_components as int)
    &&& forall|t: int, j: int|
        0 <= t < sub.rows.len() && 0 <= j < e.n_components ==> #[trigger] frames.at(t, j)
            == e.log_prob_at(sub, t, j).s_exp()
}

/// What one count adds to the log-probability of a row.
spec fn count_value<T: Scalar>(
    val: spec_fn(T) -> real,
    ln: spec_fn(real) -> real,
    e: &PoissonEm<T>,
    x: &Matrix<T>,
    t: int,
    c: int,
) -> spec_fn(int) -> real {
    |f: int|
        val(x.at(t, f)) * ln(val(e.lambdas->0.at(c, f))) - val(e.lambdas->0.at(c, f)) - log_value(
            val,
            ln,
            x.at(t, f).s_plus(num(1)).s_ln_gamma(),
        )
}

/// The log-probability of a row, read, is linear in the counts.
proof fn row_log_reads<T: Dense>(
    p: Set<T>,
    l: Set<T>,
    val: spec_fn(T) -> real,
    ln: spec_fn(real) -> real,
    e: &PoissonEm<T>,
    x: &Matrix<T>,
    t: int,
    c: int,
)
    requires
        exact_reading(p, l, val, ln),
        exact_powers(p, l, val, ln),
        numbers_are_logs(p, l, val, ln),
        positive_rates(p, e),
        x.ncols == e.width(),
        counts_among(p, x),
        0 <= t < x.rows.len(),
        0 <= c < e.n_components,
    ensures
        reads_log(
            l,
            val,
            ln,
            e.log_prob_at(x, t, c),
            rsum(e.width(), count_value(val, ln, e, x, t, c)),
        ),
{
    let m = e.width();
    let rates = &e.lambdas->0;
    let zero = num::<T>(0);
    let terms = |f: int|
        x.at(t, f).s_times(rates.at(c, f).s_ln()).s_minus(rates.at(c, f)).s_minus(
            x.at(t, f).s_plus(num(1)).s_ln_gamma(),
        );
    let values = count_value(val, ln, e, x, t, c);
    assert forall|f: int| 0 <= f < m implies reads_log(
        l,
        val,
        ln,
        #[trigger] terms(f),
        values(f),
    ) by {
        let (a, b) = (x.at(t, f), rates.at(c, f));
        assert(p.contains(a));
        assert(p.contains(b));
        power_reads(p, l, val, ln, a, b);
        reveal(numbers_are_logs);
        assert(reads_log(l, val, ln, b, val(b)));
        log_gamma_reads(p, l, val, ln, a);
        log_difference_reads(p, l, val, ln, a.s_times(b.s_ln()), b);
        log_difference_reads(
            p,
            l,
            val,
            ln,
            a.s_times(b.s_ln()).s_minus(b),
            a.s_plus(num(1)).s_ln_gamma(),
        );
    }
    assert forall|f: int| 0 <= f < m implies l.contains(#[trigger] terms(f)) && terms(f).s_exp()
        != zero && log_value(val, ln, terms(f)) == values(f) by {
        assert(reads_log(l, val, ln, terms(f), values(f)));
    }
    log_sigma_reads(p, l, val, ln, m, terms, values);
    assert(e.log_prob_at(x, t, c) == sigma(m, terms));
}

/// The statistics after `k` sequences, read, are the expected
/// totals and numbers of frames.
proof fn totals_read<T: Dense>(
    p: Set<T>,
    l: Set<T>,
    val: spec_fn(T) -> real,
    h: &Hmm<T, PoissonEm<T>>,
    x: &Matrix<T>,
    ranges: Seq<(usize, usize)>,
    start: Seq<T>,
    trans: &Matrix<T>,
    tr: EStep<T, PoissonEm<T>>,
    frames: Seq<Matrix<T>>,
    count: int,
    k: int,
    j: int,
    f: int,
)
    requires
        exact_numbers(p),
        exact_logs(p, l),
        exact_quotients(p),
        reads(p, val),
        trans.has_dims(h.inference.states(), h.inference.states()),
        h.params.members().contains(Param::Lambdas),
        estep_upto(h, x, ranges, start, trans, tr, count),
        exact_sequences(p, l, h.implementation, start, trans, tr, frames, count),
        forall|s: int|
            0 <= s < count ==> counts_among(p, #[trigger] &tr.subs[s]) && tr.subs[s].ncols
                == h.emission.width() && frames[s].has_dims(
                tr.subs[s].rows.len() as int,
                h.emission.n_components as int,
            ),
        h.emission.n_components == h.inference.n_components,
        0 <= k <= count,
        0 <= j < h.emission.n_components,
        0 <= f < h.emission.width(),
    ensures
        tr.stats[k].obs.has_dims(h.emission.n_components as int, h.emission.width()),
        p.contains(tr.stats[k].obs.at(j, f)),
        val(tr.stats[k].obs.at(j, f)) == all_weighed(
            k,
            trellises_of(val, start, trans, frames),
            counts_of(val, tr.subs),
            j,
            f,
        ),
        tr.stats[k].post.len() == h.emission.n_components,
        p.contains(tr.stats[k].post@[j]),
        val(tr.stats[k].post@[j]) == all_visits(k, trellises_of(val, start, trans, frames), j),
    decreases k,
{
    let old = trellises_of(val, start, trans, frames);
    let counts = counts_of(val, tr.subs);
    let part = |s: int| weighed(old(s), counts(s), j, f);
    let stay = |s: int| visits(old(s), j);
    constants(p);
    read_constants(p, val);
    if k > 0 {
        totals_read(p, l, val, h, x, ranges, start, trans, tr, frames, count, k - 1, j, f);
        assert(estep_at(h, x, ranges, start, trans, tr, k - 1));
        let fb = tr.fbs[k - 1];
        let sub = &tr.subs[k - 1];
        assert(counts_among(p, &tr.subs[k - 1]));
        assert(chain_in(p, start, trans, &frames[k - 1]));
        weighed_reads(
            p,
            l,
            val,
            h.implementation,
            start,
            trans,
            &frames[k - 1],
            &fb,
            sub,
            j,
            f,
        );
        let before = tr.stats[k - 1].obs.at(j, f);
        let more = sigma(
            sub.rows.len() as int,
            |t: int| fb.posteriors.at(t, j).s_times(sub.at(t, f)),
        );
        assert(tr.stats[k].obs.at(j, f) == before.s_plus(more));
        added(p, before, more);
        read_sum(p, val, before, more);
        assert(rsum(k, part) == rsum(k - 1, part) + part(k - 1));
        let (stayed, longer) = (tr.stats[k - 1].post@[j], col_total(&fb.posteriors, j));
        assert(tr.stats[k].post@[j] == stayed.s_plus(longer));
        added(p, stayed, longer);
        read_sum(p, val, stayed, longer);
        assert(rsum(k, stay) == rsum(k - 1, stay) + stay(k - 1));
    } else {
        assert(tr.stats[0].obs.at(j, f) == num::<T>(0));
        assert(tr.stats[0].post@[j] == num::<T>(0));
    }
}

/// An E-step and the M-step after it, over exact numbers: `frames` are the row
/// likelihoods that the E-step worked with, and `new_frames` those after the M-step.
pub open spec fn exact_counting<T: Dense>(
    p: Set<T>,
    l: Set<T>,
    h: &Hmm<T, PoissonEm<T>>,
    x: &Matrix<T>,
    ranges: Seq<(usize, usize)>,
    trans: &Matrix<T>,
    tr: EStep<T, PoissonEm<T>>,
    frames: Seq<Matrix<T>>,
    after: &Em<T>,
    after_emission: &PoissonEm<T>,
    new_frames: Seq<Matrix<T>>,
) -> bool {
    &&& exact_update(p, l, h, x, ranges, trans, tr, frames, after)
    &&& flat_rates(p, &h.emission)
    &&& positive_rates(p, after_emission)
    &&& h.emission.n_components == h.inference.n_components
    &&& h.emission.mstep_rel(&tr.stats.last(), h.params, after_emission)
    &&& forall|s: int|
        0 <= s < ranges.len() ==> counts_among(p, #[trigger] &tr.subs[s]) && tr.subs[s].ncols
            == h.emission.width()
    &&& forall|s: int|
        0 <= s < ranges.len() ==> likelihoods_of(&h.emission, &tr.subs[s], #[trigger] &frames[s])
    &&& forall|s: int|
        0 <= s < ranges.len() ==> likelihoods_of(
            after_emission,
            &tr.subs[s],
            #[trigger] &new_frames[s],
        )
}

/// The trellises of the E-step have a mass, and counts are not negative.
proof fn counting_facts<T: Dense>(
    p: Set<T>,
    l: Set<T>,
    val: spec_fn(T) -> real,
    h: &Hmm<T, PoissonEm<T>>,
    x: &Matrix<T>,
    ranges: Seq<(usize, usize)>,
    trans: &Matrix<T>,
    tr: EStep<T, PoissonEm<T>>,
    frames: Seq<Matrix<T>>,
    after: &Em<T>,
    after_emission: &PoissonEm<T>,
    new_frames: Seq<Matrix<T>>,
    f: int,
)
    requires
        exact_numbers(p),
        reads(p, val),
        exact_counting(p, l, h, x, ranges, trans, tr, frames, after, after_emission, new_frames),
        0 <= f < h.emission.width(),
    ensures
        ({
            let old = trellises_of(val, h.inference.start_prob@, trans, frames);
            let counts = counts_of(val, tr.subs);
            &&& forall|s: int|
                0 <= s < ranges.len() ==> (#[trigger] old(s)).nc == h.emission.n_components
                    && old(s).wf() && 0real < old(s).mass() && old(s).n == tr.subs[s].rows.len()
            &&& forall|s: int, t: int|
                0 <= s < ranges.len() && 0 <= t < old(s).n ==> 0real <= #[trigger] counts(s)(t, f)
        }),
{
    let old = trellises_of(val, h.inference.start_prob@, trans, frames);
    let counts = counts_of(val, tr.subs);
    trellises_wf(p, l, val, h, x, ranges, trans, tr, frames, after);
    assert forall|s: int| 0 <= s < ranges.len() implies (#[trigger] old(s)).nc
        == h.emission.n_components && old(s).wf() && 0real < old(s).mass() && old(s).n
        == tr.subs[s].rows.len() by {
        assert(likelihoods_of(&h.emission, &tr.subs[s], &frames[s]));
    }
    assert forall|s: int, t: int| 0 <= s < ranges.len() && 0 <= t < old(s).n implies 0real
        <= #[trigger] counts(s)(t, f) by {
        assert(old(s).nc == h.emission.n_components);
        assert(counts_among(p, &tr.subs[s]));
        assert(p.contains(tr.subs[s].at(t, f)));
        read_sign(p, val, tr.subs[s].at(t, f));
    }
}

/// A new rate, read, times the expected number of frames is the expected total.
proof fn rate_reads<T: Dense>(
    p: Set<T>,
    val: spec_fn(T) -> real,
    n: T,
    obs: T,
    post: T,
)
    requires
        exact_numbers(p),
        reads(p, val),
        flat_updates(p),
        p.contains(n),
        p.contains(obs),
        p.contains(post),
        post != num::<T>(0),
        n != num::<T>(0),
    ensures
        val(updated_rate(num::<T>(0), num::<T>(0), n, obs, post)) * val(post) == val(obs),
{
    reveal(flat_updates);
    reveal(exact_quotients);
    constants(p);
    let q = obs.s_over(post);
    assert(p.contains(q) && q.s_times(post) == obs);
    multiplied(p, n, q);
    multiplied(p, q, n);
    added(p, n.s_times(q), num(0));
    added(p, n, num(0));
    let rate = n.s_times(q).s_over(n);
    assert(p.contains(rate) && rate.s_times(n) == n.s_times(q));
    cancelled(p, rate, q, n);
    read_product(p, val, q, post);
}

/// A rate that is the quotient of total and number of frames gains over any other.
proof fn rate_gain(ln: spec_fn(real) -> real, c: real, v: real, new: real, old: real)
    requires
        is_ln(ln),
        0real <= v,
        0real < new,
        0real < old,
        c == new * v,
    ensures
        0real <= c * (ln(new) - ln(old)) - v * (new - old),
{
    let q = old / new;
    assert(0real < q && q * new == old) by (nonlinear_arith)
        requires
            0real < old,
            0real < new,
            q == old / new,
    ;
    assert(ln(q * new) == ln(q) + ln(new));
    assert(ln(q) <= q - 1real);
    let d = ln(new) - ln(old);
    // The logarithm of the quotient lies below its tangent.
    assert(new * (1real - q) <= new * d) by (nonlinear_arith)
        requires
            0real < new,
            1real - q <= d,
    ;
    assert(new * (1real - q) == new - q * new) by (nonlinear_arith);
    let e = new * d;
    assert(v * (new - old) <= v * e) by (nonlinear_arith)
        requires
            0real <= v,
            new - old <= e,
    ;
    assert((new * v) * d == v * e) by (nonlinear_arith)
        requires
            e == new * d,
    ;
}

/// What a state gains in one count is not negative.
proof fn count_gains<T: Dense>(
    p: Set<T>,
    l: Set<T>,
    val: spec_fn(T) -> real,
    ln: spec_fn(real) -> real,
    h: &Hmm<T, PoissonEm<T>>,
    x: &Matrix<T>,
    ranges: Seq<(usize, usize)>,
    trans: &Matrix<T>,
    tr: EStep<T, PoissonEm<T>>,
    frames: Seq<Matrix<T>>,
    after: &Em<T>,
    after_emission: &PoissonEm<T>,
    new_frames: Seq<Matrix<T>>,
    j: int,
    f: int,
)
    requires
        exact_reading(p, l, val, ln),
        exact_counting(p, l, h, x, ranges, trans, tr, frames, after, after_emission, new_frames),
        0 <= j < h.emission.n_components,
        0 <= f < h.emission.width(),
    ensures
        ({
            let count = ranges.len() as int;
            let old = trellises_of(val, h.inference.start_prob@, trans, frames);
            let a = val(h.emission.lambdas->0.at(j, f));
            let b = val(after_emission.lambdas->0.at(j, f));
            0real <= all_weighed(count, old, counts_of(val, tr.subs), j, f) * (ln(b) - ln(a))
                - all_visits(count, old, j) * (b - a)
        }),
{
    let count = ranges.len() as int;
    let nc = h.emission.n_components as int;
    let m = h.emission.width();
    let start = h.inference.start_prob@;
    let old = trellises_of(val, start, trans, frames);
    let counts = counts_of(val, tr.subs);
    let (ra, rb) = (h.emission.lambdas->0.at(j, f), after_emission.lambdas->0.at(j, f));
    let (a, b) = (val(ra), val(rb));
    let (c, v) = (all_weighed(count, old, counts, j, f), all_visits(count, old, j));
    counting_facts(
        p,
        l,
        val,
        h,
        x,
        ranges,
        trans,
        tr,
        frames,
        after,
        after_emission,
        new_frames,
        f,
    );
    weighed_facts(count, old, nc, counts, j, f);
    assert(p.contains(ra) && p.contains(rb));
    read_sign(p, val, ra);
    read_sign(p, val, rb);
    if h.params.members().contains(Param::Lambdas) {
        if 0real < v {
            let stats = tr.stats.last();
            let posts = |i: int| stats.post@[i];
            assert forall|s: int| 0 <= s < count implies counts_among(p, #[trigger] &tr.subs[s])
                && tr.subs[s].ncols == m && frames[s].has_dims(
                tr.subs[s].rows.len() as int,
                nc,
            ) by {
                assert(likelihoods_of(&h.emission, &tr.subs[s], &frames[s]));
            }
            let stays = |i: int| all_visits(count, old, i);
            assert forall|i: int| 0 <= i < nc implies p.contains(#[trigger] posts(i)) && val(
                posts(i),
            ) == stays(i) && 0real <= stays(i) by {
                reveal(flat_updates);
                totals_read(
                    p,
                    l,
                    val,
                    h,
                    x,
                    ranges,
                    start,
                    trans,
                    tr,
                    frames,
                    count,
                    count,
                    i,
                    f,
                );
                weighed_facts(count, old, nc, counts, i, f);
            }
            assert forall|i: int| 0 <= i < nc implies 0real <= #[trigger] stays(i) by {
                assert(p.contains(posts(i)));
            }
            reveal(flat_updates);
            totals_read(
                p,
                l,
                val,
                h,
                x,
                ranges,
                start,
                trans,
                tr,
                frames,
                count,
                count,
                j,
                f,
            );
            read_sigma(p, val, nc, posts, stays);
            lanes_are_sum(p, nc, posts);
            let n = total(stats.post@);
            assert(n == sigma(nc, posts));
            rsum_member(nc, stays, j);
            read_constants(p, val);
            let (obs, post) = (stats.obs.at(j, f), stats.post@[j]);
            rate_reads(p, val, n, obs, post);
            assert(rb == updated_rate(num::<T>(0), num::<T>(0), n, obs, post));
            rate_gain(ln, c, v, b, a);
        } else {
            if 0real < c {
                let (s, t) = weighed_somewhere(count, old, nc, counts, j, f);
                assert(0real < old(s).at(t, j));
            }
            let (d, e) = (ln(b) - ln(a), b - a);
            assert(0real * d == 0real) by (nonlinear_arith);
            assert(0real * e == 0real) by (nonlinear_arith);
        }
    } else {
        assert(c * 0real == 0real) by (nonlinear_arith);
        assert(v * 0real == 0real) by (nonlinear_arith);
    }
}

/// The difference of sums is the sum of the differences.
proof fn rsum_minus(m: int, u: spec_fn(int) -> real, v: spec_fn(int) -> real)
    ensures
        rsum(m, |f: int| u(f) - v(f)) == rsum(m, u) - rsum(m, v),
    decreases m,
{
    if m > 0 {
        rsum_minus(m - 1, u, v);
    }
}

/// The update of the rates does not lower the expected log-likelihood of the rows.
proof fn poisson_emission_gains<T: Dense>(
    p: Set<T>,
    l: Set<T>,
    val: spec_fn(T) -> real,
    ln: spec_fn(real) -> real,
    h: &Hmm<T, PoissonEm<T>>,
    x: &Matrix<T>,
    ranges: Seq<(usize, usize)>,
    trans: &Matrix<T>,
    tr: EStep<T, PoissonEm<T>>,
    frames: Seq<Matrix<T>>,
    after: &Em<T>,
    after_emission: &PoissonEm<T>,
    new_frames: Seq<Matrix<T>>,
)
    requires
        exact_reading(p, l, val, ln),
        exact_powers(p, l, val, ln),
        numbers_are_logs(p, l, val, ln),
        exact_counting(p, l, h, x, ranges, trans, tr, frames, after, after_emission, new_frames),
        h.emission.width() >= 1,
    ensures
        emission_gains(
            p,
            val,
            ln,
            h.inference.start_prob@,
            trans,
            frames,
            after,
            new_frames,
            ranges.len() as int,
        ),
{
    let count = ranges.len() as int;
    let m = h.emission.width();
    let nc = h.emission.n_components as int;
    let start = h.inference.start_prob@;
    let old = trellises_of(val, start, trans, frames);
    let new = trellises_of(val, after.start_prob@, &after.trans_mat, new_frames);
    let counts = counts_of(val, tr.subs);
    let rates = &h.emission.lambdas->0;
    let new_rates = &after_emission.lambdas->0;
    let g = |j: int, f: int| ln(val(new_rates.at(j, f))) - ln(val(rates.at(j, f)));
    let r = |j: int, f: int| val(new_rates.at(j, f)) - val(rates.at(j, f));
    counting_facts(
        p,
        l,
        val,
        h,
        x,
        ranges,
        trans,
        tr,
        frames,
        after,
        after_emission,
        new_frames,
        0,
    );
    assert forall|j: int| 0 <= j < nc implies 0real <= #[trigger] state_gain(
        count,
        old,
        counts,
        m,
        g,
        r,
        j,
    ) by {
        let wanted = |f: int|
            all_weighed(count, old, counts, j, f) * g(j, f) - all_visits(count, old, j) * r(j, f);
        assert forall|f: int| 0 <= f < m implies 0real <= #[trigger] wanted(f) by {
            count_gains(
                p,
                l,
                val,
                ln,
                h,
                x,
                ranges,
                trans,
                tr,
                frames,
                after,
                after_emission,
                new_frames,
                j,
                f,
            );
        }
        rsum_member(m, wanted, 0);
    }
    assert forall|s: int, t: int, j: int|
        0 <= s < count && 0 <= t < tr.subs[s].rows.len() && 0 <= j < nc implies p.contains(
        #[trigger] new_frames[s].at(t, j),
    ) && 0real < val(new_frames[s].at(t, j)) by {
        assert(counts_among(p, &tr.subs[s]));
        assert(likelihoods_of(after_emission, &tr.subs[s], &new_frames[s]));
        row_log_reads(p, l, val, ln, after_emission, &tr.subs[s], t, j);
        exp_of(p, l, after_emission.log_prob_at(&tr.subs[s], t, j));
        read_sign(p, val, new_frames[s].at(t, j));
    }
    assert forall|s: int| 0 <= s < count implies frames_in(p, #[trigger] &new_frames[s])
        && new_frames[s].dims() == frames[s].dims() by {
        assert(likelihoods_of(&h.emission, &tr.subs[s], &frames[s]));
        assert(likelihoods_of(after_emission, &tr.subs[s], &new_frames[s]));
    }
    assert forall|s: int| 0 <= s < count implies (#[trigger] old(s)).nc == nc && old(s).wf() && 0real
        < old(s).mass() && linear_in_counts(ln, old(s), new(s), counts(s), m, g, r) by {
        assert(likelihoods_of(&h.emission, &tr.subs[s], &frames[s]));
        assert(likelihoods_of(after_emission, &tr.subs[s], &new_frames[s]));
        assert(counts_among(p, &tr.subs[s]));
        let sub = &tr.subs[s];
        let x_s = counts(s);
        assert forall|t: int, j: int|
            0 <= t < old(s).n && 0 <= j < old(s).nc && 0real < #[trigger] old(s).at(t, j) implies ln(
            (new(s).emit)(t, j),
        ) - ln((old(s).emit)(t, j)) == rsum(m, |f: int| x_s(t, f) * g(j, f) - r(j, f)) by {
            row_log_reads(p, l, val, ln, &h.emission, sub, t, j);
            row_log_reads(p, l, val, ln, after_emission, sub, t, j);
            assert((old(s).emit)(t, j) == val(frames[s].at(t, j)));
            assert((new(s).emit)(t, j) == val(new_frames[s].at(t, j)));
            assert(frames[s].at(t, j) == h.emission.log_prob_at(sub, t, j).s_exp());
            assert(new_frames[s].at(t, j) == after_emission.log_prob_at(sub, t, j).s_exp());
            let u = count_value(val, ln, after_emission, sub, t, j);
            let v = count_value(val, ln, &h.emission, sub, t, j);
            rsum_minus(m, u, v);
            let gaps = |f: int| u(f) - v(f);
            let wanted = |f: int| x_s(t, f) * g(j, f) - r(j, f);
            assert forall|f: int| 0 <= f < m implies #[trigger] gaps(f) == wanted(f) by {
                let (k, lb, la) = (
                    val(sub.at(t, f)),
                    ln(val(new_rates.at(j, f))),
                    ln(val(rates.at(j, f))),
                );
                assert(k * (lb - la) == k * lb - k * la) by (nonlinear_arith);
            }
            rsum_ext(m, gaps, wanted);
        }
    }
    counts_gain(ln, count, old, new, nc, counts, m, g, r);
    assert forall|s: int, t: int, j: int|
        0 <= s < count && 0 <= t < frames[s].rows.len() && 0 <= j < frames[s].ncols && 0real
            < #[trigger] trellises_of(val, start, trans, frames)(s).at(t, j) implies 0real < val(
        new_frames[s].at(t, j),
    ) by {
        assert(old(s).nc == nc);
        assert(likelihoods_of(&h.emission, &tr.subs[s], &frames[s]));
        assert(p.contains(new_frames[s].at(t, j)));
    }
    rsum_ext(
        count,
        |s: int| frames_gain(ln, old(s), new(s)),
        |s: int|
            frames_gain(
                ln,
                trellises_of(val, start, trans, frames)(s),
                trellises_of(val, after.start_prob@, &after.trans_mat, new_frames)(s),
            ),
    );
}

/// `framing` gives the likelihoods of the rows of every sequence.
pub open spec fn frames_rows<T: Dense>(
    x: &Matrix<T>,
    ranges: Seq<(usize, usize)>,
    framing: spec_fn(PoissonEm<T>, int) -> Matrix<T>,
) -> bool {
    forall|e: PoissonEm<T>, s: int, sub: Matrix<T>|
        #![trigger likelihoods_of(&e, &sub, &framing(e, s))]
        0 <= s < ranges.len() && e.fits() && is_slice(
            x,
            ranges[s].0 as int,
            ranges[s].1 as int,
            &sub,
        ) ==> likelihoods_of(&e, &sub, &framing(e, s))
}

/// Emissions with positive rates under a flat prior for the columns of `x`.
pub open spec fn rates_for<T: Dense>(
    p: Set<T>,
    x: &Matrix<T>,
) -> spec_fn(PoissonEm<T>) -> bool {
    |e: PoissonEm<T>| flat_rates(p, &e) && e.width() == x.ncols
}

/// Emissions with positive rates.
pub open spec fn positive_emission<T: Dense>(p: Set<T>) -> spec_fn(PoissonEm<T>) -> bool {
    |e: PoissonEm<T>| positive_rates(p, &e)
}

proof fn row_frames<T: Dense>(
    p: Set<T>,
    l: Set<T>,
    val: spec_fn(T) -> real,
    ln: spec_fn(real) -> real,
    implementation: Implementation,
    x: &Matrix<T>,
    ranges: Seq<(usize, usize)>,
    framing: spec_fn(PoissonEm<T>, int) -> Matrix<T>,
)
    requires
        exact_reading(p, l, val, ln),
        exact_powers(p, l, val, ln),
        numbers_are_logs(p, l, val, ln),
        counts_among(p, x),
        frames_rows(x, ranges, framing),
    ensures
        frames_sequences(l, implementation, x, ranges, framing, rates_for(p, x)),
{
    let sound = rates_for(p, x);
    assert forall|e: PoissonEm<T>, mode: FbMode, sub: Matrix<T>, own: Matrix<T>, s: int|
        #![trigger frames_of(&e, implementation, mode, &sub, &own), framing(e, s)]
        0 <= s < ranges.len() && sound(e) && is_slice(
            x,
            ranges[s].0 as int,
            ranges[s].1 as int,
            &sub,
        ) && frames_of(&e, implementation, mode, &sub, &own) implies frames_match(
        implementation,
        l,
        &own,
        &framing(e, s),
    ) && own.dims() == framing(e, s).dims() by {
        let frames = framing(e, s);
        assert(likelihoods_of(&e, &sub, &framing(e, s)));
        slice_among(p, x, ranges[s].0 as int, ranges[s].1 as int, &sub);
        assert forall|t: int, j: int|
            0 <= t < frames.rows.len() && 0 <= j < frames.ncols implies #[trigger] own.at(t, j)
            == frame_value(&e, implementation, mode, &sub, t, j) && l.contains(
            e.log_prob_at(&sub, t, j),
        ) by {
            row_log_reads(p, l, val, ln, &e, &sub, t, j);
        }
        assert forall|t: int, j: int|
            0 <= t < frames.rows.len() && 0 <= j < frames.ncols implies #[trigger] frames.at(t, j)
            == match implementation {
            Implementation::Log => own.at(t, j).s_exp(),
            Implementation::Scaling => own.at(t, j),
        } by {
            assert(own.at(t, j) == frame_value(&e, implementation, mode, &sub, t, j));
        }
    }
}

proof fn row_updates_gain<T: Dense>(
    p: Set<T>,
    l: Set<T>,
    val: spec_fn(T) -> real,
    ln: spec_fn(real) -> real,
    x: &Matrix<T>,
    ranges: Seq<(usize, usize)>,
    framing: spec_fn(PoissonEm<T>, int) -> Matrix<T>,
)
    requires
        exact_reading(p, l, val, ln),
        exact_powers(p, l, val, ln),
        numbers_are_logs(p, l, val, ln),
        ranges.len() >= 1,
        x.ncols >= 1,
        counts_among(p, x),
        frames_rows(x, ranges, framing),
    ensures
        updates_gain(p, l, val, ln, x, ranges, framing, rates_for(p, x), positive_emission(p)),
{
    let (sound, viable) = (rates_for(p, x), positive_emission(p));
    let count = ranges.len() as int;
    assert forall|
        h: Hmm<T, PoissonEm<T>>,
        trans: Matrix<T>,
        tr: EStep<T, PoissonEm<T>>,
        after: Em<T>,
        after_emission: PoissonEm<T>,
    |
        #![trigger exact_update(p, l, &h, x, ranges, &trans, tr, framed(framing, h.emission, count), &after), h.emission.mstep_rel(&tr.stats.last(), h.params, &after_emission)]
        sound(h.emission) && exact_update(
            p,
            l,
            &h,
            x,
            ranges,
            &trans,
            tr,
            framed(framing, h.emission, count),
            &after,
        ) && h.emission.mstep_rel(&tr.stats.last(), h.params, &after_emission) && viable(
            after_emission,
        ) implies sound(after_emission) && emission_gains(
        p,
        val,
        ln,
        h.inference.start_prob@,
        &trans,
        framed(framing, h.emission, count),
        &after,
        framed(framing, after_emission, count),
        count,
    ) by {
        let start = h.inference.start_prob@;
        let frames = framed(framing, h.emission, count);
        let new_frames = framed(framing, after_emission, count);
        assert(chain_in(p, start, &trans, &frames[0]));
        assert forall|s: int| 0 <= s < count implies counts_among(p, #[trigger] &tr.subs[s])
            && tr.subs[s].ncols == h.emission.width() && likelihoods_of(
            &h.emission,
            &tr.subs[s],
            &framing(h.emission, s),
        ) by {
            assert(estep_at(&h, x, ranges, start, &trans, tr, s));
            slice_among(p, x, ranges[s].0 as int, ranges[s].1 as int, &tr.subs[s]);
        }
        assert(counts_among(p, &tr.subs[0]));
        assert(h.emission.n_components == h.inference.n_components);
        assert(after_emission.fits());
        assert forall|s: int| 0 <= s < count implies likelihoods_of(
            &h.emission,
            &tr.subs[s],
            #[trigger] &frames[s],
        ) by {
            assert(counts_among(p, &tr.subs[s]));
        }
        assert forall|s: int| 0 <= s < count implies likelihoods_of(
            &after_emission,
            &tr.subs[s],
            #[trigger] &new_frames[s],
        ) by {
            assert(estep_at(&h, x, ranges, start, &trans, tr, s));
            assert(likelihoods_of(&after_emission, &tr.subs[s], &framing(after_emission, s)));
        }
        poisson_emission_gains(
            p,
            l,
            val,
            ln,
            &h,
            x,
            ranges,
            &trans,
            tr,
            frames,
            &after,
            &after_emission,
            new_frames,
        );
    }
}

/// The history of a fit of a Poisson model never falls, and a score of the
/// fitted model on the observations that it was fitted to is not below the last
/// entry: in either implementation, where arithmetic is exact, under flat priors,
/// where every model that the fit can start from gives every sequence a probability,
/// and where no model that it can reach has a rate of zero.
pub proof fn poisson_history_never_falls<T: Dense>(
    p: Set<T>,
    l: Set<T>,
    val: spec_fn(T) -> real,
    ln: spec_fn(real) -> real,
    pre: &Hmm<T, PoissonEm<T>>,
    x: &Matrix<T>,
    lengths: Option<&[usize]>,
    fitted: Fitted<T, PoissonEm<T>>,
    ranges: Seq<(usize, usize)>,
    framing: spec_fn(PoissonEm<T>, int) -> Matrix<T>,
)
    requires
        exact_reading(p, l, val, ln),
        exact_powers(p, l, val, ln),
        numbers_are_logs(p, l, val, ln),
        fit_result(pre, x, lengths, Ok(fitted)),
        is_split(lengths, x.rows.len() as int, ranges),
        ranges.len() >= 1,
        x.ncols >= 1,
        counts_among(p, x),
        frames_rows(x, ranges, framing),
        forall|states: Seq<Hmm<T, PoissonEm<T>>>, k: int|
            #[trigger] fit_reaches(pre, x, ranges, states) && 0 <= k < states.len()
                ==> positive_rates(p, &(#[trigger] states[k]).emission),
        forall|first: Hmm<T, PoissonEm<T>>| #[trigger]
            prepared(pre, x, ranges.len() as int, &first) ==> flat_rates(p, &first.emission)
                && flat_chain(
                p,
                &first.inference,
                framed(framing, first.emission, ranges.len() as int),
                ranges.len() as int,
            ),
    ensures
        forall|k: int|
            0 <= k < fitted.0.monitor.history@.len() - 1 ==> !fitted.0.monitor.history@[k
                + 1].s_below(#[trigger] fitted.0.monitor.history@[k]),
        forall|score: T|
            fitted.0.monitor.history@.len() >= 1 && #[trigger] is_log_likelihood(
                &fitted.0,
                x,
                lengths,
                score,
            ) ==> !score.s_below(fitted.0.monitor.history@.last()),
{
    let count = ranges.len() as int;
    row_frames(p, l, val, ln, pre.implementation, x, ranges, framing);
    row_updates_gain(p, l, val, ln, x, ranges, framing);
    assert forall|first: Hmm<T, PoissonEm<T>>| #[trigger]
        prepared(pre, x, count, &first) implies model_sound(
        p,
        &first,
        framing,
        rates_for(p, x),
        count,
    ) by {
        let looked = choose|looked: PoissonEm<T>| #[trigger]
            initialized(pre, x, count, &looked, &first);
        assert(initialized(pre, x, count, &looked, &first));
    }
    history_never_falls(
        p,
        l,
        val,
        ln,
        pre,
        x,
        lengths,
        fitted,
        ranges,
        framing,
        rates_for(p, x),
        positive_emission(p),
    );
}

} // verus!
