//! Expectation-maximisation never lowers the likelihood of a multinomial model, where
//! arithmetic is exact.

use crate::engine::agreement::{chain_in, exact_logs, exp_of};
use crate::engine::ascent::{frames_gain, kept_or_counted, kept_or_counted_gains};
use crate::engine::counts::{
    all_visits, all_weighed, counts_gain, linear_in_counts, state_gain, weighed, weighed_facts,
    weighed_somewhere,
};
use crate::engine::emission::is_slice;
use crate::engine::fit::{
    estep_at, estep_upto, fit_result, initialized, is_split, prepared, EStep,
};
use crate::engine::fitted::{is_log_likelihood, Fitted};
use crate::engine::hmm::{frame_value, frames_of, FbMode, Hmm};
use crate::engine::inference::{Em, Inference};
use crate::engine::params::{Implementation, Param};
use crate::engine::powers::{
    exact_powers, log_difference_reads, log_gamma_reads, log_of_one_reads, log_sigma_reads,
    log_sum_reads, log_value, power_reads, reads_log,
};
use crate::engine::raising::{
    distribution_reads, exact_sequences, exact_update, flat_chain, flat_updates, frames_in,
    frames_match, quotient_in, quotient_reads, quotients_sum_to_one, read_constants, read_sigma,
    read_sign, read_sum, reads, row_of, sums_to_one, trellises_of, trellises_wf,
};
use crate::engine::rising::{
    emission_gains, exact_reading, framed, frames_sequences, history_never_falls, model_sound,
    updates_gain,
};
use crate::engine::scaled::exact_quotients;
use crate::engine::tables::shares_facts;
use crate::engine::EmissionModel;
use crate::exact::{added, constants, exact_numbers, lanes_are_sum, sum_in};
use crate::linalg::Dense;
use crate::matrix::{row_total, Matrix};
use crate::models::multinomial::{trials_of, x_log_y, MultinomialEm};
use crate::models::weighing::{counts_among, counts_of, slice_among, weighed_reads};
use crate::reals::{rsum, rsum_ext, rsum_member, rsum_positive};
use crate::scalar::{num, sigma, Scalar};
use crate::util::divisor;
use vstd::prelude::*;

verus! {

/// Category probabilities over exact numbers: each row sums to 1 or, as that of a
/// state that was never visited, is all zero.
pub open spec fn flat_categories<T: Dense>(p: Set<T>, e: &MultinomialEm<T>) -> bool {
    &&& e.fits()
    &&& forall|j: int|
        0 <= j < e.n_components ==> sums_to_one(
            e.categories(),
            #[trigger] row_of(&e.emissionprob->0, j),
        )
    &&& forall|j: int, f: int|
        0 <= j < e.n_components && 0 <= f < e.categories() ==> p.contains(
            #[trigger] e.emissionprob->0.at(j, f),
        )
}

/// `frames` holds the likelihoods of the rows of `sub` in each state.
pub open spec fn likelihoods_of<T: Dense>(
    e: &MultinomialEm<T>,
    sub: &Matrix<T>,
    frames: &Matrix<T>,
) -> bool {
    &&& frames.has_dims(sub.rows.len() as int, e.n_components as int)
    &&& forall|t: int, j: int|
        0 <= t < sub.rows.len() && 0 <= j < e.n_components ==> #[trigger] frames.at(t, j)
            == e.log_prob_at(sub, t, j).s_exp()
}

/// The part of a row's log-probability that does not depend on the state.
spec fn lead_of<T: Scalar>(x: &Matrix<T>, t: int, m: int) -> T {
    trials_of(x, t).s_plus(num(1)).s_ln_gamma().s_minus(
        sigma(m, |f: int| x.at(t, f).s_plus(num(1)).s_ln_gamma()),
    )
}

/// The state's probability of every category that the row counts is not zero.
spec fn possible<T: Scalar>(e: &MultinomialEm<T>, x: &Matrix<T>, t: int, c: int) -> bool {
    forall|f: int|
        0 <= f < e.categories() && #[trigger] x.at(t, f) != num::<T>(0) ==> e.emissionprob->0.at(
            c,
            f,
        ) != num::<T>(0)
}

/// The log-probability of a row, read: linear in the counts where the row is
/// possible, and that of zero where it is not.
proof fn row_log_reads<T: Dense>(
    p: Set<T>,
    l: Set<T>,
    val: spec_fn(T) -> real,
    ln: spec_fn(real) -> real,
    e: &MultinomialEm<T>,
    x: &Matrix<T>,
    t: int,
    c: int,
)
    requires
        exact_reading(p, l, val, ln),
        exact_powers(p, l, val, ln),
        flat_categories(p, e),
        x.ncols == e.categories(),
        counts_among(p, x),
        0 <= t < x.rows.len(),
        0 <= c < e.n_components,
    ensures
        l.contains(e.log_prob_at(x, t, c)),
        possible(e, x, t, c) ==> reads_log(
            l,
            val,
            ln,
            e.log_prob_at(x, t, c),
            log_value(val, ln, lead_of(x, t, e.categories())) + rsum(
                e.categories(),
                |f: int| val(x.at(t, f)) * ln(val(e.emissionprob->0.at(c, f))),
            ),
        ),
        !possible(e, x, t, c) ==> e.log_prob_at(x, t, c).s_exp() == num::<T>(0),
{
    let m = e.categories();
    let ep = &e.emissionprob->0;
    let zero = num::<T>(0);
    let entries = |f: int| x.at(t, f);
    assert forall|f: int| 0 <= f < m implies p.contains(#[trigger] entries(f)) by {
        assert(p.contains(x.at(t, f)));
    }
    sum_in(p, m, entries);
    assert(trials_of(x, t) == sigma(m, entries));
    log_gamma_reads(p, l, val, ln, trials_of(x, t));
    let gammas = |f: int| x.at(t, f).s_plus(num(1)).s_ln_gamma();
    assert forall|f: int| 0 <= f < m implies l.contains(#[trigger] gammas(f)) && gammas(f).s_exp()
        != zero by {
        assert(p.contains(x.at(t, f)));
        log_gamma_reads(p, l, val, ln, x.at(t, f));
    }
    log_sigma_reads(p, l, val, ln, m, gammas, |f: int| log_value(val, ln, gammas(f)));
    let lead = lead_of(x, t, m);
    log_difference_reads(
        p,
        l,
        val,
        ln,
        trials_of(x, t).s_plus(num(1)).s_ln_gamma(),
        sigma(m, gammas),
    );
    let terms = |f: int| x_log_y(x.at(t, f), ep.at(c, f));
    let values = |f: int| val(x.at(t, f)) * ln(val(ep.at(c, f)));
    log_of_one_reads(p, l, val, ln);
    assert forall|f: int| 0 <= f < m implies l.contains(#[trigger] terms(f)) && (
    terms(f).s_exp() != zero ==> log_value(val, ln, terms(f)) == values(f)) && (terms(f).s_exp()
        == zero <==> x.at(t, f) != zero && ep.at(c, f) == zero) by {
        let (a, b) = (x.at(t, f), ep.at(c, f));
        assert(p.contains(a));
        assert(p.contains(b));
        reveal(flat_updates);
        reveal(exact_quotients);
        assert(a.s_same(num(0)) <==> a == zero);
        if a == zero {
            read_constants(p, val);
            let y = ln(val(b));
            assert(0real * y == 0real) by (nonlinear_arith);
        } else {
            power_reads(p, l, val, ln, a, b);
        }
    }
    log_sigma_reads(p, l, val, ln, m, terms, values);
    log_sum_reads(p, l, val, ln, lead, sigma(m, terms));
    assert(e.log_prob_at(x, t, c) == lead.s_plus(sigma(m, terms)));
    if possible(e, x, t, c) {
        assert forall|f: int| 0 <= f < m implies (#[trigger] terms(f)).s_exp() != zero by {
            assert(l.contains(terms(f)));
        }
    } else {
        let f = choose|f: int|
            0 <= f < m && #[trigger] x.at(t, f) != zero && ep.at(c, f) == zero;
        assert(l.contains(terms(f)));
        assert(terms(f).s_exp() == zero);
    }
}

/// The category statistics after `k` sequences, read, are the expected totals.
proof fn totals_read<T: Dense>(
    p: Set<T>,
    l: Set<T>,
    val: spec_fn(T) -> real,
    h: &Hmm<T, MultinomialEm<T>>,
    x: &Matrix<T>,
    ranges: Seq<(usize, usize)>,
    start: Seq<T>,
    trans: &Matrix<T>,
    tr: EStep<T, MultinomialEm<T>>,
    frames: Seq<Matrix<T>>,
    count: int,
    k: int,
    j: int,
    f: int,
)
    requires
        exact_numbers(p),
        exact_logs(p, l),
        exact_quotients(p),
        reads(p, val),
        trans.has_dims(h.inference.states(), h.inference.states()),
        h.params.members().contains(Param::Emit),
        estep_upto(h, x, ranges, start, trans, tr, count),
        exact_sequences(p, l, h.implementation, start, trans, tr, frames, count),
        forall|s: int|
            0 <= s < count ==> counts_among(p, #[trigger] &tr.subs[s]) && tr.subs[s].ncols
                == h.emission.categories() && frames[s].has_dims(
                tr.subs[s].rows.len() as int,
                h.emission.n_components as int,
            ),
        h.emission.n_components == h.inference.n_components,
        0 <= k <= count,
        0 <= j < h.emission.n_components,
        0 <= f < h.emission.categories(),
    ensures
        tr.stats[k].obs.has_dims(h.emission.n_components as int, h.emission.categories()),
        p.contains(tr.stats[k].obs.at(j, f)),
        val(tr.stats[k].obs.at(j, f)) == all_weighed(
            k,
            trellises_of(val, start, trans, frames),
            counts_of(val, tr.subs),
            j,
            f,
        ),
    decreases k,
{
    let old = trellises_of(val, start, trans, frames);
    let counts = counts_of(val, tr.subs);
    let part = |s: int| weighed(old(s), counts(s), j, f);
    constants(p);
    read_constants(p, val);
    if k > 0 {
        totals_read(p, l, val, h, x, ranges, start, trans, tr, frames, count, k - 1, j, f);
        assert(estep_at(h, x, ranges, start, trans, tr, k - 1));
        let fb = tr.fbs[k - 1];
        let sub = &tr.subs[k - 1];
        assert(counts_among(p, &tr.subs[k - 1]));
        assert(chain_in(p, start, trans, &frames[k - 1]));
        weighed_reads(
            p,
            l,
            val,
            h.implementation,
            start,
            trans,
            &frames[k - 1],
            &fb,
            sub,
            j,
            f,
        );
        let before = tr.stats[k - 1].obs.at(j, f);
        let more = sigma(
            sub.rows.len() as int,
            |t: int| fb.posteriors.at(t, j).s_times(sub.at(t, f)),
        );
        assert(tr.stats[k].obs.at(j, f) == before.s_plus(more));
        added(p, before, more);
        read_sum(p, val, before, more);
        assert(rsum(k, part) == rsum(k - 1, part) + part(k - 1));
    } else {
        assert(tr.stats[0].obs.at(j, f) == num::<T>(0));
    }
}

/// An E-step and the M-step after it, over exact numbers: `frames` are the row
/// likelihoods that the E-step worked with, and `new_frames` those after the M-step.
pub open spec fn exact_counting<T: Dense>(
    p: Set<T>,
    l: Set<T>,
    h: &Hmm<T, MultinomialEm<T>>,
    x: &Matrix<T>,
    ranges: Seq<(usize, usize)>,
    trans: &Matrix<T>,
    tr: EStep<T, MultinomialEm<T>>,
    frames: Seq<Matrix<T>>,
    after: &Em<T>,
    after_emission: &MultinomialEm<T>,
    new_frames: Seq<Matrix<T>>,
) -> bool {
    &&& exact_update(p, l, h, x, ranges, trans, tr, frames, after)
    &&& flat_categories(p, &h.emission)
    &&& h.emission.n_components == h.inference.n_components
    &&& h.emission.mstep_rel(&tr.stats.last(), h.params, after_emission)
    &&& forall|s: int|
        0 <= s < ranges.len() ==> counts_among(p, #[trigger] &tr.subs[s]) && tr.subs[s].ncols
            == h.emission.categories()
    &&& forall|s: int|
        0 <= s < ranges.len() ==> likelihoods_of(&h.emission, &tr.subs[s], #[trigger] &frames[s])
    &&& forall|s: int|
        0 <= s < ranges.len() ==> likelihoods_of(
            after_emission,
            &tr.subs[s],
            #[trigger] &new_frames[s],
        )
}

/// The trellises of the E-step have a mass, and counts are not negative.
proof fn counting_facts<T: Dense>(
    p: Set<T>,
    l: Set<T>,
    val: spec_fn(T) -> real,
    h: &Hmm<T, MultinomialEm<T>>,
    x: &Matrix<T>,
    ranges: Seq<(usize, usize)>,
    trans: &Matrix<T>,
    tr: EStep<T, MultinomialEm<T>>,
    frames: Seq<Matrix<T>>,
    after: &Em<T>,
    after_emission: &MultinomialEm<T>,
    new_frames: Seq<Matrix<T>>,
    f: int,
)
    requires
        exact_numbers(p),
        reads(p, val),
        exact_counting(p, l, h, x, ranges, trans, tr, frames, after, after_emission, new_frames),
        0 <= f < h.emission.categories(),
    ensures
        ({
            let old = trellises_of(val, h.inference.start_prob@, trans, frames);
            let counts = counts_of(val, tr.subs);
            &&& forall|s: int|
                0 <= s < ranges.len() ==> (#[trigger] old(s)).nc == h.emission.n_components
                    && old(s).wf() && 0real < old(s).mass() && old(s).n == tr.subs[s].rows.len()
            &&& forall|s: int, t: int|
                0 <= s < ranges.len() && 0 <= t < old(s).n ==> 0real <= #[trigger] counts(s)(t, f)
        }),
{
    let old = trellises_of(val, h.inference.start_prob@, trans, frames);
    let counts = counts_of(val, tr.subs);
    trellises_wf(p, l, val, h, x, ranges, trans, tr, frames, after);
    assert forall|s: int| 0 <= s < ranges.len() implies (#[trigger] old(s)).nc
        == h.emission.n_components && old(s).wf() && 0real < old(s).mass() && old(s).n
        == tr.subs[s].rows.len() by {
        assert(likelihoods_of(&h.emission, &tr.subs[s], &frames[s]));
    }
    assert forall|s: int, t: int| 0 <= s < ranges.len() && 0 <= t < old(s).n implies 0real
        <= #[trigger] counts(s)(t, f) by {
        assert(old(s).nc == h.emission.n_components);
        assert(counts_among(p, &tr.subs[s]));
        assert(p.contains(tr.subs[s].at(t, f)));
        read_sign(p, val, tr.subs[s].at(t, f));
    }
}

/// Where mass goes through a state, its row is possible.
proof fn possible_where_mass<T: Dense>(
    p: Set<T>,
    l: Set<T>,
    val: spec_fn(T) -> real,
    ln: spec_fn(real) -> real,
    h: &Hmm<T, MultinomialEm<T>>,
    x: &Matrix<T>,
    ranges: Seq<(usize, usize)>,
    trans: &Matrix<T>,
    tr: EStep<T, MultinomialEm<T>>,
    frames: Seq<Matrix<T>>,
    after: &Em<T>,
    after_emission: &MultinomialEm<T>,
    new_frames: Seq<Matrix<T>>,
    s: int,
    t: int,
    j: int,
)
    requires
        exact_reading(p, l, val, ln),
        exact_powers(p, l, val, ln),
        exact_counting(p, l, h, x, ranges, trans, tr, frames, after, after_emission, new_frames),
        h.emission.categories() >= 1,
        0 <= s < ranges.len(),
        0 <= t < tr.subs[s].rows.len(),
        0 <= j < h.emission.n_components,
        0real < trellises_of(val, h.inference.start_prob@, trans, frames)(s).at(t, j),
    ensures
        possible(&h.emission, &tr.subs[s], t, j),
{
    let old = trellises_of(val, h.inference.start_prob@, trans, frames);
    counting_facts(
        p,
        l,
        val,
        h,
        x,
        ranges,
        trans,
        tr,
        frames,
        after,
        after_emission,
        new_frames,
        0,
    );
    assert(old(s).nc == h.emission.n_components);
    shares_facts(old(s), t, j);
    assert(counts_among(p, &tr.subs[s]));
    assert(likelihoods_of(&h.emission, &tr.subs[s], &frames[s]));
    row_log_reads(p, l, val, ln, &h.emission, &tr.subs[s], t, j);
    assert((old(s).emit)(t, j) == val(frames[s].at(t, j)));
    assert(frames[s].at(t, j) == h.emission.log_prob_at(&tr.subs[s], t, j).s_exp());
    read_constants(p, val);
}

/// A row of the new category probabilities, read, is the old one or that of the
/// expected totals.
proof fn category_row_counted<T: Dense>(
    p: Set<T>,
    l: Set<T>,
    val: spec_fn(T) -> real,
    ln: spec_fn(real) -> real,
    h: &Hmm<T, MultinomialEm<T>>,
    x: &Matrix<T>,
    ranges: Seq<(usize, usize)>,
    trans: &Matrix<T>,
    tr: EStep<T, MultinomialEm<T>>,
    frames: Seq<Matrix<T>>,
    after: &Em<T>,
    after_emission: &MultinomialEm<T>,
    new_frames: Seq<Matrix<T>>,
    j: int,
    a: spec_fn(int) -> real,
    c: spec_fn(int) -> real,
    b: spec_fn(int) -> real,
)
    requires
        exact_reading(p, l, val, ln),
        exact_powers(p, l, val, ln),
        exact_counting(p, l, h, x, ranges, trans, tr, frames, after, after_emission, new_frames),
        h.emission.categories() >= 1,
        0 <= j < h.emission.n_components,
        a == (|f: int| val(h.emission.emissionprob->0.at(j, f))),
        c == (|f: int|
            all_weighed(
                ranges.len() as int,
                trellises_of(val, h.inference.start_prob@, trans, frames),
                counts_of(val, tr.subs),
                j,
                f,
            )),
        b == (|f: int| val(after_emission.emissionprob->0.at(j, f))),
    ensures
        kept_or_counted(h.emission.categories(), a, c, b),
        forall|f: int| 0 <= f < h.emission.categories() ==> 0real <= #[trigger] c(f),
        forall|f: int| 0 <= f < h.emission.categories() ==> 0real <= #[trigger] a(f),
        forall|f: int|
            0 <= f < h.emission.categories() && 0real < #[trigger] c(f) ==> 0real < a(f),
        forall|f: int|
            0 <= f < h.emission.categories() ==> p.contains(
                #[trigger] after_emission.emissionprob->0.at(j, f),
            ),
        after_emission.fits(),
        sums_to_one(h.emission.categories(), row_of(&after_emission.emissionprob->0, j)),
{
    let count = ranges.len() as int;
    let m = h.emission.categories();
    let nc = h.emission.n_components as int;
    let start = h.inference.start_prob@;
    let old = trellises_of(val, start, trans, frames);
    let counts = counts_of(val, tr.subs);
    let ep = &h.emission.emissionprob->0;
    let new_ep = &after_emission.emissionprob->0;
    assert forall|f: int| 0 <= f < m implies 0real <= #[trigger] c(f) && 0real <= a(f) && (0real
        < c(f) ==> 0real < a(f)) by {
        counting_facts(
            p,
            l,
            val,
            h,
            x,
            ranges,
            trans,
            tr,
            frames,
            after,
            after_emission,
            new_frames,
            f,
        );
        weighed_facts(count, old, nc, counts, j, f);
        assert(p.contains(ep.at(j, f)));
        read_sign(p, val, ep.at(j, f));
        if 0real < c(f) {
            let (s, t) = weighed_somewhere(count, old, nc, counts, j, f);
            assert(old(s).nc == nc);
            possible_where_mass(
                p,
                l,
                val,
                ln,
                h,
                x,
                ranges,
                trans,
                tr,
                frames,
                after,
                after_emission,
                new_frames,
                s,
                t,
                j,
            );
            read_constants(p, val);
            assert(tr.subs[s].at(t, f) != num::<T>(0));
        }
    }
    assert forall|f: int| 0 <= f < m implies 0real <= #[trigger] a(f) by {
        assert(0real <= c(f));
    }
    if h.params.members().contains(Param::Emit) {
        let obs = &tr.stats.last().obs;
        let seen = |f: int| obs.at(j, f);
        assert forall|f: int| 0 <= f < m implies p.contains(#[trigger] seen(f)) && val(seen(f))
            == c(f) && obs.has_dims(nc, m) by {
            assert forall|s: int| 0 <= s < count implies counts_among(p, #[trigger] &tr.subs[s])
                && tr.subs[s].ncols == m && frames[s].has_dims(
                tr.subs[s].rows.len() as int,
                nc,
            ) by {
                assert(likelihoods_of(&h.emission, &tr.subs[s], &frames[s]));
            }
            reveal(flat_updates);
            totals_read(
                p,
                l,
                val,
                h,
                x,
                ranges,
                start,
                trans,
                tr,
                frames,
                count,
                count,
                j,
                f,
            );
        }
        assert(p.contains(seen(0)));
        assert forall|f: int| 0 <= f < m implies 0real <= #[trigger] c(f) by {
        }
        read_sigma(p, val, m, seen, c);
        let d = row_total(obs, j);
        lanes_are_sum(p, m, seen);
        assert(d == sigma(m, seen));
        assert forall|f: int| 0 <= f < m implies #[trigger] b(f) * rsum(m, c) == c(f) by {
            assert(p.contains(seen(f)));
            rsum_member(m, c, f);
            assert(new_ep.at(j, f) == obs.at(j, f).s_over(divisor(d)));
            quotient_reads(p, val, obs.at(j, f), d, new_ep.at(j, f));
        }
        assert forall|f: int| 0 <= f < m implies p.contains(#[trigger] new_ep.at(j, f)) by {
            assert(p.contains(seen(f)));
            assert(new_ep.at(j, f) == obs.at(j, f).s_over(divisor(d)));
            quotient_in(p, val, obs.at(j, f), d, new_ep.at(j, f));
        }
        let q = row_of(new_ep, j);
        assert forall|f: int| 0 <= f < m implies if d.s_same(num(0)) {
            #[trigger] q(f) == seen(f) || q(f) == seen(f).s_over(num(1))
        } else {
            q(f) == seen(f).s_over(d)
        } by {
            assert(new_ep.at(j, f) == obs.at(j, f).s_over(divisor(d)));
        }
        quotients_sum_to_one(p, val, m, seen, d, q);
        let g = row_of(ep, j);
        assert forall|f: int| 0 <= f < m implies p.contains(#[trigger] g(f)) && val(g(f)) == a(f) by {
            assert(p.contains(ep.at(j, f)));
        }
        if 0real < rsum(m, c) {
            let k = rsum_positive(m, c);
            assert(0real < c(k));
            distribution_reads(p, val, m, g, a, k);
        }
    } else {
        assert forall|f: int| 0 <= f < m implies #[trigger] b(f) == a(f) by {
        }
    }
}

/// A sum of products with differences is the difference of the sums.
pub(crate) proof fn rsum_of_differences(
    m: int,
    x: spec_fn(int) -> real,
    u: spec_fn(int) -> real,
    v: spec_fn(int) -> real,
)
    ensures
        rsum(m, |f: int| x(f) * (u(f) - v(f))) == rsum(m, |f: int| x(f) * u(f)) - rsum(
            m,
            |f: int| x(f) * v(f),
        ),
    decreases m,
{
    if m > 0 {
        rsum_of_differences(m - 1, x, u, v);
        let (a, b, c) = (x(m - 1), u(m - 1), v(m - 1));
        assert(a * (b - c) == a * b - a * c) by (nonlinear_arith);
    }
}

/// The update of the category probabilities does not lower the expected
/// log-likelihood of the rows.
proof fn multinomial_emission_gains<T: Dense>(
    p: Set<T>,
    l: Set<T>,
    val: spec_fn(T) -> real,
    ln: spec_fn(real) -> real,
    h: &Hmm<T, MultinomialEm<T>>,
    x: &Matrix<T>,
    ranges: Seq<(usize, usize)>,
    trans: &Matrix<T>,
    tr: EStep<T, MultinomialEm<T>>,
    frames: Seq<Matrix<T>>,
    after: &Em<T>,
    after_emission: &MultinomialEm<T>,
    new_frames: Seq<Matrix<T>>,
)
    requires
        exact_reading(p, l, val, ln),
        exact_powers(p, l, val, ln),
        exact_counting(p, l, h, x, ranges, trans, tr, frames, after, after_emission, new_frames),
        h.emission.categories() >= 1,
    ensures
        flat_categories(p, after_emission),
        emission_gains(
            p,
            val,
            ln,
            h.inference.start_prob@,
            trans,
            frames,
            after,
            new_frames,
            ranges.len() as int,
        ),
{
    let count = ranges.len() as int;
    let m = h.emission.categories();
    let nc = h.emission.n_components as int;
    let start = h.inference.start_prob@;
    let old = trellises_of(val, start, trans, frames);
    let new = trellises_of(val, after.start_prob@, &after.trans_mat, new_frames);
    let counts = counts_of(val, tr.subs);
    let ep = &h.emission.emissionprob->0;
    let new_ep = &after_emission.emissionprob->0;
    let g = |j: int, f: int| ln(val(new_ep.at(j, f))) - ln(val(ep.at(j, f)));
    let r = |j: int, f: int| 0real;
    counting_facts(
        p,
        l,
        val,
        h,
        x,
        ranges,
        trans,
        tr,
        frames,
        after,
        after_emission,
        new_frames,
        0,
    );
    assert forall|j: int| 0 <= j < nc implies 0real <= #[trigger] state_gain(
        count,
        old,
        counts,
        m,
        g,
        r,
        j,
    ) && after_emission.fits() && sums_to_one(m, row_of(new_ep, j)) && (forall|f: int|
        0 <= f < m ==> p.contains(#[trigger] new_ep.at(j, f))) && (forall|f: int|
        0 <= f < m && 0real < #[trigger] all_weighed(count, old, counts, j, f) ==> 0real < val(
            new_ep.at(j, f),
        )) by {
        let a = |f: int| val(h.emission.emissionprob->0.at(j, f));
        let c = |f: int|
            all_weighed(
                ranges.len() as int,
                trellises_of(val, h.inference.start_prob@, trans, frames),
                counts_of(val, tr.subs),
                j,
                f,
            );
        let b = |f: int| val(after_emission.emissionprob->0.at(j, f));
        category_row_counted(
            p,
            l,
            val,
            ln,
            h,
            x,
            ranges,
            trans,
            tr,
            frames,
            after,
            after_emission,
            new_frames,
            j,
            a,
            c,
            b,
        );
        kept_or_counted_gains(ln, m, c, a, b);
        let plain = |f: int| c(f) * (ln(b(f)) - ln(a(f)));
        let wanted = |f: int|
            all_weighed(count, old, counts, j, f) * g(j, f) - all_visits(count, old, j) * r(j, f);
        assert forall|f: int| 0 <= f < m implies #[trigger] plain(f) == wanted(f) by {
            let v = all_visits(count, old, j);
            assert(v * 0real == 0real) by (nonlinear_arith);
        }
        rsum_ext(m, plain, wanted);
        assert forall|f: int|
            0 <= f < m && 0real < #[trigger] all_weighed(count, old, counts, j, f) implies 0real
            < val(new_ep.at(j, f)) by {
            assert(0real < c(f));
        }
    }
    assert forall|j: int| 0 <= j < nc implies sums_to_one(m, #[trigger] row_of(new_ep, j)) by {
        assert(0real <= state_gain(count, old, counts, m, g, r, j));
    }
    assert forall|j: int, f: int| 0 <= j < nc && 0 <= f < m implies p.contains(
        #[trigger] new_ep.at(j, f),
    ) by {
        assert(0real <= state_gain(count, old, counts, m, g, r, j));
    }
    assert(old(0).nc == nc);
    trellises_wf(p, l, val, h, x, ranges, trans, tr, frames, after);
    if nc >= 1 {
        assert(0real <= state_gain(count, old, counts, m, g, r, 0));
    }
    assert(flat_categories(p, after_emission));
    // Wherever mass goes, the rows are possible before and after.
    assert forall|s: int, t: int, j: int|
        0 <= s < count && 0 <= t < old(s).n && 0 <= j < nc && 0real < #[trigger] old(s).at(t, j)
        implies possible(&h.emission, &tr.subs[s], t, j) && possible(
        after_emission,
        &tr.subs[s],
        t,
        j,
    ) by {
        assert(old(s).nc == nc);
        possible_where_mass(
            p,
            l,
            val,
            ln,
            h,
            x,
            ranges,
            trans,
            tr,
            frames,
            after,
            after_emission,
            new_frames,
            s,
            t,
            j,
        );
        assert forall|f: int| 0 <= f < m && #[trigger] tr.subs[s].at(t, f) != num::<T>(0) implies new_ep.at(
            j,
            f,
        ) != num::<T>(0) by {
            counting_facts(
                p,
                l,
                val,
                h,
                x,
                ranges,
                trans,
                tr,
                frames,
                after,
                after_emission,
                new_frames,
                f,
            );
            weighed_facts(count, old, nc, counts, j, f);
            assert(counts_among(p, &tr.subs[s]));
            read_sign(p, val, tr.subs[s].at(t, f));
            assert(0real < counts(s)(t, f));
            assert(0real < all_weighed(count, old, counts, j, f));
            assert(0real <= state_gain(count, old, counts, m, g, r, j));
            read_constants(p, val);
        }
    }
    assert forall|s: int| 0 <= s < count implies frames_in(p, #[trigger] &new_frames[s])
        && new_frames[s].dims() == frames[s].dims() by {
        assert(likelihoods_of(&h.emission, &tr.subs[s], &frames[s]));
        assert(likelihoods_of(after_emission, &tr.subs[s], &new_frames[s]));
        assert(counts_among(p, &tr.subs[s]));
        assert forall|t: int, j: int|
            0 <= t < new_frames[s].rows.len() && 0 <= j < new_frames[s].ncols implies p.contains(
            #[trigger] new_frames[s].at(t, j),
        ) by {
            row_log_reads(p, l, val, ln, after_emission, &tr.subs[s], t, j);
            exp_of(p, l, after_emission.log_prob_at(&tr.subs[s], t, j));
        }
    }
    assert forall|s: int| 0 <= s < count implies (#[trigger] old(s)).nc == nc && old(s).wf() && 0real
        < old(s).mass() && linear_in_counts(ln, old(s), new(s), counts(s), m, g, r) by {
        assert(likelihoods_of(&h.emission, &tr.subs[s], &frames[s]));
        assert(likelihoods_of(after_emission, &tr.subs[s], &new_frames[s]));
        assert(counts_among(p, &tr.subs[s]));
        let sub = &tr.subs[s];
        let x_s = counts(s);
        assert forall|t: int, j: int|
            0 <= t < old(s).n && 0 <= j < old(s).nc && 0real < #[trigger] old(s).at(t, j) implies ln(
            (new(s).emit)(t, j),
        ) - ln((old(s).emit)(t, j)) == rsum(m, |f: int| x_s(t, f) * g(j, f) - r(j, f)) by {
            row_log_reads(p, l, val, ln, &h.emission, sub, t, j);
            row_log_reads(p, l, val, ln, after_emission, sub, t, j);
            assert((old(s).emit)(t, j) == val(frames[s].at(t, j)));
            assert((new(s).emit)(t, j) == val(new_frames[s].at(t, j)));
            assert(frames[s].at(t, j) == h.emission.log_prob_at(sub, t, j).s_exp());
            assert(new_frames[s].at(t, j) == after_emission.log_prob_at(sub, t, j).s_exp());
            let row = |f: int| val(sub.at(t, f));
            let u = |f: int| ln(val(new_ep.at(j, f)));
            let v = |f: int| ln(val(ep.at(j, f)));
            rsum_of_differences(m, row, u, v);
            rsum_ext(
                m,
                |f: int| val(sub.at(t, f)) * ln(val(after_emission.emissionprob->0.at(j, f))),
                |f: int| row(f) * u(f),
            );
            rsum_ext(
                m,
                |f: int| val(sub.at(t, f)) * ln(val(h.emission.emissionprob->0.at(j, f))),
                |f: int| row(f) * v(f),
            );
            rsum_ext(
                m,
                |f: int| row(f) * (u(f) - v(f)),
                |f: int| x_s(t, f) * g(j, f) - r(j, f),
            );
        }
    }
    counts_gain(ln, count, old, new, nc, counts, m, g, r);
    assert forall|s: int, t: int, j: int|
        0 <= s < count && 0 <= t < frames[s].rows.len() && 0 <= j < frames[s].ncols && 0real
            < #[trigger] trellises_of(val, start, trans, frames)(s).at(t, j) implies 0real < val(
        new_frames[s].at(t, j),
    ) by {
        assert(0real < old(s).at(t, j));
        assert(old(s).nc == nc);
        assert(likelihoods_of(after_emission, &tr.subs[s], &new_frames[s]));
        assert(counts_among(p, &tr.subs[s]));
        row_log_reads(p, l, val, ln, after_emission, &tr.subs[s], t, j);
        exp_of(p, l, after_emission.log_prob_at(&tr.subs[s], t, j));
        read_sign(p, val, new_frames[s].at(t, j));
    }
    rsum_ext(
        count,
        |s: int| frames_gain(ln, old(s), new(s)),
        |s: int|
            frames_gain(
                ln,
                trellises_of(val, start, trans, frames)(s),
                trellises_of(val, after.start_prob@, &after.trans_mat, new_frames)(s),
            ),
    );
}

/// `framing` gives the likelihoods of the rows of every sequence.
pub open spec fn frames_rows<T: Dense>(
    x: &Matrix<T>,
    ranges: Seq<(usize, usize)>,
    framing: spec_fn(MultinomialEm<T>, int) -> Matrix<T>,
) -> bool {
    forall|e: MultinomialEm<T>, s: int, sub: Matrix<T>|
        #![trigger likelihoods_of(&e, &sub, &framing(e, s))]
        0 <= s < ranges.len() && e.fits() && is_slice(
            x,
            ranges[s].0 as int,
            ranges[s].1 as int,
            &sub,
        ) ==> likelihoods_of(&e, &sub, &framing(e, s))
}

/// Emissions with category probabilities of exact numbers for the columns of `x`.
pub open spec fn categories_for<T: Dense>(
    p: Set<T>,
    x: &Matrix<T>,
) -> spec_fn(MultinomialEm<T>) -> bool {
    |e: MultinomialEm<T>| flat_categories(p, &e) && e.categories() == x.ncols
}

/// Every emission.
pub open spec fn any_emission<T: Dense>() -> spec_fn(MultinomialEm<T>) -> bool {
    |e: MultinomialEm<T>| true
}

proof fn row_frames<T: Dense>(
    p: Set<T>,
    l: Set<T>,
    val: spec_fn(T) -> real,
    ln: spec_fn(real) -> real,
    implementation: Implementation,
    x: &Matrix<T>,
    ranges: Seq<(usize, usize)>,
    framing: spec_fn(MultinomialEm<T>, int) -> Matrix<T>,
)
    requires
        exact_reading(p, l, val, ln),
        exact_powers(p, l, val, ln),
        counts_among(p, x),
        frames_rows(x, ranges, framing),
    ensures
        frames_sequences(l, implementation, x, ranges, framing, categories_for(p, x)),
{
    let sound = categories_for(p, x);
    assert forall|e: MultinomialEm<T>, mode: FbMode, sub: Matrix<T>, own: Matrix<T>, s: int|
        #![trigger frames_of(&e, implementation, mode, &sub, &own), framing(e, s)]
        0 <= s < ranges.len() && sound(e) && is_slice(
            x,
            ranges[s].0 as int,
            ranges[s].1 as int,
            &sub,
        ) && frames_of(&e, implementation, mode, &sub, &own) implies frames_match(
        implementation,
        l,
        &own,
        &framing(e, s),
    ) && own.dims() == framing(e, s).dims() by {
        let frames = framing(e, s);
        assert(likelihoods_of(&e, &sub, &framing(e, s)));
        slice_among(p, x, ranges[s].0 as int, ranges[s].1 as int, &sub);
        assert forall|t: int, j: int|
            0 <= t < frames.rows.len() && 0 <= j < frames.ncols implies #[trigger] own.at(t, j)
            == frame_value(&e, implementation, mode, &sub, t, j) && l.contains(
            e.log_prob_at(&sub, t, j),
        ) by {
            row_log_reads(p, l, val, ln, &e, &sub, t, j);
        }
        assert forall|t: int, j: int|
            0 <= t < frames.rows.len() && 0 <= j < frames.ncols implies #[trigger] frames.at(t, j)
            == match implementation {
            Implementation::Log => own.at(t, j).s_exp(),
            Implementation::Scaling => own.at(t, j),
        } by {
            assert(own.at(t, j) == frame_value(&e, implementation, mode, &sub, t, j));
        }
    }
}

proof fn row_updates_gain<T: Dense>(
    p: Set<T>,
    l: Set<T>,
    val: spec_fn(T) -> real,
    ln: spec_fn(real) -> real,
    x: &Matrix<T>,
    ranges: Seq<(usize, usize)>,
    framing: spec_fn(MultinomialEm<T>, int) -> Matrix<T>,
)
    requires
        exact_reading(p, l, val, ln),
        exact_powers(p, l, val, ln),
        ranges.len() >= 1,
        x.ncols >= 1,
        counts_among(p, x),
        frames_rows(x, ranges, framing),
    ensures
        updates_gain(p, l, val, ln, x, ranges, framing, categories_for(p, x), any_emission()),
{
    let (sound, viable) = (categories_for(p, x), any_emission());
    let count = ranges.len() as int;
    assert forall|
        h: Hmm<T, MultinomialEm<T>>,
        trans: Matrix<T>,
        tr: EStep<T, MultinomialEm<T>>,
        after: Em<T>,
        after_emission: MultinomialEm<T>,
    |
        #![trigger exact_update(p, l, &h, x, ranges, &trans, tr, framed(framing, h.emission, count), &after), h.emission.mstep_rel(&tr.stats.last(), h.params, &after_emission)]
        sound(h.emission) && exact_update(
            p,
            l,
            &h,
            x,
            ranges,
            &trans,
            tr,
            framed(framing, h.emission, count),
            &after,
        ) && h.emission.mstep_rel(&tr.stats.last(), h.params, &after_emission) && viable(
            after_emission,
        ) implies sound(after_emission) && emission_gains(
        p,
        val,
        ln,
        h.inference.start_prob@,
        &trans,
        framed(framing, h.emission, count),
        &after,
        framed(framing, after_emission, count),
        count,
    ) by {
        let start = h.inference.start_prob@;
        let frames = framed(framing, h.emission, count);
        let new_frames = framed(framing, after_emission, count);
        assert(chain_in(p, start, &trans, &frames[0]));
        assert forall|s: int| 0 <= s < count implies counts_among(p, #[trigger] &tr.subs[s])
            && tr.subs[s].ncols == h.emission.categories() && likelihoods_of(
            &h.emission,
            &tr.subs[s],
            &framing(h.emission, s),
        ) by {
            assert(estep_at(&h, x, ranges, start, &trans, tr, s));
            slice_among(p, x, ranges[s].0 as int, ranges[s].1 as int, &tr.subs[s]);
        }
        assert(counts_among(p, &tr.subs[0]));
        assert(h.emission.n_components == h.inference.n_components);
        if h.params.members().contains(Param::Emit) {
            stats_shaped(&h, x, ranges, start, &trans, tr, count, count);
        }
        assert(after_emission.fits());
        assert forall|s: int| 0 <= s < count implies likelihoods_of(
            &h.emission,
            &tr.subs[s],
            #[trigger] &frames[s],
        ) by {
            assert(counts_among(p, &tr.subs[s]));
        }
        assert forall|s: int| 0 <= s < count implies likelihoods_of(
            &after_emission,
            &tr.subs[s],
            #[trigger] &new_frames[s],
        ) by {
            assert(estep_at(&h, x, ranges, start, &trans, tr, s));
            assert(likelihoods_of(&after_emission, &tr.subs[s], &framing(after_emission, s)));
        }
        multinomial_emission_gains(
            p,
            l,
            val,
            ln,
            &h,
            x,
            ranges,
            &trans,
            tr,
            frames,
            &after,
            &after_emission,
            new_frames,
        );
    }
}

/// The statistics keep their shape.
proof fn stats_shaped<T: Dense>(
    h: &Hmm<T, MultinomialEm<T>>,
    x: &Matrix<T>,
    ranges: Seq<(usize, usize)>,
    start: Seq<T>,
    trans: &Matrix<T>,
    tr: EStep<T, MultinomialEm<T>>,
    count: int,
    k: int,
)
    requires
        estep_upto(h, x, ranges, start, trans, tr, count),
        h.params.members().contains(Param::Emit),
        0 <= k <= count,
    ensures
        tr.stats[k].obs.has_dims(h.emission.n_components as int, h.emission.categories()),
    decreases k,
{
    if k > 0 {
        stats_shaped(h, x, ranges, start, trans, tr, count, k - 1);
        assert(estep_at(h, x, ranges, start, trans, tr, k - 1));
    }
}

/// The history of a fit of a multinomial model never falls, and a score of the
/// fitted model on the observations that it was fitted to is not below the last
/// entry: in either implementation, where arithmetic is exact, under flat priors,
/// and where every model that the fit can start from gives every sequence a
/// probability.
pub proof fn multinomial_history_never_falls<T: Dense>(
    p: Set<T>,
    l: Set<T>,
    val: spec_fn(T) -> real,
    ln: spec_fn(real) -> real,
    pre: &Hmm<T, MultinomialEm<T>>,
    x: &Matrix<T>,
    lengths: Option<&[usize]>,
    fitted: Fitted<T, MultinomialEm<T>>,
    ranges: Seq<(usize, usize)>,
    framing: spec_fn(MultinomialEm<T>, int) -> Matrix<T>,
)
    requires
        exact_reading(p, l, val, ln),
        exact_powers(p, l, val, ln),
        fit_result(pre, x, lengths, Ok(fitted)),
        is_split(lengths, x.rows.len() as int, ranges),
        ranges.len() >= 1,
        x.ncols >= 1,
        counts_among(p, x),
        frames_rows(x, ranges, framing),
        forall|first: Hmm<T, MultinomialEm<T>>| #[trigger]
            prepared(pre, x, ranges.len() as int, &first) ==> flat_categories(p, &first.emission)
                && flat_chain(
                p,
                &first.inference,
                framed(framing, first.emission, ranges.len() as int),
                ranges.len() as int,
            ),
    ensures
        forall|k: int|
            0 <= k < fitted.0.monitor.history@.len() - 1 ==> !fitted.0.monitor.history@[k
                + 1].s_below(#[trigger] fitted.0.monitor.history@[k]),
        forall|score: T|
            fitted.0.monitor.history@.len() >= 1 && #[trigger] is_log_likelihood(
                &fitted.0,
                x,
                lengths,
                score,
            ) ==> !score.s_below(fitted.0.monitor.history@.last()),
{
    let count = ranges.len() as int;
    row_frames(p, l, val, ln, pre.implementation, x, ranges, framing);
    row_updates_gain(p, l, val, ln, x, ranges, framing);
    assert forall|first: Hmm<T, MultinomialEm<T>>| #[trigger]
        prepared(pre, x, count, &first) implies model_sound(
        p,
        &first,
        framing,
        categories_for(p, x),
        count,
    ) by {
        let looked = choose|looked: MultinomialEm<T>| #[trigger]
            initialized(pre, x, count, &looked, &first);
        assert(initialized(pre, x, count, &looked, &first));
    }
    history_never_falls(
        p,
        l,
        val,
        ln,
        pre,
        x,
        lengths,
        fitted,
        ranges,
        framing,
        categories_for(p, x),
        any_emission(),
    );
}

} // verus!
