//! Expectation-maximisation never lowers the likelihood of a categorical model, where
//! arithmetic is exact.

use crate::engine::agreement::{chain_in, exact_logs, likelihood, log_of};
use crate::engine::ascent::frames_gain;
use crate::engine::expected::exact_ln_1p;
use crate::engine::fit::{estep_at, estep_upto, fit_result, initialized, is_split, prepared, EStep};
use crate::engine::emission::is_slice;
use crate::engine::fitted::{is_log_likelihood, Fitted};
use crate::engine::hmm::{frame_value, frames_of, FbMode, Hmm};
use crate::engine::inference::{normalized_rows, Em, Inference};
use crate::engine::params::{Implementation, Param};
use crate::engine::raising::{
    distribution_reads, exact_sequences, exact_update, flat_chain, flat_updates, frames_in,
    frames_match, iteration_never_lowers_the_likelihood, posterior_reads, quotient_in,
    quotient_reads, quotients_sum_to_one, read_constants, read_sigma, read_sign, read_sum, reads,
    row_of, sums_to_one, trans_of, trellis_of, trellises_of, trellises_wf,
};
use crate::engine::rising::{
    emission_gains, exact_reading, framed, frames_sequences, history_never_falls, model_sound,
    updates_gain,
};
use crate::engine::scaled::exact_quotients;
use crate::engine::tables::{
    all_emits, emits, expected_labels_are_possible, shares, table_gains, table_kept_or_counted,
    tabled,
};
use crate::engine::EmissionModel;
use crate::exact::{added, constants, exact_numbers, lanes_are_sum};
use crate::linalg::Dense;
use crate::matrix::{row_total, Matrix};
use crate::models::categorical::{
    prior_counts, symbol_mass, symbol_of, symbols_below, CategoricalEm,
};
use crate::reals::{is_ln, labelled, rcount, rsum, rsum_ext, rsum_member, rsum_positive};
use crate::scalar::{larger_of, num, sigma, Scalar};
use crate::util::divisor;
use vstd::prelude::*;

verus! {

/// The symbol of each row.
pub open spec fn symbols_of<T: Scalar>(x: &Matrix<T>) -> spec_fn(int) -> int {
    |t: int| symbol_of(x.at(t, 0))
}

/// The symbols of each sequence.
pub open spec fn labels_of<T: Scalar>(subs: Seq<Matrix<T>>) -> spec_fn(int) -> spec_fn(int) -> int {
    |s: int| symbols_of(&subs[s])
}

/// A symbol's mass, read, is what it was and the weights of the rows with the symbol.
proof fn symbol_mass_reads<T: Scalar>(
    p: Set<T>,
    val: spec_fn(T) -> real,
    before: T,
    x: &Matrix<T>,
    post: &Matrix<T>,
    c: int,
    v: int,
    n: int,
    w: spec_fn(int) -> real,
)
    requires
        exact_numbers(p),
        reads(p, val),
        p.contains(before),
        forall|t: int|
            0 <= t < n ==> p.contains(#[trigger] post.at(t, c)) && val(post.at(t, c)) == w(t),
    ensures
        p.contains(symbol_mass(before, x, post, c, v, n)),
        val(symbol_mass(before, x, post, c, v, n)) == val(before) + rcount(n, symbols_of(x), w, v),
    decreases n,
{
    let term = labelled(symbols_of(x), w, v);
    if n > 0 {
        symbol_mass_reads(p, val, before, x, post, c, v, n - 1, w);
        let prev = symbol_mass(before, x, post, c, v, n - 1);
        assert(p.contains(post.at(n - 1, c)));
        assert(rsum(n, term) == rsum(n - 1, term) + term(n - 1));
        if symbol_of(x.at(n - 1, 0)) == v {
            added(p, prev, post.at(n - 1, c));
            read_sum(p, val, prev, post.at(n - 1, c));
        }
    }
}

/// The emission statistics after `k` sequences, read, are their expected counts.
proof fn emissions_read<T: Dense>(
    p: Set<T>,
    l: Set<T>,
    val: spec_fn(T) -> real,
    h: &Hmm<T, CategoricalEm<T>>,
    x: &Matrix<T>,
    ranges: Seq<(usize, usize)>,
    start: Seq<T>,
    trans: &Matrix<T>,
    tr: EStep<T, CategoricalEm<T>>,
    frames: Seq<Matrix<T>>,
    count: int,
    k: int,
    j: int,
    v: int,
)
    requires
        exact_numbers(p),
        exact_logs(p, l),
        reads(p, val),
        exact_quotients(p),
        trans.has_dims(h.inference.states(), h.inference.states()),
        h.params.members().contains(Param::Emit),
        estep_upto(h, x, ranges, start, trans, tr, count),
        exact_sequences(p, l, h.implementation, start, trans, tr, frames, count),
        0 <= k <= count,
        0 <= j < h.emission.n_components,
        0 <= v < h.emission.symbols(),
    ensures
        p.contains(tr.stats[k].obs.at(j, v)),
        val(tr.stats[k].obs.at(j, v)) == all_emits(
            k,
            trellises_of(val, start, trans, frames),
            labels_of(tr.subs),
            j,
            v,
        ),
    decreases k,
{
    let old = trellises_of(val, start, trans, frames);
    let labels = labels_of(tr.subs);
    let f = |s: int| emits(old(s), labels(s), j, v);
    constants(p);
    read_constants(p, val);
    if k > 0 {
        emissions_read(p, l, val, h, x, ranges, start, trans, tr, frames, count, k - 1, j, v);
        assert(estep_at(h, x, ranges, start, trans, tr, k - 1));
        let fb = tr.fbs[k - 1];
        let sub = &tr.subs[k - 1];
        let c = trellis_of(val, start, trans, &frames[k - 1]);
        assert(chain_in(p, start, trans, &frames[k - 1]));
        let w = shares(c, j);
        assert forall|t: int| 0 <= t < c.n implies p.contains(#[trigger] fb.posteriors.at(t, j))
            && val(fb.posteriors.at(t, j)) == w(t) by {
            posterior_reads(
                p,
                l,
                val,
                h.implementation,
                start,
                trans,
                &frames[k - 1],
                &fb,
                t,
                j,
            );
        }
        let before = tr.stats[k - 1].obs.at(j, v);
        symbol_mass_reads(p, val, before, sub, &fb.posteriors, j, v, c.n, w);
        assert(tr.stats[k].obs.at(j, v) == symbol_mass(
            before,
            sub,
            &fb.posteriors,
            j,
            v,
            sub.rows.len() as int,
        ));
        assert(rsum(k, f) == rsum(k - 1, f) + f(k - 1));
    } else {
        assert(tr.stats[0].obs.at(j, v) == num::<T>(0));
    }
}

/// Emission probabilities over exact numbers under a flat prior: each row sums to 1
/// or, as that of a state that was never visited, is all zero.
pub open spec fn flat_emission<T: Dense>(p: Set<T>, emission: &CategoricalEm<T>) -> bool {
    &&& emission.fits()
    &&& emission.emissionprob_prior == num::<T>(1)
    &&& forall|j: int|
        0 <= j < emission.n_components ==> sums_to_one(
            emission.symbols(),
            #[trigger] row_of(&emission.emissionprob->0, j),
        )
    &&& forall|j: int, v: int|
        0 <= j < emission.n_components && 0 <= v < emission.symbols() ==> p.contains(
            #[trigger] emission.emissionprob->0.at(j, v),
        )
}

/// An iteration of a categorical model, over exact numbers and under flat priors:
/// `frames` are the emission probabilities that the E-step worked with, and
/// `new_frames` those after the M-step.
pub open spec fn exact_iteration<T: Dense>(
    p: Set<T>,
    l: Set<T>,
    h: &Hmm<T, CategoricalEm<T>>,
    x: &Matrix<T>,
    ranges: Seq<(usize, usize)>,
    trans: &Matrix<T>,
    tr: EStep<T, CategoricalEm<T>>,
    frames: Seq<Matrix<T>>,
    after: &Em<T>,
    after_emission: &CategoricalEm<T>,
    new_frames: Seq<Matrix<T>>,
) -> bool {
    let emission = h.emission;
    &&& exact_update(p, l, h, x, ranges, trans, tr, frames, after)
    &&& flat_emission(p, &emission)
    &&& emission.n_components == h.inference.n_components
    &&& emission.mstep_rel(&tr.stats.last(), h.params, after_emission)
    &&& forall|s: int|
        0 <= s < ranges.len() ==> symbols_below(#[trigger] &tr.subs[s], emission.symbols())
    &&& forall|s: int|
        0 <= s < ranges.len() ==> probabilities_of(&emission, &tr.subs[s], #[trigger] &frames[s])
    &&& forall|s: int|
        0 <= s < ranges.len() ==> probabilities_of(
            after_emission,
            &tr.subs[s],
            #[trigger] &new_frames[s],
        )
}

/// `frames` holds the probabilities of the symbols of `sub` in each state.
pub open spec fn probabilities_of<T: Scalar>(
    emission: &CategoricalEm<T>,
    sub: &Matrix<T>,
    frames: &Matrix<T>,
) -> bool {
    &&& frames.has_dims(sub.rows.len() as int, emission.n_components as int)
    &&& forall|t: int, j: int|
        0 <= t < sub.rows.len() && 0 <= j < emission.n_components ==> #[trigger] frames.at(t, j)
            == emission.prob_at(sub, t, j)
}

/// The frames of the E-step, read, hold the entries of the emission probabilities.
proof fn frames_tabled<T: Dense>(
    p: Set<T>,
    l: Set<T>,
    val: spec_fn(T) -> real,
    h: &Hmm<T, CategoricalEm<T>>,
    x: &Matrix<T>,
    ranges: Seq<(usize, usize)>,
    trans: &Matrix<T>,
    tr: EStep<T, CategoricalEm<T>>,
    frames: Seq<Matrix<T>>,
    after: &Em<T>,
)
    requires
        exact_numbers(p),
        exact_logs(p, l),
        reads(p, val),
        exact_update(p, l, h, x, ranges, trans, tr, frames, after),
        h.emission.n_components == h.inference.n_components,
        forall|s: int|
            0 <= s < ranges.len() ==> symbols_below(#[trigger] &tr.subs[s], h.emission.symbols()),
        forall|s: int|
            0 <= s < ranges.len() ==> probabilities_of(
                &h.emission,
                &tr.subs[s],
                #[trigger] &frames[s],
            ),
    ensures
        forall|s: int|
            0 <= s < ranges.len() ==> {
                let old = #[trigger] trellises_of(val, h.inference.start_prob@, trans, frames)(s);
                &&& old.nc == h.emission.n_components
                &&& old.wf()
                &&& 0real < old.mass()
                &&& tabled(
                    old,
                    labels_of(tr.subs)(s),
                    h.emission.symbols(),
                    trans_of(val, &h.emission.emissionprob->0),
                )
            },
{
    let start = h.inference.start_prob@;
    let nc = h.emission.n_components as int;
    let m = h.emission.symbols();
    let old = trellises_of(val, start, trans, frames);
    let labels = labels_of(tr.subs);
    let table = trans_of(val, &h.emission.emissionprob->0);
    trellises_wf(p, l, val, h, x, ranges, trans, tr, frames, after);
    assert forall|s: int| 0 <= s < ranges.len() implies (#[trigger] old(s)).nc == nc && old(s).wf()
        && 0real < old(s).mass() && tabled(old(s), labels(s), m, table) by {
        assert(symbols_below(&tr.subs[s], m));
        assert(probabilities_of(&h.emission, &tr.subs[s], &frames[s]));
        let label = labels(s);
        assert forall|t: int| 0 <= t < old(s).n implies 0 <= #[trigger] label(t) < m by {
            assert(symbol_of(tr.subs[s].at(t, 0)) < m);
        }
        assert forall|t: int, j: int| 0 <= t < old(s).n && 0 <= j < nc implies #[trigger] (
        old(s).emit)(t, j) == table(j, label(t)) by {
            assert(frames[s].at(t, j) == h.emission.prob_at(&tr.subs[s], t, j));
        }
    }
}

/// A row of the new emission probabilities, read, is the old one or that of the
/// counts.
proof fn emission_row_counted<T: Dense>(
    p: Set<T>,
    l: Set<T>,
    val: spec_fn(T) -> real,
    h: &Hmm<T, CategoricalEm<T>>,
    x: &Matrix<T>,
    ranges: Seq<(usize, usize)>,
    trans: &Matrix<T>,
    tr: EStep<T, CategoricalEm<T>>,
    frames: Seq<Matrix<T>>,
    after: &Em<T>,
    after_emission: &CategoricalEm<T>,
    new_frames: Seq<Matrix<T>>,
    j: int,
)
    requires
        exact_numbers(p),
        exact_logs(p, l),
        reads(p, val),
        flat_updates(p),
        exact_iteration(
            p,
            l,
            h,
            x,
            ranges,
            trans,
            tr,
            frames,
            after,
            after_emission,
            new_frames,
        ),
        0 <= j < h.emission.n_components,
    ensures
        table_kept_or_counted(
            ranges.len() as int,
            trellises_of(val, h.inference.start_prob@, trans, frames),
            labels_of(tr.subs),
            h.emission.symbols(),
            trans_of(val, &h.emission.emissionprob->0),
            trans_of(val, &after_emission.emissionprob->0),
            j,
        ),
        forall|v: int|
            0 <= v < h.emission.symbols() ==> p.contains(
                #[trigger] after_emission.emissionprob->0.at(j, v),
            ),
        after_emission.fits(),
        sums_to_one(h.emission.symbols(), row_of(&after_emission.emissionprob->0, j)),
{
    let count = ranges.len() as int;
    let m = h.emission.symbols();
    let start = h.inference.start_prob@;
    let old = trellises_of(val, start, trans, frames);
    let labels = labels_of(tr.subs);
    let ep = &h.emission.emissionprob->0;
    let new_ep = &after_emission.emissionprob->0;
    let (table, new_table) = (trans_of(val, ep), trans_of(val, new_ep));
    let a = |v: int| table(j, v);
    let c = |v: int| all_emits(count, old, labels, j, v);
    let b = |v: int| new_table(j, v);
    if h.params.members().contains(Param::Emit) {
        let obs = &tr.stats.last().obs;
        let raw = choose|raw: Matrix<T>| #[trigger]
            prior_counts(h.emission.emissionprob_prior, obs, &raw) && normalized_rows(&raw, new_ep);
        assert(estep_at(h, x, ranges, start, trans, tr, count - 1));
        let f = |v: int| raw.at(j, v);
        assert forall|v: int| 0 <= v < m implies p.contains(#[trigger] f(v)) && val(f(v)) == c(v)
            && 0real <= c(v) by {
            reveal(flat_updates);
            emissions_read(
                p,
                l,
                val,
                h,
                x,
                ranges,
                start,
                trans,
                tr,
                frames,
                count,
                count,
                j,
                v,
            );
            let o = obs.at(j, v);
            assert(raw.at(j, v) == larger_of(num::<T>(1).s_minus(num(1)).s_plus(o), num(0)));
            read_sign(p, val, o);
        }
        assert forall|v: int| 0 <= v < m implies 0real <= #[trigger] c(v) by {
            assert(p.contains(f(v)));
        }
        read_sigma(p, val, m, f, c);
        let d = row_total(&raw, j);
        lanes_are_sum(p, m, f);
        assert(d == sigma(m, f));
        assert forall|v: int| 0 <= v < m implies #[trigger] b(v) * rsum(m, c) == c(v) by {
            assert(p.contains(f(v)));
            rsum_member(m, c, v);
            assert(new_ep.at(j, v) == raw.at(j, v).s_over(divisor(d)));
            quotient_reads(p, val, raw.at(j, v), d, new_ep.at(j, v));
        }
        assert forall|v: int| 0 <= v < m implies p.contains(#[trigger] new_ep.at(j, v)) by {
            assert(p.contains(f(v)));
            assert(new_ep.at(j, v) == raw.at(j, v).s_over(divisor(d)));
            quotient_in(p, val, raw.at(j, v), d, new_ep.at(j, v));
        }
        let q = row_of(new_ep, j);
        assert forall|v: int| 0 <= v < m implies if d.s_same(num(0)) {
            #[trigger] q(v) == f(v) || q(v) == f(v).s_over(num(1))
        } else {
            q(v) == f(v).s_over(d)
        } by {
            assert(new_ep.at(j, v) == raw.at(j, v).s_over(divisor(d)));
        }
        quotients_sum_to_one(p, val, m, f, d, q);
        let g = row_of(ep, j);
        assert forall|v: int| 0 <= v < m implies p.contains(#[trigger] g(v)) && val(g(v)) == a(v) by {
            assert(p.contains(ep.at(j, v)));
        }
        if 0real < rsum(m, c) {
            let k = rsum_positive(m, c);
            frames_tabled(p, l, val, h, x, ranges, trans, tr, frames, after);
            let nc = h.emission.n_components as int;
            expected_labels_are_possible(count, old, nc, labels, m, table, j, k);
            distribution_reads(p, val, m, g, a, k);
        }
    } else {
        assert forall|v: int| 0 <= v < m implies #[trigger] b(v) == a(v) by {
        }
    }
}

/// The update of the emission probabilities does not lower the expected
/// log-likelihood of the frames.
proof fn categorical_emission_gains<T: Dense>(
    p: Set<T>,
    l: Set<T>,
    val: spec_fn(T) -> real,
    ln: spec_fn(real) -> real,
    h: &Hmm<T, CategoricalEm<T>>,
    x: &Matrix<T>,
    ranges: Seq<(usize, usize)>,
    trans: &Matrix<T>,
    tr: EStep<T, CategoricalEm<T>>,
    frames: Seq<Matrix<T>>,
    after: &Em<T>,
    after_emission: &CategoricalEm<T>,
    new_frames: Seq<Matrix<T>>,
)
    requires
        exact_numbers(p),
        exact_logs(p, l),
        exact_ln_1p(p, l),
        reads(p, val),
        flat_updates(p),
        is_ln(ln),
        exact_iteration(
            p,
            l,
            h,
            x,
            ranges,
            trans,
            tr,
            frames,
            after,
            after_emission,
            new_frames,
        ),
    ensures
        flat_emission(p, after_emission),
        emission_gains(
            p,
            val,
            ln,
            h.inference.start_prob@,
            trans,
            frames,
            after,
            new_frames,
            ranges.len() as int,
        ),
{
    let count = ranges.len() as int;
    let nc = h.emission.n_components as int;
    let m = h.emission.symbols();
    let start = h.inference.start_prob@;
    let old = trellises_of(val, start, trans, frames);
    let new = trellises_of(val, after.start_prob@, &after.trans_mat, new_frames);
    let labels = labels_of(tr.subs);
    let ep = &h.emission.emissionprob->0;
    let new_ep = &after_emission.emissionprob->0;
    let (table, new_table) = (trans_of(val, ep), trans_of(val, new_ep));
    trellises_wf(p, l, val, h, x, ranges, trans, tr, frames, after);
    frames_tabled(p, l, val, h, x, ranges, trans, tr, frames, after);
    assert forall|s: int| 0 <= s < count implies (#[trigger] old(s)).nc == nc && old(s).wf() && 0real
        < old(s).mass() && new(s).nc == nc && new(s).n == old(s).n && tabled(
        old(s),
        labels(s),
        m,
        table,
    ) && tabled(new(s), labels(s), m, new_table) by {
        assert(symbols_below(&tr.subs[s], m));
        assert(probabilities_of(&h.emission, &tr.subs[s], &frames[s]));
        assert(probabilities_of(after_emission, &tr.subs[s], &new_frames[s]));
        let label = labels(s);
        assert forall|t: int, j: int| 0 <= t < old(s).n && 0 <= j < nc implies #[trigger] (
        new(s).emit)(t, j) == new_table(j, label(t)) by {
            assert(new_frames[s].at(t, j) == after_emission.prob_at(&tr.subs[s], t, j));
        }
    }
    assert forall|j: int, v: int| 0 <= j < nc && 0 <= v < m implies 0real <= #[trigger] table(
        j,
        v,
    ) by {
        assert(p.contains(ep.at(j, v)));
        read_sign(p, val, ep.at(j, v));
    }
    assert forall|j: int| 0 <= j < nc implies #[trigger] table_kept_or_counted(
        count,
        old,
        labels,
        m,
        table,
        new_table,
        j,
    ) by {
        emission_row_counted(
            p,
            l,
            val,
            h,
            x,
            ranges,
            trans,
            tr,
            frames,
            after,
            after_emission,
            new_frames,
            j,
        );
    }
    table_gains(ln, count, old, new, nc, labels, m, table, new_table);
    assert forall|s: int| 0 <= s < count implies frames_in(p, #[trigger] &new_frames[s])
        && new_frames[s].dims() == frames[s].dims() by {
        assert(symbols_below(&tr.subs[s], m));
        assert(probabilities_of(&h.emission, &tr.subs[s], &frames[s]));
        assert(probabilities_of(after_emission, &tr.subs[s], &new_frames[s]));
        assert forall|t: int, j: int|
            0 <= t < new_frames[s].rows.len() && 0 <= j < new_frames[s].ncols implies p.contains(
            #[trigger] new_frames[s].at(t, j),
        ) by {
            emission_row_counted(
                p,
                l,
                val,
                h,
                x,
                ranges,
                trans,
                tr,
                frames,
                after,
                after_emission,
                new_frames,
                j,
            );
            assert(symbol_of(tr.subs[s].at(t, 0)) < m);
            assert(new_frames[s].at(t, j) == after_emission.prob_at(&tr.subs[s], t, j));
        }
    }
    assert forall|s: int, t: int, j: int|
        0 <= s < ranges.len() && 0 <= t < frames[s].rows.len() && 0 <= j < frames[s].ncols && 0real
            < #[trigger] trellises_of(val, start, trans, frames)(s).at(t, j) implies 0real < val(
        new_frames[s].at(t, j),
    ) by {
        assert(0real < old(s).at(t, j));
        assert(old(s).nc == nc);
        assert(0real < (new(s).emit)(t, j));
    }
    rsum_ext(
        count,
        |s: int| frames_gain(ln, old(s), new(s)),
        |s: int|
            frames_gain(
                ln,
                trellises_of(val, start, trans, frames)(s),
                trellises_of(val, after.start_prob@, &after.trans_mat, new_frames)(s),
            ),
    );
    assert(old(0).nc == nc);
    emission_row_counted(
        p,
        l,
        val,
        h,
        x,
        ranges,
        trans,
        tr,
        frames,
        after,
        after_emission,
        new_frames,
        0,
    );
    assert forall|j: int| 0 <= j < nc implies sums_to_one(m, #[trigger] row_of(new_ep, j)) by {
        emission_row_counted(
            p,
            l,
            val,
            h,
            x,
            ranges,
            trans,
            tr,
            frames,
            after,
            after_emission,
            new_frames,
            j,
        );
    }
    assert forall|j: int, v: int| 0 <= j < nc && 0 <= v < m implies p.contains(
        #[trigger] new_ep.at(j, v),
    ) by {
        emission_row_counted(
            p,
            l,
            val,
            h,
            x,
            ranges,
            trans,
            tr,
            frames,
            after,
            after_emission,
            new_frames,
            j,
        );
    }
}

/// An iteration of expectation-maximisation never lowers the log-likelihood of the
/// sequences under a categorical model: whichever of the start distribution, the
/// transitions and the emission probabilities are updated, the likelihood under the
/// new parameters is no smaller than that under the old.
pub proof fn categorical_iteration_never_lowers_the_likelihood<T: Dense>(
    p: Set<T>,
    l: Set<T>,
    val: spec_fn(T) -> real,
    ln: spec_fn(real) -> real,
    h: &Hmm<T, CategoricalEm<T>>,
    x: &Matrix<T>,
    ranges: Seq<(usize, usize)>,
    trans: &Matrix<T>,
    tr: EStep<T, CategoricalEm<T>>,
    frames: Seq<Matrix<T>>,
    after: &Em<T>,
    after_emission: &CategoricalEm<T>,
    new_frames: Seq<Matrix<T>>,
)
    requires
        exact_numbers(p),
        exact_logs(p, l),
        exact_ln_1p(p, l),
        reads(p, val),
        flat_updates(p),
        is_ln(ln),
        exact_iteration(
            p,
            l,
            h,
            x,
            ranges,
            trans,
            tr,
            frames,
            after,
            after_emission,
            new_frames,
        ),
    ensures
        rsum(
            ranges.len() as int,
            |s: int| ln(val(likelihood(h.inference.start_prob@, trans, &frames[s]))),
        ) <= rsum(
            ranges.len() as int,
            |s: int| ln(val(likelihood(after.start_prob@, &after.trans_mat, &new_frames[s]))),
        ),
        flat_chain(p, after, new_frames, ranges.len() as int),
        flat_emission(p, after_emission),
{
    categorical_emission_gains(
        p,
        l,
        val,
        ln,
        h,
        x,
        ranges,
        trans,
        tr,
        frames,
        after,
        after_emission,
        new_frames,
    );
    iteration_never_lowers_the_likelihood(
        p,
        l,
        val,
        ln,
        h,
        x,
        ranges,
        trans,
        tr,
        frames,
        after,
        new_frames,
    );
}

/// `framing` gives the probabilities of the symbols of every sequence.
pub open spec fn frames_symbols<T: Dense>(
    x: &Matrix<T>,
    ranges: Seq<(usize, usize)>,
    framing: spec_fn(CategoricalEm<T>, int) -> Matrix<T>,
) -> bool {
    forall|e: CategoricalEm<T>, s: int, sub: Matrix<T>|
        #![trigger probabilities_of(&e, &sub, &framing(e, s))]
        0 <= s < ranges.len() && e.fits() && is_slice(
            x,
            ranges[s].0 as int,
            ranges[s].1 as int,
            &sub,
        ) ==> probabilities_of(&e, &sub, &framing(e, s))
}

/// Emissions with flat probabilities of all symbols of `x`.
pub open spec fn flat_for<T: Dense>(p: Set<T>, x: &Matrix<T>) -> spec_fn(CategoricalEm<T>) -> bool {
    |e: CategoricalEm<T>| flat_emission(p, &e) && symbols_below(x, e.symbols())
}

/// Every emission.
pub open spec fn any_emission<T: Dense>() -> spec_fn(CategoricalEm<T>) -> bool {
    |e: CategoricalEm<T>| true
}

proof fn symbol_frames<T: Dense>(
    p: Set<T>,
    l: Set<T>,
    implementation: Implementation,
    x: &Matrix<T>,
    ranges: Seq<(usize, usize)>,
    framing: spec_fn(CategoricalEm<T>, int) -> Matrix<T>,
)
    requires
        exact_logs(p, l),
        frames_symbols(x, ranges, framing),
    ensures
        frames_sequences(l, implementation, x, ranges, framing, flat_for(p, x)),
{
    let sound = flat_for(p, x);
    assert forall|e: CategoricalEm<T>, mode: FbMode, sub: Matrix<T>, own: Matrix<T>, s: int|
        #![trigger frames_of(&e, implementation, mode, &sub, &own), framing(e, s)]
        0 <= s < ranges.len() && sound(e) && is_slice(
            x,
            ranges[s].0 as int,
            ranges[s].1 as int,
            &sub,
        ) && frames_of(&e, implementation, mode, &sub, &own) implies frames_match(
        implementation,
        l,
        &own,
        &framing(e, s),
    ) && own.dims() == framing(e, s).dims() by {
        let frames = framing(e, s);
        assert(probabilities_of(&e, &sub, &framing(e, s)));
        e.slices_observable(x, ranges[s].0 as int, ranges[s].1 as int, &sub);
        assert forall|t: int, j: int|
            0 <= t < frames.rows.len() && 0 <= j < frames.ncols implies #[trigger] own.at(t, j)
            == frame_value(&e, implementation, mode, &sub, t, j) && frames.at(t, j) == e.prob_at(
            &sub,
            t,
            j,
        ) && l.contains(frames.at(t, j).s_ln()) && frames.at(t, j).s_ln().s_exp() == frames.at(
            t,
            j,
        ) by {
            assert(frames.at(t, j) == e.prob_at(&sub, t, j));
            assert(symbol_of(sub.at(t, 0)) < e.symbols());
            assert(p.contains(e.emissionprob->0.at(j, symbol_of(sub.at(t, 0)))));
            log_of(p, l, frames.at(t, j));
        }
        assert forall|t: int, j: int|
            0 <= t < frames.rows.len() && 0 <= j < frames.ncols implies #[trigger] frames.at(t, j)
            == match implementation {
            Implementation::Log => own.at(t, j).s_exp(),
            Implementation::Scaling => own.at(t, j),
        } by {
            assert(own.at(t, j) == frame_value(&e, implementation, mode, &sub, t, j));
        }
    }
}

proof fn symbol_updates_gain<T: Dense>(
    p: Set<T>,
    l: Set<T>,
    val: spec_fn(T) -> real,
    ln: spec_fn(real) -> real,
    x: &Matrix<T>,
    ranges: Seq<(usize, usize)>,
    framing: spec_fn(CategoricalEm<T>, int) -> Matrix<T>,
)
    requires
        exact_reading(p, l, val, ln),
        ranges.len() >= 1,
        frames_symbols(x, ranges, framing),
    ensures
        updates_gain(p, l, val, ln, x, ranges, framing, flat_for(p, x), any_emission()),
{
    let (sound, viable) = (flat_for(p, x), any_emission());
    let count = ranges.len() as int;
    assert forall|
        h: Hmm<T, CategoricalEm<T>>,
        trans: Matrix<T>,
        tr: EStep<T, CategoricalEm<T>>,
        after: Em<T>,
        after_emission: CategoricalEm<T>,
    |
        #![trigger exact_update(p, l, &h, x, ranges, &trans, tr, framed(framing, h.emission, count), &after), h.emission.mstep_rel(&tr.stats.last(), h.params, &after_emission)]
        sound(h.emission) && exact_update(
            p,
            l,
            &h,
            x,
            ranges,
            &trans,
            tr,
            framed(framing, h.emission, count),
            &after,
        ) && h.emission.mstep_rel(&tr.stats.last(), h.params, &after_emission) && viable(
            after_emission,
        ) implies sound(after_emission) && emission_gains(
        p,
        val,
        ln,
        h.inference.start_prob@,
        &trans,
        framed(framing, h.emission, count),
        &after,
        framed(framing, after_emission, count),
        count,
    ) by {
        let start = h.inference.start_prob@;
        let frames = framed(framing, h.emission, count);
        let new_frames = framed(framing, after_emission, count);
        assert(estep_at(&h, x, ranges, start, &trans, tr, count - 1));
        assert(after_emission.fits());
        assert forall|s: int| 0 <= s < count implies symbols_below(
            #[trigger] &tr.subs[s],
            h.emission.symbols(),
        ) && probabilities_of(&h.emission, &tr.subs[s], &framing(h.emission, s))
            && probabilities_of(&after_emission, &tr.subs[s], &framing(after_emission, s)) by {
            assert(estep_at(&h, x, ranges, start, &trans, tr, s));
            h.emission.slices_observable(
                x,
                ranges[s].0 as int,
                ranges[s].1 as int,
                &tr.subs[s],
            );
        }
        assert forall|s: int| 0 <= s < count implies probabilities_of(
            &h.emission,
            &tr.subs[s],
            #[trigger] &frames[s],
        ) by {
            assert(symbols_below(&tr.subs[s], h.emission.symbols()));
        }
        assert forall|s: int| 0 <= s < count implies probabilities_of(
            &after_emission,
            &tr.subs[s],
            #[trigger] &new_frames[s],
        ) by {
            assert(symbols_below(&tr.subs[s], h.emission.symbols()));
        }
        assert(chain_in(p, start, &trans, &frames[0]));
        categorical_emission_gains(
            p,
            l,
            val,
            ln,
            &h,
            x,
            ranges,
            &trans,
            tr,
            frames,
            &after,
            &after_emission,
            new_frames,
        );
    }
}

/// The history of a fit of a categorical model never falls, and a score of the
/// fitted model on the observations that it was fitted to is not below the last
/// entry: in either implementation, where arithmetic is exact, under flat priors,
/// and where every model that the fit can start from gives every sequence a
/// probability.
pub proof fn categorical_history_never_falls<T: Dense>(
    p: Set<T>,
    l: Set<T>,
    val: spec_fn(T) -> real,
    ln: spec_fn(real) -> real,
    pre: &Hmm<T, CategoricalEm<T>>,
    x: &Matrix<T>,
    lengths: Option<&[usize]>,
    fitted: Fitted<T, CategoricalEm<T>>,
    ranges: Seq<(usize, usize)>,
    framing: spec_fn(CategoricalEm<T>, int) -> Matrix<T>,
)
    requires
        exact_reading(p, l, val, ln),
        fit_result(pre, x, lengths, Ok(fitted)),
        is_split(lengths, x.rows.len() as int, ranges),
        ranges.len() >= 1,
        x.ncols >= 1,
        frames_symbols(x, ranges, framing),
        forall|first: Hmm<T, CategoricalEm<T>>| #[trigger]
            prepared(pre, x, ranges.len() as int, &first) ==> flat_emission(p, &first.emission)
                && flat_chain(
                p,
                &first.inference,
                framed(framing, first.emission, ranges.len() as int),
                ranges.len() as int,
            ),
    ensures
        forall|k: int|
            0 <= k < fitted.0.monitor.history@.len() - 1 ==> !fitted.0.monitor.history@[k
                + 1].s_below(#[trigger] fitted.0.monitor.history@[k]),
        forall|score: T|
            fitted.0.monitor.history@.len() >= 1 && #[trigger] is_log_likelihood(
                &fitted.0,
                x,
                lengths,
                score,
            ) ==> !score.s_below(fitted.0.monitor.history@.last()),
{
    let count = ranges.len() as int;
    symbol_frames(p, l, pre.implementation, x, ranges, framing);
    symbol_updates_gain(p, l, val, ln, x, ranges, framing);
    assert forall|first: Hmm<T, CategoricalEm<T>>| #[trigger]
        prepared(pre, x, count, &first) implies model_sound(
        p,
        &first,
        framing,
        flat_for(p, x),
        count,
    ) by {
        let looked = choose|looked: CategoricalEm<T>| #[trigger]
            initialized(pre, x, count, &looked, &first);
        assert(initialized(pre, x, count, &looked, &first));
        assert forall|t: int| 0 <= t < x.rows.len() implies symbol_of(#[trigger] x.at(t, 0))
            < first.emission.symbols() by {
        }
    }
    history_never_falls(
        p,
        l,
        val,
        ln,
        pre,
        x,
        lengths,
        fitted,
        ranges,
        framing,
        flat_for(p, x),
        any_emission(),
    );
}

} // verus!
