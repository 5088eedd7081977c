//! What the statistics and weights of a Gaussian mixture add up to, where
//! arithmetic is exact.

use crate::engine::agreement::{exact_logs, log_constants, shares_sum_to_one};
use crate::engine::emission::EmissionModel;
use crate::engine::fit::{estep_at, estep_upto, EStep};
use crate::engine::hmm::Hmm;
use crate::engine::params::{Param, ParamSet};
use crate::exact::{
    added, constants, exact_numbers, lanes_are_sum, multiplied, sum_in, sum_of_multiples,
    sum_of_pairs, sum_of_zeros,
};
use crate::linalg::Dense;
use crate::matrix::{row_total, Matrix};
use crate::models::gmm::{GmmEm, GmmStats};
use crate::scalar::{grown, lanes, lanes_ext, num, sigma, sigma_ext, Scalar};
use crate::special::log_sum_exp;
use crate::util::{divides_exactly, quotient_of_lanes};
use vstd::prelude::*;

verus! {

/// In every row some mixture of state `i` has a density, densities and weights are
/// exact, and so are the posteriors of the state.
pub open spec fn exact_mixtures<T: Dense>(
    p: Set<T>,
    l: Set<T>,
    em: &GmmEm<T>,
    x: &Matrix<T>,
    post: &Matrix<T>,
    i: int,
) -> bool {
    &&& forall|t: int, m: int|
        0 <= t < x.rows.len() && 0 <= m < em.n_mix ==> l.contains(
            #[trigger] em.weighted_at(x, i, t, m),
        )
    &&& forall|t: int|
        0 <= t < x.rows.len() ==> log_sum_exp(#[trigger] em.weighted_row(x, i, t)) != T::s_neg_inf()
    &&& forall|t: int| 0 <= t < x.rows.len() ==> p.contains(#[trigger] post.at(t, i))
}

/// The responsibilities of the mixtures of a state for a row sum to 1.
pub proof fn responsibilities_sum_to_one<T: Dense>(
    p: Set<T>,
    l: Set<T>,
    em: &GmmEm<T>,
    x: &Matrix<T>,
    post: &Matrix<T>,
    i: int,
    t: int,
)
    requires
        exact_numbers(p),
        exact_logs(p, l),
        exact_mixtures(p, l, em, x, post, i),
        em.n_mix >= 1,
        0 <= t < x.rows.len(),
    ensures
        forall|m: int| 0 <= m < em.n_mix ==> p.contains(#[trigger] em.responsibility(x, i, t, m)),
        sigma(em.n_mix as int, |m: int| em.responsibility(x, i, t, m)) == num::<T>(1),
{
    let nm = em.n_mix as int;
    let share = |m: int| em.responsibility(x, i, t, m);
    constants(p);
    log_constants(p, l);
    if nm == 1 {
        assert(share(0) == num::<T>(1));
        added(p, num::<T>(1), num(1));
        assert(sigma(1, share) == sigma(0, share).s_plus(share(0)));
    } else {
        let s = em.weighted_row(x, i, t);
        assert forall|m: int| 0 <= m < s.len() implies l.contains(#[trigger] s[m]) by {
            assert(l.contains(em.weighted_at(x, i, t, m)));
        }
        shares_sum_to_one(p, l, s);
        sigma_ext(nm, share, |m: int| s[m].s_minus(log_sum_exp(s)).s_exp());
        assert forall|m: int| 0 <= m < nm implies p.contains(
            #[trigger] em.responsibility(x, i, t, m),
        ) by {
            assert(p.contains(s[m].s_minus(log_sum_exp(s)).s_exp()));
        }
    }
}

/// The masses of the mixtures of a state in a row add up to its posterior.
proof fn masses_add_up<T: Dense>(
    p: Set<T>,
    l: Set<T>,
    em: &GmmEm<T>,
    x: &Matrix<T>,
    post: &Matrix<T>,
    i: int,
    t: int,
)
    requires
        exact_numbers(p),
        exact_logs(p, l),
        exact_mixtures(p, l, em, x, post, i),
        em.n_mix >= 1,
        0 <= t < x.rows.len(),
    ensures
        forall|m: int| 0 <= m < em.n_mix ==> p.contains(#[trigger] em.mix_mass(x, post, i, t, m)),
        sigma(em.n_mix as int, |m: int| em.mix_mass(x, post, i, t, m)) == post.at(t, i),
{
    let nm = em.n_mix as int;
    let g = post.at(t, i);
    assert(p.contains(g));
    responsibilities_sum_to_one(p, l, em, x, post, i, t);
    let share = |m: int| em.responsibility(x, i, t, m);
    assert forall|m: int| 0 <= m < nm implies p.contains(#[trigger] share(m)) && em.mix_mass(
        x,
        post,
        i,
        t,
        m,
    ) == share(m).s_times(g) by {
        assert(p.contains(em.responsibility(x, i, t, m)));
        multiplied(p, share(m), g);
    }
    assert forall|m: int| 0 <= m < nm implies p.contains(
        #[trigger] em.mix_mass(x, post, i, t, m),
    ) by {
        assert(p.contains(share(m)));
        multiplied(p, share(m), g);
    }
    sum_of_multiples(p, nm, share, g);
    let mass = |m: int| em.mix_mass(x, post, i, t, m);
    assert forall|m: int| 0 <= m < nm implies #[trigger] mass(m) == (|m: int|
        share(m).s_times(g))(m) by {
        assert(p.contains(share(m)));
    }
    sigma_ext(nm, mass, |m: int| share(m).s_times(g));
    constants(p);
    multiplied(p, g, num(1));
}

/// The mixture statistics of state `i` add up to its own, and are exact.
pub open spec fn balanced<T: Dense>(p: Set<T>, em: &GmmEm<T>, stats: &GmmStats<T>, i: int) -> bool {
    &&& forall|m: int| 0 <= m < em.n_mix ==> p.contains(#[trigger] stats.post_mix_sum.at(i, m))
    &&& sigma(em.n_mix as int, |m: int| stats.post_mix_sum.at(i, m)) == stats.post_sum@[i]
}

/// Sums that grow together: what the mixtures gain in the first `n` rows adds up to
/// what the state gains.
proof fn grown_together<T: Dense>(
    p: Set<T>,
    l: Set<T>,
    em: &GmmEm<T>,
    x: &Matrix<T>,
    post: &Matrix<T>,
    before: &GmmStats<T>,
    i: int,
    n: int,
)
    requires
        exact_numbers(p),
        exact_logs(p, l),
        exact_mixtures(p, l, em, x, post, i),
        em.n_mix >= 1,
        balanced(p, em, before, i),
        0 <= n <= x.rows.len(),
    ensures
        forall|m: int|
            0 <= m < em.n_mix ==> p.contains(
                grown(
                    #[trigger] before.post_mix_sum.at(i, m),
                    n,
                    |t: int| em.mix_mass(x, post, i, t, m),
                ),
            ),
        sigma(
            em.n_mix as int,
            |m: int|
                grown(
                    before.post_mix_sum.at(i, m),
                    n,
                    |t: int| em.mix_mass(x, post, i, t, m),
                ),
        ) == grown(before.post_sum@[i], n, |t: int| post.at(t, i)),
    decreases n,
{
    let nm = em.n_mix as int;
    let all = |m: int|
        grown(before.post_mix_sum.at(i, m), n, |t: int| em.mix_mass(x, post, i, t, m));
    if n > 0 {
        grown_together(p, l, em, x, post, before, i, n - 1);
        masses_add_up(p, l, em, x, post, i, n - 1);
        let fewer = |m: int|
            grown(before.post_mix_sum.at(i, m), n - 1, |t: int| em.mix_mass(x, post, i, t, m));
        let last = |m: int| em.mix_mass(x, post, i, n - 1, m);
        assert forall|m: int| 0 <= m < nm implies p.contains(#[trigger] fewer(m)) && p.contains(
            last(m),
        ) && all(m) == fewer(m).s_plus(last(m)) by {
            assert(p.contains(
                grown(
                    before.post_mix_sum.at(i, m),
                    n - 1,
                    |t: int| em.mix_mass(x, post, i, t, m),
                ),
            ));
            assert(p.contains(em.mix_mass(x, post, i, n - 1, m)));
        }
        assert forall|m: int| 0 <= m < nm implies p.contains(#[trigger] last(m)) by {
            assert(p.contains(em.mix_mass(x, post, i, n - 1, m)));
        }
        sum_of_pairs(p, nm, fewer, last);
        assert forall|m: int| 0 <= m < nm implies #[trigger] all(m) == (|m: int|
            fewer(m).s_plus(last(m)))(m) by {
            assert(p.contains(fewer(m)));
        }
        sigma_ext(nm, all, |m: int| fewer(m).s_plus(last(m)));
        assert forall|m: int| 0 <= m < nm implies p.contains(
            grown(
                #[trigger] before.post_mix_sum.at(i, m),
                n,
                |t: int| em.mix_mass(x, post, i, t, m),
            ),
        ) by {
            assert(p.contains(fewer(m)));
            added(p, fewer(m), last(m));
        }
        assert(sigma(nm, last) == post.at(n - 1, i));
    } else {
        assert forall|m: int| 0 <= m < nm implies #[trigger] all(m) == (|m: int|
            before.post_mix_sum.at(i, m))(m) by {
        }
        sigma_ext(nm, all, |m: int| before.post_mix_sum.at(i, m));
    }
}

/// Accumulating a sequence keeps the statistics of a state balanced.
pub proof fn accumulation_keeps_balance<T: Dense>(
    p: Set<T>,
    l: Set<T>,
    em: &GmmEm<T>,
    x: &Matrix<T>,
    post: &Matrix<T>,
    params: ParamSet,
    before: &GmmStats<T>,
    after: &GmmStats<T>,
    i: int,
)
    requires
        exact_numbers(p),
        exact_logs(p, l),
        exact_mixtures(p, l, em, x, post, i),
        em.n_mix >= 1,
        0 <= i < em.n_components,
        em.accumulate_rel(before, x, post, params, after),
        balanced(p, em, before, i),
    ensures
        balanced(p, em, after, i),
{
    let nm = em.n_mix as int;
    let ns = x.rows.len() as int;
    grown_together(p, l, em, x, post, before, i, ns);
    let f = |m: int| after.post_mix_sum.at(i, m);
    let g = |m: int|
        grown(before.post_mix_sum.at(i, m), ns, |t: int| em.mix_mass(x, post, i, t, m));
    assert forall|m: int| 0 <= m < nm implies #[trigger] f(m) == g(m) && p.contains(
        after.post_mix_sum.at(i, m),
    ) by {
        assert(after.post_mix_sum.at(i, m) == g(m));
        assert(p.contains(
            grown(before.post_mix_sum.at(i, m), ns, |t: int| em.mix_mass(x, post, i, t, m)),
        ));
    }
    assert forall|m: int| 0 <= m < nm implies p.contains(
        #[trigger] after.post_mix_sum.at(i, m),
    ) by {
        assert(f(m) == g(m));
    }
    sigma_ext(nm, f, g);
    assert(after.post_sum@[i] == grown(before.post_sum@[i], ns, |t: int| post.at(t, i)));
}

/// The statistics before any sequence are balanced.
proof fn zeros_are_balanced<T: Dense>(p: Set<T>, em: &GmmEm<T>, stats: &GmmStats<T>, i: int)
    requires
        exact_numbers(p),
        em.zero_stats(stats),
        0 <= i < em.n_components,
    ensures
        balanced(p, em, stats, i),
{
    constants(p);
    let f = |m: int| stats.post_mix_sum.at(i, m);
    assert forall|m: int| 0 <= m < em.n_mix implies #[trigger] f(m) == num::<T>(0) by {
        assert(stats.post_mix_sum.at(i, m) == num::<T>(0));
    }
    sum_of_zeros(p, em.n_mix as int, f);
    assert(stats.post_sum@[i] == num::<T>(0));
}

/// What balanced statistics make of the weights of state `i` sums to 1, wherever
/// their divisor divides exactly.
pub proof fn updated_weights_sum_to_one<T: Dense>(
    p: Set<T>,
    em: &GmmEm<T>,
    stats: &GmmStats<T>,
    i: int,
)
    requires
        exact_numbers(p),
        balanced(p, em, stats, i),
        p.contains(em.weights_prior.s_minus(num(1))),
        num::<T>(em.n_mix as int) == sigma(em.n_mix as int, |m: int| num::<T>(1)),
        divides_exactly(
            stats.post_sum@[i].s_plus(
                em.weights_prior.s_minus(num(1)).s_times(num(em.n_mix as int)),
            ),
        ),
    ensures
        lanes(em.n_mix as int, |m: int| em.updated_weight(stats, i, m)) == num::<T>(1),
{
    let nm = em.n_mix as int;
    let a = em.weights_prior.s_minus(num(1));
    let d = stats.post_sum@[i].s_plus(a.s_times(num(nm)));
    let mass = |m: int| stats.post_mix_sum.at(i, m);
    let shift = |m: int| a;
    let one = |m: int| num::<T>(1);
    constants(p);
    assert forall|m: int| 0 <= m < nm implies p.contains(#[trigger] mass(m)) by {
        assert(p.contains(stats.post_mix_sum.at(i, m)));
    }
    sum_of_pairs(p, nm, mass, shift);
    sum_of_multiples(p, nm, one, a);
    multiplied(p, num::<T>(1), a);
    multiplied(p, a, num(1));
    sigma_ext(nm, shift, |m: int| one(m).s_times(a));
    sum_in(p, nm, one);
    multiplied(p, a, num(nm));
    let both = |m: int| mass(m).s_plus(shift(m));
    assert(sigma(nm, both) == d);
    assert forall|m: int| 0 <= m < nm implies p.contains(#[trigger] both(m)) by {
        assert(p.contains(mass(m)));
        added(p, mass(m), shift(m));
    }
    lanes_are_sum(p, nm, both);
    quotient_of_lanes(nm, both, d);
    lanes_ext(
        nm,
        |m: int| em.updated_weight(stats, i, m),
        |m: int| both(m).s_over(d),
    );
}

/// The statistics of an E-step are balanced after each of its sequences.
proof fn estep_keeps_balance<T: Dense>(
    p: Set<T>,
    l: Set<T>,
    h: &Hmm<T, GmmEm<T>>,
    x: &Matrix<T>,
    ranges: Seq<(usize, usize)>,
    start: Seq<T>,
    trans: &Matrix<T>,
    tr: EStep<T, GmmEm<T>>,
    n: int,
    i: int,
    k: int,
)
    requires
        exact_numbers(p),
        exact_logs(p, l),
        h.emission.n_mix >= 1,
        0 <= i < h.emission.n_components,
        estep_upto(h, x, ranges, start, trans, tr, n),
        forall|q: int|
            0 <= q < n ==> exact_mixtures(
                p,
                l,
                &h.emission,
                #[trigger] &tr.subs[q],
                &tr.fbs[q].posteriors,
                i,
            ),
        0 <= k <= n,
    ensures
        balanced(p, &h.emission, &tr.stats[k], i),
    decreases k,
{
    if k > 0 {
        estep_keeps_balance(p, l, h, x, ranges, start, trans, tr, n, i, k - 1);
        assert(estep_at(h, x, ranges, start, trans, tr, k - 1));
        assert(exact_mixtures(
            p,
            l,
            &h.emission,
            &tr.subs[k - 1],
            &tr.fbs[k - 1].posteriors,
            i,
        ));
        accumulation_keeps_balance(
            p,
            l,
            &h.emission,
            &tr.subs[k - 1],
            &tr.fbs[k - 1].posteriors,
            h.params,
            &tr.stats[k - 1],
            &tr.stats[k],
            i,
        );
    } else {
        zeros_are_balanced(p, &h.emission, &tr.stats[0], i);
    }
}

/// After an iteration that updates the mixture weights, those of every state sum to
/// 1, wherever their divisor divides exactly.
pub proof fn iteration_keeps_weights_summing_to_one<T: Dense>(
    p: Set<T>,
    l: Set<T>,
    h: &Hmm<T, GmmEm<T>>,
    x: &Matrix<T>,
    ranges: Seq<(usize, usize)>,
    start: Seq<T>,
    trans: &Matrix<T>,
    tr: EStep<T, GmmEm<T>>,
    after: &GmmEm<T>,
    i: int,
)
    requires
        exact_numbers(p),
        exact_logs(p, l),
        h.emission.n_mix >= 1,
        0 <= i < h.emission.n_components,
        estep_upto(h, x, ranges, start, trans, tr, ranges.len() as int),
        forall|q: int|
            0 <= q < ranges.len() ==> exact_mixtures(
                p,
                l,
                &h.emission,
                #[trigger] &tr.subs[q],
                &tr.fbs[q].posteriors,
                i,
            ),
        h.params.members().contains(Param::Weights),
        h.emission.mstep_rel(&tr.stats.last(), h.params, after),
        after.shaped(),
        p.contains(h.emission.weights_prior.s_minus(num(1))),
        num::<T>(h.emission.n_mix as int) == sigma(
            h.emission.n_mix as int,
            |m: int| num::<T>(1),
        ),
        divides_exactly(
            tr.stats.last().post_sum@[i].s_plus(
                h.emission.weights_prior.s_minus(num(1)).s_times(num(h.emission.n_mix as int)),
            ),
        ),
    ensures
        row_total(&after.weights->0, i) == num::<T>(1),
{
    let n = ranges.len() as int;
    let nm = h.emission.n_mix as int;
    estep_keeps_balance(p, l, h, x, ranges, start, trans, tr, n, i, n);
    updated_weights_sum_to_one(p, &h.emission, &tr.stats[n], i);
    let f = |m: int| after.weights->0.at(i, m);
    let g = |m: int| h.emission.updated_weight(&tr.stats[n], i, m);
    assert forall|m: int| 0 <= m < nm implies #[trigger] f(m) == g(m) by {
        assert(after.weights->0.at(i, m) == h.emission.updated_weight(&tr.stats.last(), i, m));
    }
    lanes_ext(nm, f, g);
}

} // verus!
