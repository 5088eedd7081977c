//! What the updates of the models of counts and symbols make of the rows, where
//! arithmetic is exact.

use crate::engine::emission::EmissionModel;
use crate::engine::inference::normalized_rows;
use crate::engine::params::{Param, ParamSet};
use crate::engine::shares::{are_shares, normalized_row_is_shares, shares_of_equal, with_prior};
use crate::kl::dirichlet_divergence;
use crate::linalg::Dense;
use crate::matrix::Matrix;
use crate::models::categorical::{
    prior_counts, symbol_mass, symbol_of, CategoricalEm, CategoricalStats,
};
use crate::models::gaussian::gains_mass;
use crate::models::moments::{
    entry_at, gathered, mass_reads, over_rows, product_of, sums_read, weight_of,
};
use crate::models::multinomial::{MultinomialEm, MultinomialStats};
use crate::models::poisson::{PoissonEm, PoissonStats};
use crate::models::shared::gains_products;
use crate::models::variational::categorical::{VCatStats, VariationalCategoricalEm};
use crate::reading::{real_lanes, real_sums, reads_real};
use crate::reals::{rsum, rsum_ext};
use crate::scalar::{num, total, Scalar};
use vstd::prelude::*;

verus! {

/// The weight in state `c` of each row that holds symbol `k`.
pub open spec fn weight_on<T: Scalar>(
    rd: spec_fn(T) -> real,
    subs: Seq<Matrix<T>>,
    posts: Seq<Matrix<T>>,
    c: int,
    k: int,
) -> spec_fn(int, int) -> real {
    |s: int, t: int|
        if symbol_of(subs[s].at(t, 0)) == k {
            rd(posts[s].at(t, c))
        } else {
            0real
        }
}

proof fn symbols_read<T: Scalar>(
    rd: spec_fn(T) -> real,
    subs: Seq<Matrix<T>>,
    posts: Seq<Matrix<T>>,
    before: T,
    c: int,
    k: int,
    s: int,
    n: int,
)
    requires
        reads_real(rd),
    ensures
        rd(symbol_mass(before, &subs[s], &posts[s], c, k, n)) == rd(before) + rsum(
            n,
            |t: int| weight_on(rd, subs, posts, c, k)(s, t),
        ),
    decreases n,
{
    reveal(reads_real);
    if n > 0 {
        symbols_read(rd, subs, posts, before, c, k, s, n - 1);
    }
}

proof fn symbols_over_rows<T: Scalar>(
    rd: spec_fn(T) -> real,
    subs: Seq<Matrix<T>>,
    posts: Seq<Matrix<T>>,
    val: spec_fn(int) -> T,
    c: int,
    k: int,
    n: int,
)
    requires
        reads_real(rd),
        0 <= n <= subs.len(),
        val(0) == num::<T>(0),
        forall|s: int|
            0 <= s < n ==> val(s + 1) == symbol_mass(
                #[trigger] val(s),
                &subs[s],
                &posts[s],
                c,
                k,
                subs[s].rows.len() as int,
            ),
    ensures
        rd(val(n)) == rsum(
            n,
            |s: int|
                rsum(
                    subs[s].rows.len() as int,
                    |t: int| weight_on(rd, subs, posts, c, k)(s, t),
                ),
        ),
    decreases n,
{
    if n > 0 {
        symbols_over_rows(rd, subs, posts, val, c, k, n - 1);
        let s = n - 1;
        symbols_read(rd, subs, posts, val(s), c, k, s, subs[s].rows.len() as int);
        assert(val(s + 1) == symbol_mass(
            val(s),
            &subs[s],
            &posts[s],
            c,
            k,
            subs[s].rows.len() as int,
        ));
    } else {
        reveal(reads_real);
        assert(rd(num::<T>(0)) == 0real);
    }
}

/// The new probabilities of the symbols in a state are the shares of the weights of the
/// rows that hold them, with their prior.
pub proof fn new_symbol_probabilities_are_shares<T: Dense>(
    rd: spec_fn(T) -> real,
    e: &CategoricalEm<T>,
    params: ParamSet,
    subs: Seq<Matrix<T>>,
    posts: Seq<Matrix<T>>,
    stats: Seq<CategoricalStats<T>>,
    after: &CategoricalEm<T>,
    c: int,
)
    requires
        reads_real(rd),
        gathered(e, params, subs, posts, stats),
        e.mstep_rel(&stats.last(), params, after),
        params.members().contains(Param::Emit),
        0 <= c < e.n_components,
    ensures
        are_shares(
            |k: int| rd(after.emissionprob->0.at(c, k)),
            |k: int|
                with_prior(
                    rd(e.emissionprob_prior),
                    over_rows(subs, weight_on(rd, subs, posts, c, k)),
                ),
            e.symbols(),
        ),
{
    let n = e.symbols();
    let ep = after.emissionprob->0;
    let obs = stats.last().obs;
    assert(e.stats_fit(&stats.last())) by {
        if subs.len() > 0 {
            let s = subs.len() - 1;
            assert(e.accumulate_rel(&stats[s], &subs[s], &posts[s], params, &stats[s + 1]));
        }
    }
    let raw = choose|raw: Matrix<T>| #[trigger]
        prior_counts(e.emissionprob_prior, &obs, &raw) && normalized_rows(&raw, &ep);
    normalized_row_is_shares(rd, &raw, &ep, c);
    let a = |k: int| rd(raw.at(c, k));
    let b = |k: int|
        with_prior(
            rd(e.emissionprob_prior),
            over_rows(subs, weight_on(rd, subs, posts, c, k)),
        );
    assert forall|k: int| 0 <= k < n implies #[trigger] a(k) == b(k) by {
        let val = |s: int| stats[s].obs.at(c, k);
        assert forall|s: int| 0 <= s < subs.len() implies val(s + 1) == symbol_mass(
            #[trigger] val(s),
            &subs[s],
            &posts[s],
            c,
            k,
            subs[s].rows.len() as int,
        ) by {
            assert(e.accumulate_rel(&stats[s], &subs[s], &posts[s], params, &stats[s + 1]));
            assert(stats[s + 1].obs.at(c, k) == val(s + 1));
        }
        assert(stats[0].obs.at(c, k) == val(0));
        symbols_over_rows(rd, subs, posts, val, c, k, subs.len() as int);
        reveal(reads_real);
        assert(rd(num::<T>(0)) == 0real);
        assert(rd(num::<T>(1)) == 1real);
        assert(obs.at(c, k) == val(subs.len() as int));
    }
    shares_of_equal(|k: int| rd(ep.at(c, k)), a, b, n);
}

/// The variational posterior of a symbol in a state is its prior and the weights of the
/// rows that hold it, and the probabilities are the shares of the posteriors.
pub proof fn new_symbol_posteriors_add_weights<T: Dense>(
    rd: spec_fn(T) -> real,
    e: &VariationalCategoricalEm<T>,
    params: ParamSet,
    subs: Seq<Matrix<T>>,
    posts: Seq<Matrix<T>>,
    stats: Seq<VCatStats<T>>,
    after: &VariationalCategoricalEm<T>,
    c: int,
)
    requires
        reads_real(rd),
        e.shaped(),
        gathered(e, params, subs, posts, stats),
        e.mstep_rel(&stats.last(), params, after),
        params.members().contains(Param::Emit),
        0 <= c < e.n_components,
    ensures
        forall|k: int|
            0 <= k < e.symbols() ==> rd(#[trigger] after.posterior->0.at(c, k)) == rd(
                e.prior->0.at(c, k),
            ) + over_rows(subs, weight_on(rd, subs, posts, c, k)),
        are_shares(
            |k: int| rd(after.emissionprob->0.at(c, k)),
            |k: int| rd(after.posterior->0.at(c, k)),
            e.symbols(),
        ),
{
    let obs = stats.last().obs;
    normalized_row_is_shares(rd, &after.posterior->0, &after.emissionprob->0, c);
    assert forall|k: int| 0 <= k < e.symbols() implies rd(#[trigger] after.posterior->0.at(c, k))
        == rd(e.prior->0.at(c, k)) + over_rows(subs, weight_on(rd, subs, posts, c, k)) by {
        let val = |s: int| stats[s].obs.at(c, k);
        assert forall|s: int| 0 <= s < subs.len() implies val(s + 1) == symbol_mass(
            #[trigger] val(s),
            &subs[s],
            &posts[s],
            c,
            k,
            subs[s].rows.len() as int,
        ) by {
            assert(e.accumulate_rel(&stats[s], &subs[s], &posts[s], params, &stats[s + 1]));
            assert(stats[s + 1].obs.at(c, k) == val(s + 1));
        }
        assert(stats[0].obs.at(c, k) == val(0));
        symbols_over_rows(rd, subs, posts, val, c, k, subs.len() as int);
        reveal(reads_real);
        assert(obs.at(c, k) == val(subs.len() as int));
    }
}

proof fn symbol_bound_reads<T: Dense>(
    rd: spec_fn(T) -> real,
    e: &VariationalCategoricalEm<T>,
    n: int,
)
    requires
        reads_real(rd),
        0 <= n,
    ensures
        rd(e.bound_upto(n)) + rsum(
            n,
            |c: int|
                rd(dirichlet_divergence(e.posterior->0.row_view(c), e.prior->0.row_view(c))),
        ) == 0real,
    decreases n,
{
    reveal(reads_real);
    if n > 0 {
        symbol_bound_reads(rd, e, n - 1);
    } else {
        assert(rd(num::<T>(0)) == 0real);
    }
}

/// The variational categorical model takes the divergences of the posteriors of all
/// states from their priors off the objective.
pub proof fn symbols_pay_for_divergence<T: Dense>(
    rd: spec_fn(T) -> real,
    e: &VariationalCategoricalEm<T>,
)
    requires
        reads_real(rd),
    ensures
        e.contribution() is Some,
        rd(e.contribution()->0) + rsum(
            e.n_components as int,
            |c: int|
                rd(dirichlet_divergence(e.posterior->0.row_view(c), e.prior->0.row_view(c))),
        ) == 0real,
{
    symbol_bound_reads(rd, e, e.n_components as int);
}

/// The new probabilities of the categories in a state are the shares of their counts,
/// every row weighed by its posterior.
pub proof fn new_category_probabilities_are_shares<T: Dense>(
    rd: spec_fn(T) -> real,
    e: &MultinomialEm<T>,
    params: ParamSet,
    subs: Seq<Matrix<T>>,
    posts: Seq<Matrix<T>>,
    stats: Seq<MultinomialStats<T>>,
    after: &MultinomialEm<T>,
    c: int,
)
    requires
        reads_real(rd),
        gathered(e, params, subs, posts, stats),
        e.mstep_rel(&stats.last(), params, after),
        params.members().contains(Param::Emit),
        0 <= c < e.n_components,
    ensures
        are_shares(
            |k: int| rd(after.emissionprob->0.at(c, k)),
            |k: int|
                over_rows(subs, product_of(weight_of(rd, posts, c), entry_at(rd, subs, k))),
            e.categories(),
        ),
{
    let n = e.categories();
    let ep = after.emissionprob->0;
    category_shapes(e, params, subs, posts, stats, subs.len() as int);
    normalized_row_is_shares(rd, &stats.last().obs, &ep, c);
    let a = |k: int| rd(stats.last().obs.at(c, k));
    let b = |k: int| over_rows(subs, product_of(weight_of(rd, posts, c), entry_at(rd, subs, k)));
    assert forall|k: int| 0 <= k < n implies #[trigger] a(k) == b(k) by {
        let obs = |s: int| stats[s].obs;
        assert forall|s: int| 0 <= s <= subs.len() implies 0 <= c < (#[trigger] obs(
            s,
        )).rows.len() && 0 <= k < obs(s).ncols by {
            category_shapes(e, params, subs, posts, stats, s);
        }
        assert(obs(0).at(c, k) == num::<T>(0));
        assert forall|s: int| #![trigger posts[s]]
            0 <= s < subs.len() implies gains_products(
            &obs(s),
            &posts[s],
            &subs[s],
            &obs(s + 1),
        ) by {
            assert(e.accumulate_rel(&stats[s], &subs[s], &posts[s], params, &stats[s + 1]));
        }
        sums_read(rd, subs, posts, obs, c, k);
    }
    shares_of_equal(|k: int| rd(ep.at(c, k)), a, b, n);
}

proof fn category_shapes<T: Dense>(
    e: &MultinomialEm<T>,
    params: ParamSet,
    subs: Seq<Matrix<T>>,
    posts: Seq<Matrix<T>>,
    stats: Seq<MultinomialStats<T>>,
    n: int,
)
    requires
        gathered(e, params, subs, posts, stats),
        params.members().contains(Param::Emit),
        0 <= n <= subs.len(),
    ensures
        e.stats_fit(&stats[n]),
    decreases n,
{
    if n > 0 {
        category_shapes(e, params, subs, posts, stats, n - 1);
        let s = n - 1;
        assert(e.accumulate_rel(&stats[s], &subs[s], &posts[s], params, &stats[s + 1]));
    }
}

proof fn rate_shapes<T: Dense>(
    e: &PoissonEm<T>,
    params: ParamSet,
    subs: Seq<Matrix<T>>,
    posts: Seq<Matrix<T>>,
    stats: Seq<PoissonStats<T>>,
    n: int,
)
    requires
        gathered(e, params, subs, posts, stats),
        params.members().contains(Param::Lambdas),
        0 <= n <= subs.len(),
    ensures
        e.stats_fit(&stats[n]),
    decreases n,
{
    if n > 0 {
        rate_shapes(e, params, subs, posts, stats, n - 1);
        let s = n - 1;
        assert(e.accumulate_rel(&stats[s], &subs[s], &posts[s], params, &stats[s + 1]));
    }
}

proof fn rate_masses_read<T: Dense>(
    rd: spec_fn(T) -> real,
    e: &PoissonEm<T>,
    params: ParamSet,
    subs: Seq<Matrix<T>>,
    posts: Seq<Matrix<T>>,
    stats: Seq<PoissonStats<T>>,
    c: int,
)
    requires
        reads_real(rd),
        gathered(e, params, subs, posts, stats),
        params.members().contains(Param::Lambdas),
        0 <= c < e.n_components,
    ensures
        rd(stats.last().post@[c]) == over_rows(subs, weight_of(rd, posts, c)),
{
    let post = |s: int| stats[s].post@.take(e.n_components as int);
    assert forall|s: int| 0 <= s <= subs.len() implies 0 <= c < (#[trigger] post(s)).len() by {
        rate_shapes(e, params, subs, posts, stats, s);
    }
    rate_shapes(e, params, subs, posts, stats, 0);
    assert(stats[0].post@[c] == num::<T>(0));
    assert forall|s: int| #![trigger posts[s]]
        0 <= s < subs.len() implies gains_mass(
        post(s),
        &posts[s],
        post(s + 1),
    ) by {
        assert(e.accumulate_rel(&stats[s], &subs[s], &posts[s], params, &stats[s + 1]));
        rate_shapes(e, params, subs, posts, stats, s);
        rate_shapes(e, params, subs, posts, stats, s + 1);
    }
    mass_reads(rd, subs, posts, post, c);
    rate_shapes(e, params, subs, posts, stats, subs.len() as int);
}

/// The new rate of a feature in a state, with `average` the weighed average of the
/// feature over the rows and `rows` the weights of all states together: the prior counts
/// as `lambdas_weight` rows that add up to `lambdas_prior`, the rows as `rows` times the
/// average.
pub proof fn new_rate_is_average_with_prior<T: Dense>(
    rd: spec_fn(T) -> real,
    e: &PoissonEm<T>,
    params: ParamSet,
    subs: Seq<Matrix<T>>,
    posts: Seq<Matrix<T>>,
    stats: Seq<PoissonStats<T>>,
    after: &PoissonEm<T>,
    c: int,
    f: int,
    average: real,
    rows: real,
)
    requires
        reads_real(rd),
        gathered(e, params, subs, posts, stats),
        e.mstep_rel(&stats.last(), params, after),
        params.members().contains(Param::Lambdas),
        0 <= c < e.n_components,
        0 <= f < e.width(),
        over_rows(subs, weight_of(rd, posts, c)) != 0real,
        average * over_rows(subs, weight_of(rd, posts, c)) == over_rows(
            subs,
            product_of(weight_of(rd, posts, c), entry_at(rd, subs, f)),
        ),
        rows == rsum(e.n_components as int, |j: int| over_rows(subs, weight_of(rd, posts, j))),
        rd(e.lambdas_weight) + rows != 0real,
    ensures
        rd(after.lambdas->0.at(c, f)) * (rd(e.lambdas_weight) + rows) == rd(e.lambdas_prior) + rows
            * average,
{
    let n = e.n_components as int;
    let st = stats.last();
    rate_shapes(e, params, subs, posts, stats, subs.len() as int);
    rate_masses_read(rd, e, params, subs, posts, stats, c);
    let masses = |j: int| st.post@[j];
    real_sums(rd);
    real_lanes(rd, n, masses);
    let (a, b) = (
        |j: int| rd(masses(j)),
        |j: int| over_rows(subs, weight_of(rd, posts, j)),
    );
    assert forall|j: int| 0 <= j < n implies #[trigger] a(j) == b(j) by {
        rate_masses_read(rd, e, params, subs, posts, stats, j);
    }
    rsum_ext(n, a, b);
    assert(rd(total(st.post@)) == rows);
    let obs = |s: int| stats[s].obs;
    assert forall|s: int| 0 <= s <= subs.len() implies 0 <= c < (#[trigger] obs(s)).rows.len()
        && 0 <= f < obs(s).ncols by {
        rate_shapes(e, params, subs, posts, stats, s);
    }
    assert(obs(0).at(c, f) == num::<T>(0));
    assert forall|s: int| #![trigger posts[s]]
        0 <= s < subs.len() implies gains_products(
        &obs(s),
        &posts[s],
        &subs[s],
        &obs(s + 1),
    ) by {
        assert(e.accumulate_rel(&stats[s], &subs[s], &posts[s], params, &stats[s + 1]));
    }
    sums_read(rd, subs, posts, obs, c, f);
    reveal(reads_real);
    let mass = rd(st.post@[c]);
    let quotient = st.obs.at(c, f).s_over(st.post@[c]);
    let q = rd(quotient);
    assert(q * mass == average * mass);
    assert(q == average) by (nonlinear_arith)
        requires
            q * mass == average * mass,
            mass != 0real,
    ;
    let upper = e.lambdas_prior.s_plus(total(st.post@).s_times(quotient));
    let lower = e.lambdas_weight.s_plus(total(st.post@));
    assert(after.lambdas->0.at(c, f) == upper.s_over(lower));
    assert(rd(lower) == rd(e.lambdas_weight) + rows);
    assert(rd(upper) == rd(e.lambdas_prior) + rows * average);
}

} // verus!
