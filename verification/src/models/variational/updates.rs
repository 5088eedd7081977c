//! The M-step of the variational Gaussian model adds what the rows say to the priors,
//! where arithmetic is exact.

use crate::covariance::store::CovarStore;
use crate::engine::emission::EmissionModel;
use crate::engine::params::{Param, ParamSet};
use crate::kl::{difference, halved, quadratic_form, wishart_expectation};
use crate::linalg::{log_determinant, Dense};
use crate::matrix::Matrix;
use crate::models::gaussian::{
    gains_mass, gains_outer, gains_squares, is_dense, state_covariance,
};
use crate::models::shared::gains_products;
use crate::models::variational::gaussian::{Dof, VGaussianStats, VariationalGaussianEm};
use crate::models::moments::{
    deviation_by_moments, entry_at, gathered, mass_reads, off_centre, outers_read, over_rows,
    product_of, scatter_by_moments, scattered, scattered_product, squares_read, sums_read,
    weight_of,
};
use crate::reading::{halves, real_lanes, real_sigma, real_sums, reads_real};
use crate::reals::{associates, commutes, distributes, rsum, rsum_ext};
use crate::scalar::{dec, lanes, negative, num, sigma, Scalar};
use crate::special::digamma_of;
use vstd::prelude::*;

verus! {

/// The statistics keep their shapes from sequence to sequence.
proof fn shapes_kept<T: Dense>(
    e: &VariationalGaussianEm<T>,
    params: ParamSet,
    subs: Seq<Matrix<T>>,
    posts: Seq<Matrix<T>>,
    stats: Seq<VGaussianStats<T>>,
    k: int,
)
    requires
        gathered(e, params, subs, posts, stats),
        0 <= k <= subs.len(),
    ensures
        e.takes(&stats[k]),
    decreases k,
{
    if k > 0 {
        shapes_kept(e, params, subs, posts, stats, k - 1);
        let s = k - 1;
        assert(e.accumulate_rel(&stats[s], &subs[s], &posts[s], params, &stats[s + 1]));
    }
}

/// Masses and sums, read: the weights of the rows, and the weighed entries.
proof fn first_moments<T: Dense>(
    rd: spec_fn(T) -> real,
    e: &VariationalGaussianEm<T>,
    params: ParamSet,
    subs: Seq<Matrix<T>>,
    posts: Seq<Matrix<T>>,
    stats: Seq<VGaussianStats<T>>,
    c: int,
    f: int,
)
    requires
        reads_real(rd),
        gathered(e, params, subs, posts, stats),
        params.members().contains(Param::Means) || params.members().contains(Param::Covars),
        0 <= c < e.n_components,
        0 <= f < e.width(),
    ensures
        rd(stats.last().post@[c]) == over_rows(subs, weight_of(rd, posts, c)),
        rd(stats.last().obs.at(c, f)) == over_rows(
            subs,
            product_of(weight_of(rd, posts, c), entry_at(rd, subs, f)),
        ),
{
    let post = |s: int| stats[s].post@;
    let obs = |s: int| stats[s].obs;
    assert forall|s: int| 0 <= s <= subs.len() implies 0 <= c < (#[trigger] post(s)).len() by {
        shapes_kept(e, params, subs, posts, stats, s);
    }
    assert forall|s: int| 0 <= s <= subs.len() implies 0 <= c < (#[trigger] obs(s)).rows.len() && 0
        <= f < obs(s).ncols by {
        shapes_kept(e, params, subs, posts, stats, s);
    }
    assert forall|s: int| #![trigger posts[s]] 0 <= s < subs.len() implies gains_mass(
        post(s),
        &posts[s],
        post(s + 1),
    ) && gains_products(&obs(s), &posts[s], &subs[s], &obs(s + 1)) by {
        assert(e.accumulate_rel(&stats[s], &subs[s], &posts[s], params, &stats[s + 1]));
    }
    mass_reads(rd, subs, posts, post, c);
    sums_read(rd, subs, posts, obs, c, f);
}

/// Second moments, read: the weighed squares for spherical and diagonal covariances,
/// the weighed products for tied and full ones.
proof fn second_moments<T: Dense>(
    rd: spec_fn(T) -> real,
    e: &VariationalGaussianEm<T>,
    params: ParamSet,
    subs: Seq<Matrix<T>>,
    posts: Seq<Matrix<T>>,
    stats: Seq<VGaussianStats<T>>,
    c: int,
    k: int,
    l: int,
)
    requires
        reads_real(rd),
        gathered(e, params, subs, posts, stats),
        params.members().contains(Param::Covars),
        0 <= c < e.n_components,
        0 <= k < e.width(),
        0 <= l < e.width(),
    ensures
        !is_dense(e.covariance_type) ==> rd(stats.last().obs2.at(c, k)) == over_rows(
            subs,
            product_of(
                weight_of(rd, posts, c),
                product_of(entry_at(rd, subs, k), entry_at(rd, subs, k)),
            ),
        ),
        is_dense(e.covariance_type) ==> rd(stats.last().obs_obs_t->0.at(c, k, l)) == over_rows(
            subs,
            product_of(
                weight_of(rd, posts, c),
                product_of(entry_at(rd, subs, k), entry_at(rd, subs, l)),
            ),
        ),
{
    if is_dense(e.covariance_type) {
        let outer = |s: int| stats[s].obs_obs_t->0;
        assert forall|s: int| 0 <= s <= subs.len() implies 0 <= c < (#[trigger] outer(
            s,
        )).items.len() && 0 <= k < outer(s).nrows && 0 <= l < outer(s).ncols by {
            shapes_kept(e, params, subs, posts, stats, s);
        }
        assert forall|s: int| #![trigger posts[s]] 0 <= s < subs.len() implies gains_outer(
            &outer(s),
            &posts[s],
            &subs[s],
            &outer(s + 1),
        ) by {
            assert(e.accumulate_rel(&stats[s], &subs[s], &posts[s], params, &stats[s + 1]));
        }
        outers_read(rd, subs, posts, outer, c, k, l);
    } else {
        let obs2 = |s: int| stats[s].obs2;
        assert forall|s: int| 0 <= s <= subs.len() implies 0 <= c < (#[trigger] obs2(
            s,
        )).rows.len() && 0 <= k < obs2(s).ncols by {
            shapes_kept(e, params, subs, posts, stats, s);
        }
        assert forall|s: int| #![trigger posts[s]] 0 <= s < subs.len() implies gains_squares(
            &obs2(s),
            &posts[s],
            &subs[s],
            &obs2(s + 1),
        ) by {
            assert(e.accumulate_rel(&stats[s], &subs[s], &posts[s], params, &stats[s + 1]));
        }
        squares_read(rd, subs, posts, obs2, c, k);
    }
}

/// The new precision scale of a state is that of the prior plus the weight of the
/// rows, and the new mean balances: the weighed deviations of the rows from it, and
/// that of the prior mean with its precision scale, add up to nothing.
pub proof fn new_posterior_means_balance<T: Dense>(
    rd: spec_fn(T) -> real,
    e: &VariationalGaussianEm<T>,
    params: ParamSet,
    subs: Seq<Matrix<T>>,
    posts: Seq<Matrix<T>>,
    stats: Seq<VGaussianStats<T>>,
    after: &VariationalGaussianEm<T>,
    c: int,
    f: int,
)
    requires
        reads_real(rd),
        gathered(e, params, subs, posts, stats),
        e.mstep_rel(&stats.last(), params, after),
        params.members().contains(Param::Means),
        0 <= c < e.n_components,
        0 <= f < e.width(),
        rd(e.beta_prior->0@[c]) + over_rows(subs, weight_of(rd, posts, c)) != 0real,
    ensures
        rd(after.beta_posterior->0@[c]) - rd(e.beta_prior->0@[c]) == over_rows(
            subs,
            weight_of(rd, posts, c),
        ),
        ({
            let m = rd(after.means_posterior->0.at(c, f));
            rd(e.beta_prior->0@[c]) * (rd(e.means_prior->0.at(c, f)) - m) + over_rows(
                subs,
                off_centre(weight_of(rd, posts, c), entry_at(rd, subs, f), m),
            ) == 0real
        }),
{
    let w = weight_of(rd, posts, c);
    let x = entry_at(rd, subs, f);
    let st = stats.last();
    first_moments(rd, e, params, subs, posts, stats, c, f);
    let m = rd(after.means_posterior->0.at(c, f));
    deviation_by_moments(subs, w, x, m);
    reveal(reads_real);
    let (b, p) = (rd(e.beta_prior->0@[c]), rd(e.means_prior->0.at(c, f)));
    let mass = over_rows(subs, w);
    let beta = e.beta_prior->0@[c].s_plus(st.post@[c]);
    assert(rd(beta) == b + mass);
    assert(after.beta_posterior->0@[c] == beta);
    assert(after.means_posterior->0.at(c, f) == e.beta_prior->0@[c].s_times(
        e.means_prior->0.at(c, f),
    ).s_plus(st.obs.at(c, f)).s_over(beta));
    assert(m * (b + mass) == b * p + rd(st.obs.at(c, f)));
    distributes(m, b, mass);
    distributes(b, p, m);
    commutes(m, b);
}

/// The new degrees of freedom are those of the prior plus the weight of the rows of
/// the state, or, for a tied covariance, of all rows.
pub proof fn new_degrees_of_freedom_count_rows<T: Dense>(
    rd: spec_fn(T) -> real,
    e: &VariationalGaussianEm<T>,
    params: ParamSet,
    subs: Seq<Matrix<T>>,
    posts: Seq<Matrix<T>>,
    stats: Seq<VGaussianStats<T>>,
    after: &VariationalGaussianEm<T>,
    c: int,
)
    requires
        reads_real(rd),
        gathered(e, params, subs, posts, stats),
        e.mstep_rel(&stats.last(), params, after),
        params.members().contains(Param::Covars),
        e.width() >= 1,
        0 <= c < e.n_components,
    ensures
        match (e.dof_prior->0, after.dof_posterior->0) {
            (Dof::PerComponent(p), Dof::PerComponent(v)) => rd(v@[c]) - rd(p@[c]) == over_rows(
                subs,
                weight_of(rd, posts, c),
            ),
            (Dof::Tied(p), Dof::Tied(v)) => rd(v) - rd(p) == rsum(
                e.n_components as int,
                |i: int| over_rows(subs, weight_of(rd, posts, i)),
            ),
            _ => false,
        },
{
    let st = stats.last();
    let nc = e.n_components as int;
    let masses = |i: int| over_rows(subs, weight_of(rd, posts, i));
    let posts_of = |i: int| st.post@[i];
    shapes_kept(e, params, subs, posts, stats, subs.len() as int);
    real_sums(rd);
    real_lanes(rd, nc, posts_of);
    let g = |i: int| rd(posts_of(i));
    assert forall|i: int| 0 <= i < nc implies #[trigger] g(i) == masses(i) by {
        first_moments(rd, e, params, subs, posts, stats, i, 0);
    }
    rsum_ext(nc, g, masses);
    reveal(reads_real);
    assert(g(c) == masses(c));
}

/// The point estimate of a covariance times the new degrees of freedom of its own
/// state gives the new scale of that state back, whatever the type.
pub proof fn point_covariance_times_dof_is_scale<T: Dense>(
    rd: spec_fn(T) -> real,
    e: &VariationalGaussianEm<T>,
    stats: &VGaussianStats<T>,
    params: ParamSet,
    after: &VariationalGaussianEm<T>,
    c: int,
    k: int,
    l: int,
)
    requires
        reads_real(rd),
        e.mstep_rel(stats, params, after),
        params.members().contains(Param::Covars),
        e.dof_prior->0.fits(e.covariance_type, e.n_components as int),
        0 <= c < e.n_components,
        0 <= k < e.width(),
        0 <= l < e.width(),
        after.dof_posterior matches Some(Dof::PerComponent(d)) ==> rd(d@[c]) != 0real,
        after.dof_posterior matches Some(Dof::Tied(d)) ==> rd(d) != 0real,
    ensures
        match (after.scale_posterior->0, after.covars->0, after.dof_posterior->0) {
            (CovarStore::Full(s), CovarStore::Full(v), Dof::PerComponent(d)) => rd(v.at(c, k, l))
                * rd(d@[c]) == rd(s.at(c, k, l)),
            (CovarStore::Diag(s), CovarStore::Diag(v), Dof::PerComponent(d)) => rd(v.at(c, k))
                * rd(d@[c]) == rd(s.at(c, k)),
            (CovarStore::Spherical(s), CovarStore::Spherical(v), Dof::PerComponent(d)) => rd(v@[c])
                * rd(d@[c]) == rd(s@[c]),
            (CovarStore::Tied(s), CovarStore::Tied(v), Dof::Tied(d)) => rd(v.at(k, l)) * rd(d)
                == rd(s.at(k, l)),
            _ => false,
        },
{
    reveal(reads_real);
    let d = after.dof_posterior->0;
    match (after.scale_posterior->0, after.covars->0) {
        (CovarStore::Full(s), CovarStore::Full(v)) => {
            assert(v.at(c, k, l) == s.at(c, k, l).s_over(d.at(c)));
        },
        (CovarStore::Diag(s), CovarStore::Diag(v)) => {
            assert(v.at(c, k) == s.at(c, k).s_over(d.at(c)));
        },
        (CovarStore::Spherical(s), CovarStore::Spherical(v)) => {
            assert(v@[c] == s@[c].s_over(d.at(c)));
        },
        (CovarStore::Tied(s), CovarStore::Tied(v)) => {
            assert(v.at(k, l) == s.at(k, l).s_over(d.at(0)));
        },
        _ => {},
    }
}

/// The initial scale of a state is its initial covariance times its own initial
/// degrees of freedom, whatever the type.
pub proof fn initial_scale_is_covariance_times_dof<T: Dense>(
    rd: spec_fn(T) -> real,
    e: &VariationalGaussianEm<T>,
    x: &Matrix<T>,
    init: ParamSet,
    seed: Option<u32>,
    after: &VariationalGaussianEm<T>,
    c: int,
    k: int,
    l: int,
)
    requires
        reads_real(rd),
        e.init_rel(x, init, seed, after),
        init.members().contains(Param::Covars) || !e.covars_preset,
        0 <= c < e.n_components,
        0 <= k < e.width(),
        0 <= l < e.width(),
    ensures
        match (after.scale_posterior->0, after.covars->0, after.dof_posterior->0) {
            (CovarStore::Full(s), CovarStore::Full(v), Dof::PerComponent(d)) => rd(v.at(c, k, l))
                * rd(d@[c]) == rd(s.at(c, k, l)),
            (CovarStore::Diag(s), CovarStore::Diag(v), Dof::PerComponent(d)) => rd(v.at(c, k))
                * rd(d@[c]) == rd(s.at(c, k)),
            (CovarStore::Spherical(s), CovarStore::Spherical(v), Dof::PerComponent(d)) => rd(v@[c])
                * rd(d@[c]) == rd(s@[c]),
            (CovarStore::Tied(s), CovarStore::Tied(v), Dof::Tied(d)) => rd(v.at(k, l)) * rd(d)
                == rd(s.at(k, l)),
            _ => false,
        },
{
    reveal(reads_real);
    let d = after.dof_posterior->0;
    match (after.scale_posterior->0, after.covars->0) {
        (CovarStore::Full(s), CovarStore::Full(v)) => {
            assert(s.at(c, k, l) == v.at(c, k, l).s_times(d.at(c)));
        },
        (CovarStore::Diag(s), CovarStore::Diag(v)) => {
            assert(s.at(c, k) == v.at(c, k).s_times(d.at(c)));
        },
        (CovarStore::Spherical(s), CovarStore::Spherical(v)) => {
            assert(s@[c] == v@[c].s_times(d.at(c)));
        },
        (CovarStore::Tied(s), CovarStore::Tied(v)) => {
            assert(s.at(k, l) == v.at(k, l).s_times(d.at(0)));
        },
        _ => {},
    }
}

/// What the rows of a state say of two features: their scatter about the new means,
/// and that of the prior mean with its precision scale.
pub open spec fn scatter_with_prior<T: Scalar>(
    rd: spec_fn(T) -> real,
    e: &VariationalGaussianEm<T>,
    subs: Seq<Matrix<T>>,
    posts: Seq<Matrix<T>>,
    means: &Matrix<T>,
    c: int,
    k: int,
    l: int,
) -> real {
    let (mk, ml) = (rd(means.at(c, k)), rd(means.at(c, l)));
    rd(e.beta_prior->0@[c]) * ((rd(e.means_prior->0.at(c, k)) - mk) * (rd(
        e.means_prior->0.at(c, l),
    ) - ml)) + over_rows(
        subs,
        scattered(
            weight_of(rd, posts, c),
            entry_at(rd, subs, k),
            mk,
            entry_at(rd, subs, l),
            ml,
        ),
    )
}

/// `b0 (u0 - u)(v0 - v)` and the cross terms, put together.
proof fn completed(b0: real, b: real, u0: real, v0: real, u: real, v: real)
    ensures
        b0 * ((u0 - u) * (v0 - v)) - v * (b * u - b0 * u0) - u * (b * v - b0 * v0) + u * v * (b
            - b0) == b0 * (u0 * v0) - b * (u * v),
{
    scattered_product(b0, u0, v0, u, v);
    distributes(v, b * u, b0 * u0);
    distributes(u, b * v, b0 * v0);
    distributes(u * v, b, b0);
    commutes(v, b * u);
    associates(b, u, v);
    commutes(u, b * v);
    associates(b, v, u);
    commutes(v, u);
    commutes(u * v, b);
}

/// The terms of the update of a scale, read.
proof fn shift_reads<T: Dense>(
    rd: spec_fn(T) -> real,
    e: &VariationalGaussianEm<T>,
    params: ParamSet,
    subs: Seq<Matrix<T>>,
    posts: Seq<Matrix<T>>,
    stats: Seq<VGaussianStats<T>>,
    after: &VariationalGaussianEm<T>,
    base: T,
    rest: real,
    c: int,
    k: int,
    l: int,
)
    requires
        reads_real(rd),
        gathered(e, params, subs, posts, stats),
        e.mstep_rel(&stats.last(), params, after),
        params.members().contains(Param::Means),
        params.members().contains(Param::Covars),
        0 <= c < e.n_components,
        0 <= k < e.width(),
        0 <= l < e.width(),
        rd(e.beta_prior->0@[c]) + over_rows(subs, weight_of(rd, posts, c)) != 0real,
        rd(base) == rest + over_rows(
            subs,
            product_of(
                weight_of(rd, posts, c),
                product_of(entry_at(rd, subs, k), entry_at(rd, subs, l)),
            ),
        ),
    ensures
        rd(
            e.shifted(
                base,
                &after.means_posterior->0,
                after.beta_posterior->0@,
                c,
                k,
                l,
            ),
        ) == rest + scatter_with_prior(rd, e, subs, posts, &after.means_posterior->0, c, k, l),
{
    let w = weight_of(rd, posts, c);
    let (xk, xl) = (entry_at(rd, subs, k), entry_at(rd, subs, l));
    let means = &after.means_posterior->0;
    let (mk, ml) = (rd(means.at(c, k)), rd(means.at(c, l)));
    let (pk, pl) = (rd(e.means_prior->0.at(c, k)), rd(e.means_prior->0.at(c, l)));
    let (b0, b) = (rd(e.beta_prior->0@[c]), rd(after.beta_posterior->0@[c]));
    new_posterior_means_balance(rd, e, params, subs, posts, stats, after, c, k);
    new_posterior_means_balance(rd, e, params, subs, posts, stats, after, c, l);
    deviation_by_moments(subs, w, xk, mk);
    deviation_by_moments(subs, w, xl, ml);
    scatter_by_moments(subs, w, xk, mk, xl, ml);
    let mass = over_rows(subs, w);
    let (ok, ol) = (over_rows(subs, product_of(w, xk)), over_rows(subs, product_of(w, xl)));
    distributes(b0, pk, mk);
    distributes(b0, pl, ml);
    distributes(mk, b, b0);
    distributes(ml, b, b0);
    commutes(mk, b);
    commutes(ml, b);
    commutes(mk, b0);
    commutes(ml, b0);
    assert(mass == b - b0);
    assert(ok == b * mk - b0 * pk);
    assert(ol == b * ml - b0 * pl);
    completed(b0, b, pk, pl, mk, ml);
    reveal(reads_real);
    associates(b0, pk, pl);
    associates(b, mk, ml);
}

/// The new scale is that of the prior plus what the rows say: for each type, about
/// the new posterior means.
pub proof fn new_scale_adds_the_scatter<T: Dense>(
    rd: spec_fn(T) -> real,
    e: &VariationalGaussianEm<T>,
    params: ParamSet,
    subs: Seq<Matrix<T>>,
    posts: Seq<Matrix<T>>,
    stats: Seq<VGaussianStats<T>>,
    after: &VariationalGaussianEm<T>,
    c: int,
    k: int,
    l: int,
)
    requires
        reads_real(rd),
        gathered(e, params, subs, posts, stats),
        e.shaped(),
        e.mstep_rel(&stats.last(), params, after),
        params.members().contains(Param::Means),
        params.members().contains(Param::Covars),
        0 <= c < e.n_components,
        0 <= k < e.width(),
        0 <= l < e.width(),
        forall|i: int|
            0 <= i < e.n_components ==> rd(#[trigger] e.beta_prior->0@[i]) + over_rows(
                subs,
                weight_of(rd, posts, i),
            ) != 0real,
    ensures
        ({
            let means = &after.means_posterior->0;
            match (e.scale_prior->0, after.scale_posterior->0) {
                (CovarStore::Full(p), CovarStore::Full(s)) => rd(s.at(c, k, l)) - rd(p.at(c, k, l))
                    == scatter_with_prior(rd, e, subs, posts, means, c, k, l),
                (CovarStore::Diag(p), CovarStore::Diag(s)) => rd(s.at(c, k)) - rd(p.at(c, k))
                    == scatter_with_prior(rd, e, subs, posts, means, c, k, k),
                (CovarStore::Spherical(p), CovarStore::Spherical(s)) => (rd(s@[c]) - rd(p@[c]))
                    * e.width() as real == rsum(
                    e.width(),
                    |f: int| scatter_with_prior(rd, e, subs, posts, means, c, f, f),
                ),
                (CovarStore::Tied(p), CovarStore::Tied(s)) => rd(s.at(k, l)) - rd(p.at(k, l))
                    == rsum(
                    e.n_components as int,
                    |i: int| scatter_with_prior(rd, e, subs, posts, means, i, k, l),
                ),
                _ => false,
            }
        }),
{
    let means = &after.means_posterior->0;
    let beta = after.beta_posterior->0@;
    let st = stats.last();
    let nf = e.width();
    let nc = e.n_components as int;
    real_sums(rd);
    assert(rd(e.beta_prior->0@[c]) + over_rows(subs, weight_of(rd, posts, c)) != 0real);
    match (e.scale_prior->0, after.scale_posterior->0) {
        (CovarStore::Full(p), CovarStore::Full(s)) => {
            second_moments(rd, e, params, subs, posts, stats, c, k, l);
            let base = p.at(c, k, l).s_plus(st.obs_obs_t->0.at(c, k, l));
            assert(rd(base) == rd(p.at(c, k, l)) + rd(st.obs_obs_t->0.at(c, k, l))) by {
                reveal(reads_real);
            }
            shift_reads(
                rd,
                e,
                params,
                subs,
                posts,
                stats,
                after,
                base,
                rd(p.at(c, k, l)),
                c,
                k,
                l,
            );
            assert(s.at(c, k, l) == e.shifted(base, means, beta, c, k, l));
        },
        (CovarStore::Diag(p), CovarStore::Diag(s)) => {
            second_moments(rd, e, params, subs, posts, stats, c, k, k);
            let base = p.at(c, k).s_plus(st.obs2.at(c, k));
            assert(rd(base) == rd(p.at(c, k)) + rd(st.obs2.at(c, k))) by {
                reveal(reads_real);
            }
            shift_reads(
                rd,
                e,
                params,
                subs,
                posts,
                stats,
                after,
                base,
                rd(p.at(c, k)),
                c,
                k,
                k,
            );
            assert(s.at(c, k) == e.shifted(base, means, beta, c, k, k));
        },
        (CovarStore::Spherical(p), CovarStore::Spherical(s)) => {
            let terms = |j: int| e.shifted(st.obs2.at(c, j), means, beta, c, j, j);
            let wanted = |f: int| scatter_with_prior(rd, e, subs, posts, means, c, f, f);
            real_sigma(rd, nf, terms);
            let read = |j: int| rd(terms(j));
            assert forall|j: int| 0 <= j < nf implies #[trigger] read(j) == wanted(j) by {
                second_moments(rd, e, params, subs, posts, stats, c, j, j);
                shift_reads(
                    rd,
                    e,
                    params,
                    subs,
                    posts,
                    stats,
                    after,
                    st.obs2.at(c, j),
                    0real,
                    c,
                    j,
                    j,
                );
            }
            rsum_ext(nf, read, wanted);
            reveal(reads_real);
            assert(rd(num::<T>(nf)) == nf as real);
            let mean = sigma(nf, terms).s_over(num(nf));
            assert(rd(mean) * nf as real == rd(sigma(nf, terms)));
            assert(s@[c] == p@[c].s_plus(mean));
        },
        (CovarStore::Tied(p), CovarStore::Tied(s)) => {
            let terms = |i: int| e.shifted(st.obs_obs_t->0.at(i, k, l), means, beta, i, k, l);
            let wanted = |i: int| scatter_with_prior(rd, e, subs, posts, means, i, k, l);
            real_sigma(rd, nc, terms);
            let read = |i: int| rd(terms(i));
            assert forall|i: int| 0 <= i < nc implies #[trigger] read(i) == wanted(i) by {
                second_moments(rd, e, params, subs, posts, stats, i, k, l);
                assert(rd(e.beta_prior->0@[i]) + over_rows(subs, weight_of(rd, posts, i))
                    != 0real);
                shift_reads(
                    rd,
                    e,
                    params,
                    subs,
                    posts,
                    stats,
                    after,
                    st.obs_obs_t->0.at(i, k, l),
                    0real,
                    i,
                    k,
                    l,
                );
            }
            rsum_ext(nc, read, wanted);
            reveal(reads_real);
            assert(s.at(k, l) == p.at(k, l).s_plus(sigma(nc, terms)));
        },
        _ => {},
    }
}

/// The squared distance of row `t` from the posterior mean of state `c`, under `a`.
pub open spec fn distance<T: Scalar>(
    rd: spec_fn(T) -> real,
    e: &VariationalGaussianEm<T>,
    x: &Matrix<T>,
    a: Seq<Seq<T>>,
    t: int,
    c: int,
) -> real {
    let d = |f: int| rd(x.at(t, f)) - rd(e.means_posterior->0.at(c, f));
    rsum(e.width(), |i: int| d(i) * rsum(e.width(), |k: int| rd(a[i][k]) * d(k)))
}

/// The log-density that the E-step works with is an expectation under the posteriors:
/// twice it is the expected log-determinant of the precision, less the degrees of
/// freedom times the squared distance from the posterior mean under the inverse scale,
/// less the number of features over the precision scale.
pub proof fn expected_density_is_expectation<T: Dense>(
    rd: spec_fn(T) -> real,
    psi: spec_fn(real) -> real,
    e: &VariationalGaussianEm<T>,
    x: &Matrix<T>,
    t: int,
    c: int,
    inverse: Seq<Seq<T>>,
)
    requires
        reads_real(rd),
        forall|v: T| rd(#[trigger] digamma_of(v)) == psi(rd(v)),
        e.shaped(),
        x.has_dims(x.rows.len() as int, e.width()),
        0 <= t < x.rows.len(),
        0 <= c < e.n_components,
        T::s_inverse(scale_of_state(e, c)) == Some(inverse),
        rd(e.beta_posterior->0@[c]) != 0real,
        // The determinant of the inverse is the inverse of the determinant.
        rd(log_determinant(inverse)) + e.width() as real * rd(num::<T>(2).s_ln()) == -rd(
            log_determinant(halved(scale_of_state(e, c))),
        ),
    ensures
        ({
            let dof = match e.dof_posterior->0 {
                Dof::PerComponent(v) => v@[c],
                Dof::Tied(v) => v,
            };
            (2real * rd(e.fit_log_like(x, t, c)) - rd(
                wishart_expectation(dof, scale_of_state(e, c)),
            ) + rd(dof) * distance(rd, e, x, inverse, t, c)) * rd(e.beta_posterior->0@[c])
                == -(e.width() as real)
        }),
{
    let nf = e.width();
    let scale = scale_of_state(e, c);
    let dof = e.dof_posterior->0.at(c);
    assert(state_covariance(&e.scale_posterior->0, c, nf) =~= scale) by {
        assert forall|i: int| 0 <= i < nf implies #[trigger] state_covariance(
            &e.scale_posterior->0,
            c,
            nf,
        )[i] =~= scale[i] by {
        }
    }
    let half = dec::<T>(5, -1);
    let here = |d: int| digamma_of(half.s_times(dof.s_minus(num(d))));
    let there = |i: int| digamma_of(dof.s_minus(num(i)).s_over(num(2)));
    real_sums(rd);
    halves(rd);
    real_sigma(rd, nf, here);
    real_sigma(rd, nf, there);
    let (f, g) = (|d: int| rd(here(d)), |i: int| rd(there(i)));
    assert forall|i: int| 0 <= i < nf implies #[trigger] f(i) == g(i) by {
        reveal(reads_real);
        assert(rd(num::<T>(2)) == 2real);
        let v = dof.s_minus(num(i));
        let (a, b, y) = (rd(half.s_times(v)), rd(v.s_over(num(2))), rd(v));
        assert(b * 2real == y);
        assert(a == rd(half) * y);
        let r = rd(half);
        assert(2real * (r * y) == y) by {
            associates(2real, r, y);
        }
        assert(a == b);
        assert(rd(digamma_of(half.s_times(v))) == psi(a));
        assert(rd(digamma_of(v.s_over(num(2)))) == psi(b));
    }
    rsum_ext(nf, f, g);
    // The quadratic form.
    let d = difference(x.row_view(t), e.means_posterior->0.row_view(c));
    let dr = |f: int| rd(x.at(t, f)) - rd(e.means_posterior->0.at(c, f));
    assert(x.rows@[t].len() == nf);
    assert(e.means_posterior->0.rows@[c].len() == nf);
    assert(d.len() == nf);
    let outer = |i: int| d[i].s_times(lanes(nf, |k: int| inverse[i][k].s_times(d[k])));
    let wanted = |i: int| dr(i) * rsum(nf, |k: int| rd(inverse[i][k]) * dr(k));
    real_lanes(rd, nf, outer);
    let read = |i: int| rd(outer(i));
    assert forall|i: int| 0 <= i < nf implies #[trigger] read(i) == wanted(i) by {
        let inner = |k: int| inverse[i][k].s_times(d[k]);
        real_lanes(rd, nf, inner);
        let (a, b) = (|k: int| rd(inner(k)), |k: int| rd(inverse[i][k]) * dr(k));
        reveal(reads_real);
        assert forall|k: int| 0 <= k < nf implies #[trigger] a(k) == b(k) by {
            assert(d[k] == x.at(t, k).s_minus(e.means_posterior->0.at(c, k)));
        }
        rsum_ext(nf, a, b);
        assert(d[i] == x.at(t, i).s_minus(e.means_posterior->0.at(c, i)));
    }
    rsum_ext(nf, read, wanted);
    let q = quadratic_form(inverse, d);
    assert(rd(q) == distance(rd, e, x, inverse, t, c));
    reveal(reads_real);
    assert(rd(num::<T>(2)) == 2real);
    assert(rd(num::<T>(nf)) == nf as real);
    assert(rd(num::<T>(-1)) == -1real);
    let beta = e.beta_posterior->0@[c];
    let inv_beta = num::<T>(nf).s_over(beta);
    assert(rd(inv_beta) * rd(beta) == nf as real);
    let lead = sigma(nf, here).s_plus(num::<T>(nf).s_times(num::<T>(2).s_ln())).s_plus(
        log_determinant(inverse),
    );
    let tail = dof.s_times(q).s_plus(inv_beta);
    let (h, a, b) = (rd(half), rd(lead), rd(tail));
    assert(e.expected_density(x, t, c) == half.s_times(lead).s_minus(half.s_times(tail)));
    associates(2real, h, a);
    associates(2real, h, b);
    assert(2real * rd(e.expected_density(x, t, c)) == a - b) by {
        let (ha, hb) = (h * a, h * b);
        assert(2real * ha == a && 2real * hb == b);
    }
    let det = rd(log_determinant(halved(scale)));
    let neg = negative(log_determinant(halved(scale)));
    assert(rd(neg) == -det) by {
        commutes(det, -1real);
        assert(rd(neg) == det * (-1real));
        assert(det * (-1real) == -det) by (nonlinear_arith);
    }
    assert(wishart_expectation(dof, scale) == neg.s_plus(sigma(nf, there)));
    let z = rd(inv_beta);
    assert(2real * rd(e.expected_density(x, t, c)) - rd(wishart_expectation(dof, scale)) + rd(dof)
        * rd(q) == -z);
    let rb = rd(beta);
    assert((-z) * rb == -(z * rb)) by (nonlinear_arith);
}

/// The posterior scale of state `c` as a matrix.
pub open spec fn scale_of_state<T: Scalar>(e: &VariationalGaussianEm<T>, c: int) -> Seq<Seq<T>> {
    Seq::new(
        e.width() as nat,
        |i: int|
            Seq::new(
                e.width() as nat,
                |j: int|
                    match e.scale_posterior->0 {
                        CovarStore::Full(s) => s.at(c, i, j),
                        CovarStore::Tied(s) => s.at(i, j),
                        CovarStore::Diag(s) => if i == j {
                            s.at(c, i)
                        } else {
                            num(0)
                        },
                        CovarStore::Spherical(s) => if i == j {
                            s@[c]
                        } else {
                            num(0)
                        },
                    },
            ),
    )
}

} // verus!
