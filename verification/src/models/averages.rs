//! The M-step of the Gaussian model takes weighed averages, where arithmetic is
//! exact.

use crate::covariance::store::CovarStore;
use crate::covariance::types::CovarianceType;
use crate::engine::emission::EmissionModel;
use crate::engine::params::{Param, ParamSet};
use crate::linalg::Dense;
use crate::matrix::Matrix;
use crate::models::gaussian::{
    gains_mass, gains_outer, gains_squares, is_dense, GaussianEm, GaussianStats,
};
use crate::models::shared::gains_products;
use crate::models::moments::{
    deviation_by_moments, entry_at, gathered, mass_reads, off_centre, outers_read, over_rows,
    product_of, scatter_by_moments, scattered, squares_read, sums_read, weight_of,
};
use crate::reading::{power_of_ten, real_lanes, real_sigma, real_sums, reads_real};
use crate::reals::{associates, commutes, distributes, rsum, rsum_ext, rsum_scale};
use crate::scalar::{dec, lanes, larger_of, num, sigma, total, Scalar};
use vstd::prelude::*;

verus! {

/// The statistics keep their shapes from sequence to sequence.
proof fn shapes_kept<T: Dense>(
    e: &GaussianEm<T>,
    params: ParamSet,
    subs: Seq<Matrix<T>>,
    posts: Seq<Matrix<T>>,
    stats: Seq<GaussianStats<T>>,
    k: int,
)
    requires
        gathered(e, params, subs, posts, stats),
        0 <= k <= subs.len(),
    ensures
        e.takes(&stats[k]),
    decreases k,
{
    if k > 0 {
        shapes_kept(e, params, subs, posts, stats, k - 1);
        let s = k - 1;
        assert(e.accumulate_rel(&stats[s], &subs[s], &posts[s], params, &stats[s + 1]));
    }
}

/// Masses and sums, read: the weights of the rows, and the weighed entries.
proof fn first_moments<T: Dense>(
    rd: spec_fn(T) -> real,
    e: &GaussianEm<T>,
    params: ParamSet,
    subs: Seq<Matrix<T>>,
    posts: Seq<Matrix<T>>,
    stats: Seq<GaussianStats<T>>,
    c: int,
    f: int,
)
    requires
        reads_real(rd),
        gathered(e, params, subs, posts, stats),
        params.members().contains(Param::Means),
        0 <= c < e.n_components,
        0 <= f < e.width(),
    ensures
        rd(stats.last().post@[c]) == over_rows(subs, weight_of(rd, posts, c)),
        rd(stats.last().obs.at(c, f)) == over_rows(
            subs,
            product_of(weight_of(rd, posts, c), entry_at(rd, subs, f)),
        ),
{
    let post = |s: int| stats[s].post@;
    let obs = |s: int| stats[s].obs;
    assert forall|s: int| 0 <= s <= subs.len() implies 0 <= c < (#[trigger] post(s)).len() by {
        shapes_kept(e, params, subs, posts, stats, s);
    }
    assert forall|s: int| 0 <= s <= subs.len() implies 0 <= c < (#[trigger] obs(s)).rows.len() && 0
        <= f < obs(s).ncols by {
        shapes_kept(e, params, subs, posts, stats, s);
    }
    assert forall|s: int| #![trigger posts[s]] 0 <= s < subs.len() implies gains_mass(
        post(s),
        &posts[s],
        post(s + 1),
    ) && gains_products(&obs(s), &posts[s], &subs[s], &obs(s + 1)) by {
        assert(e.accumulate_rel(&stats[s], &subs[s], &posts[s], params, &stats[s + 1]));
    }
    mass_reads(rd, subs, posts, post, c);
    sums_read(rd, subs, posts, obs, c, f);
}

/// Second moments, read: the weighed squares for spherical and diagonal covariances,
/// the weighed products for tied and full ones.
proof fn second_moments<T: Dense>(
    rd: spec_fn(T) -> real,
    e: &GaussianEm<T>,
    params: ParamSet,
    subs: Seq<Matrix<T>>,
    posts: Seq<Matrix<T>>,
    stats: Seq<GaussianStats<T>>,
    c: int,
    k: int,
    l: int,
)
    requires
        reads_real(rd),
        gathered(e, params, subs, posts, stats),
        params.members().contains(Param::Covars),
        0 <= c < e.n_components,
        0 <= k < e.width(),
        0 <= l < e.width(),
    ensures
        !is_dense(e.covariance_type) ==> rd(stats.last().obs2.at(c, k)) == over_rows(
            subs,
            product_of(
                weight_of(rd, posts, c),
                product_of(entry_at(rd, subs, k), entry_at(rd, subs, k)),
            ),
        ),
        is_dense(e.covariance_type) ==> rd(stats.last().obs_obs_t->0.at(c, k, l)) == over_rows(
            subs,
            product_of(
                weight_of(rd, posts, c),
                product_of(entry_at(rd, subs, k), entry_at(rd, subs, l)),
            ),
        ),
{
    if is_dense(e.covariance_type) {
        let outer = |s: int| stats[s].obs_obs_t->0;
        assert forall|s: int| 0 <= s <= subs.len() implies 0 <= c < (#[trigger] outer(
            s,
        )).items.len() && 0 <= k < outer(s).nrows && 0 <= l < outer(s).ncols by {
            shapes_kept(e, params, subs, posts, stats, s);
        }
        assert forall|s: int| #![trigger posts[s]] 0 <= s < subs.len() implies gains_outer(
            &outer(s),
            &posts[s],
            &subs[s],
            &outer(s + 1),
        ) by {
            assert(e.accumulate_rel(&stats[s], &subs[s], &posts[s], params, &stats[s + 1]));
        }
        outers_read(rd, subs, posts, outer, c, k, l);
    } else {
        let obs2 = |s: int| stats[s].obs2;
        assert forall|s: int| 0 <= s <= subs.len() implies 0 <= c < (#[trigger] obs2(
            s,
        )).rows.len() && 0 <= k < obs2(s).ncols by {
            shapes_kept(e, params, subs, posts, stats, s);
        }
        assert forall|s: int| #![trigger posts[s]] 0 <= s < subs.len() implies gains_squares(
            &obs2(s),
            &posts[s],
            &subs[s],
            &obs2(s + 1),
        ) by {
            assert(e.accumulate_rel(&stats[s], &subs[s], &posts[s], params, &stats[s + 1]));
        }
        squares_read(rd, subs, posts, obs2, c, k);
    }
}

/// The prior mean of feature `f` in state `c`: that of the array where there is one.
pub open spec fn given_mean<T>(e: &GaussianEm<T>, c: int, f: int) -> T {
    match e.means_prior_arr {
        Some(p) => p.at(c, f),
        None => e.means_prior,
    }
}

/// The new mean of a feature balances: the weighed deviations of the rows from it,
/// and that of the prior mean with its weight, add up to nothing.
pub proof fn new_means_balance<T: Dense>(
    rd: spec_fn(T) -> real,
    e: &GaussianEm<T>,
    params: ParamSet,
    subs: Seq<Matrix<T>>,
    posts: Seq<Matrix<T>>,
    stats: Seq<GaussianStats<T>>,
    after: &GaussianEm<T>,
    c: int,
    f: int,
)
    requires
        reads_real(rd),
        gathered(e, params, subs, posts, stats),
        e.mstep_rel(&stats.last(), params, after),
        params.members().contains(Param::Means),
        0 <= c < e.n_components,
        0 <= f < e.width(),
        rd(e.means_weight) + over_rows(subs, weight_of(rd, posts, c)) != 0real,
    ensures
        ({
            let m = rd(after.means->0.at(c, f));
            rd(e.means_weight) * (rd(given_mean(e, c, f)) - m) + over_rows(
                subs,
                off_centre(weight_of(rd, posts, c), entry_at(rd, subs, f), m),
            ) == 0real
        }),
{
    let w = weight_of(rd, posts, c);
    let x = entry_at(rd, subs, f);
    let st = stats.last();
    first_moments(rd, e, params, subs, posts, stats, c, f);
    let m = rd(after.means->0.at(c, f));
    deviation_by_moments(subs, w, x, m);
    reveal(reads_real);
    let (mw, p) = (rd(e.means_weight), rd(given_mean(e, c, f)));
    let divisor = e.means_weight.s_plus(st.post@[c]);
    let mass = over_rows(subs, w);
    assert(after.means->0.at(c, f) == e.means_weight.s_times(given_mean(e, c, f)).s_plus(
        st.obs.at(c, f),
    ).s_over(divisor));
    assert(rd(divisor) == mw + mass);
    assert(m * (mw + mass) == mw * p + rd(st.obs.at(c, f)));
    distributes(m, mw, mass);
    distributes(mw, p, m);
    commutes(m, mw);
}

/// The scatter of the rows of state `c` about its new means, with that of the prior
/// mean.
pub open spec fn scatter_with_prior<T: Scalar>(
    rd: spec_fn(T) -> real,
    e: &GaussianEm<T>,
    subs: Seq<Matrix<T>>,
    posts: Seq<Matrix<T>>,
    means: &Matrix<T>,
    c: int,
    k: int,
    l: int,
) -> real {
    let (mk, ml) = (rd(means.at(c, k)), rd(means.at(c, l)));
    rd(e.means_weight) * ((mk - rd(given_mean(e, c, k))) * (ml - rd(given_mean(e, c, l))))
        + over_rows(
        subs,
        scattered(
            weight_of(rd, posts, c),
            entry_at(rd, subs, k),
            mk,
            entry_at(rd, subs, l),
            ml,
        ),
    )
}

/// The scatter of two features that the update works with, read.
proof fn scatter_reads<T: Dense>(
    rd: spec_fn(T) -> real,
    e: &GaussianEm<T>,
    params: ParamSet,
    subs: Seq<Matrix<T>>,
    posts: Seq<Matrix<T>>,
    stats: Seq<GaussianStats<T>>,
    means: &Matrix<T>,
    c: int,
    k: int,
    l: int,
)
    requires
        reads_real(rd),
        gathered(e, params, subs, posts, stats),
        params.members().contains(Param::Means),
        params.members().contains(Param::Covars),
        is_dense(e.covariance_type),
        0 <= c < e.n_components,
        0 <= k < e.width(),
        0 <= l < e.width(),
    ensures
        rd(e.scatter_at(&stats.last(), means, c, k, l)) == scatter_with_prior(
            rd,
            e,
            subs,
            posts,
            means,
            c,
            k,
            l,
        ),
{
    let w = weight_of(rd, posts, c);
    let (xk, xl) = (entry_at(rd, subs, k), entry_at(rd, subs, l));
    let (mk, ml) = (rd(means.at(c, k)), rd(means.at(c, l)));
    let st = stats.last();
    first_moments(rd, e, params, subs, posts, stats, c, k);
    first_moments(rd, e, params, subs, posts, stats, c, l);
    second_moments(rd, e, params, subs, posts, stats, c, k, l);
    scatter_by_moments(subs, w, xk, mk, xl, ml);
    reveal(reads_real);
    let dk = means.at(c, k).s_minus(given_mean(e, c, k));
    let dl = means.at(c, l).s_minus(given_mean(e, c, l));
    let (mw, rk, rl) = (rd(e.means_weight), rd(dk), rd(dl));
    associates(mw, rk, rl);
    assert(rd(e.means_weight.s_times(dk).s_times(dl)) == mw * (rk * rl));
    let (ok, ol) = (rd(st.obs.at(c, k)), rd(st.obs.at(c, l)));
    commutes(ok, ml);
    commutes(ol, mk);
    let first = e.means_weight.s_times(dk).s_times(dl).s_plus(st.obs_obs_t->0.at(c, k, l));
    let second = first.s_minus(st.obs.at(c, k).s_times(means.at(c, l)));
    let third = second.s_minus(st.obs.at(c, l).s_times(means.at(c, k)));
    let last = means.at(c, k).s_times(means.at(c, l)).s_times(st.post@[c]);
    assert(rd(last) == mk * ml * rd(st.post@[c]));
    assert(e.scatter_at(&st, means, c, k, l) == third.s_plus(last));
}

/// The new full covariance of a state times its weight is the prior plus the scatter
/// of its rows about its new means: under flat priors, the average of the products of
/// deviations, weighed by the posteriors of that state alone.
pub proof fn new_full_covariance_is_scatter_over_mass<T: Dense>(
    rd: spec_fn(T) -> real,
    e: &GaussianEm<T>,
    params: ParamSet,
    subs: Seq<Matrix<T>>,
    posts: Seq<Matrix<T>>,
    stats: Seq<GaussianStats<T>>,
    after: &GaussianEm<T>,
    c: int,
    k: int,
    l: int,
)
    requires
        reads_real(rd),
        gathered(e, params, subs, posts, stats),
        e.mstep_rel(&stats.last(), params, after),
        params.members().contains(Param::Means),
        params.members().contains(Param::Covars),
        e.covariance_type == CovarianceType::Full,
        0 <= c < e.n_components,
        0 <= k < e.width(),
        0 <= l < e.width(),
        above_zero(rd(e.covars_weight) - e.width() as real) + over_rows(
            subs,
            weight_of(rd, posts, c),
        ) != 0real,
    ensures
        after.covars matches Some(CovarStore::Full(q)) && rd(q.at(c, k, l)) * (above_zero(
            rd(e.covars_weight) - e.width() as real,
        ) + over_rows(subs, weight_of(rd, posts, c))) == rd(e.covars_prior) + scatter_with_prior(
            rd,
            e,
            subs,
            posts,
            &after.means->0,
            c,
            k,
            l,
        ),
{
    let means = &after.means->0;
    let st = stats.last();
    first_moments(rd, e, params, subs, posts, stats, c, k);
    scatter_reads(rd, e, params, subs, posts, stats, means, c, k, l);
    reveal(reads_real);
    assert(rd(num::<T>(e.width())) == e.width() as real);
    assert(rd(num::<T>(0)) == 0real);
    assert(rd(e.dense_weight()) == above_zero(rd(e.covars_weight) - e.width() as real));
    let divisor = e.dense_weight().s_plus(st.post@[c]);
    let q = after.covars->0->Full_0;
    assert(q.at(c, k, l) == e.covars_prior.s_plus(e.scatter_at(&st, means, c, k, l)).s_over(
        divisor,
    ));
}

/// `a`, or zero where `a` is below it.
pub open spec fn above_zero(a: real) -> real {
    if a < 0real {
        0real
    } else {
        a
    }
}

/// The new tied covariance times the weight of all rows is the prior plus the scatter
/// of the rows of every state about the new means of that state.
pub proof fn new_tied_covariance_is_pooled<T: Dense>(
    rd: spec_fn(T) -> real,
    e: &GaussianEm<T>,
    params: ParamSet,
    subs: Seq<Matrix<T>>,
    posts: Seq<Matrix<T>>,
    stats: Seq<GaussianStats<T>>,
    after: &GaussianEm<T>,
    k: int,
    l: int,
)
    requires
        reads_real(rd),
        gathered(e, params, subs, posts, stats),
        e.mstep_rel(&stats.last(), params, after),
        params.members().contains(Param::Means),
        params.members().contains(Param::Covars),
        e.covariance_type == CovarianceType::Tied,
        0 <= k < e.width(),
        0 <= l < e.width(),
        above_zero(rd(e.covars_weight) - e.width() as real) + rsum(
            e.n_components as int,
            |c: int| over_rows(subs, weight_of(rd, posts, c)),
        ) != 0real,
    ensures
        after.covars matches Some(CovarStore::Tied(m)) && rd(m.at(k, l)) * (above_zero(
            rd(e.covars_weight) - e.width() as real,
        ) + rsum(e.n_components as int, |c: int| over_rows(subs, weight_of(rd, posts, c)))) == rd(
            e.covars_prior,
        ) + rsum(
            e.n_components as int,
            |c: int| scatter_with_prior(rd, e, subs, posts, &after.means->0, c, k, l),
        ),
{
    let means = &after.means->0;
    let st = stats.last();
    let nc = e.n_components as int;
    let scatters = |c: int| e.scatter_at(&st, means, c, k, l);
    let read = |c: int| scatter_with_prior(rd, e, subs, posts, &after.means->0, c, k, l);
    let masses = |c: int| over_rows(subs, weight_of(rd, posts, c));
    let posts_of = |c: int| st.post@[c];
    shapes_kept(e, params, subs, posts, stats, subs.len() as int);
    real_sums(rd);
    real_sigma(rd, nc, scatters);
    real_lanes(rd, nc, posts_of);
    let (f, g) = (|c: int| rd(scatters(c)), |c: int| rd(posts_of(c)));
    assert forall|c: int| 0 <= c < nc implies #[trigger] f(c) == read(c) by {
        scatter_reads(rd, e, params, subs, posts, stats, means, c, k, l);
    }
    assert forall|c: int| 0 <= c < nc implies #[trigger] g(c) == masses(c) by {
        first_moments(rd, e, params, subs, posts, stats, c, k);
    }
    rsum_ext(nc, f, read);
    rsum_ext(nc, g, masses);
    reveal(reads_real);
    assert(rd(num::<T>(e.width())) == e.width() as real);
    assert(rd(num::<T>(0)) == 0real);
    assert(rd(e.dense_weight()) == above_zero(rd(e.covars_weight) - e.width() as real));
    let divisor = e.dense_weight().s_plus(total(st.post@));
    let m = after.covars->0->Tied_0;
    assert(m.at(k, l) == e.covars_prior.s_plus(sigma(nc, scatters)).s_over(divisor));
}

/// The weight that a variance is divided by: the mass of its state and the prior's
/// weight beyond 1, at least a hundred-thousandth.
pub open spec fn variance_weight<T: Scalar>(
    rd: spec_fn(T) -> real,
    e: &GaussianEm<T>,
    mass: real,
) -> real {
    let d = above_zero(rd(e.covars_weight) - 1real) + mass;
    if d < rd(dec::<T>(1, -5)) {
        rd(dec::<T>(1, -5))
    } else {
        d
    }
}

/// A new variance, read.
proof fn variance_reads<T: Dense>(
    rd: spec_fn(T) -> real,
    e: &GaussianEm<T>,
    params: ParamSet,
    subs: Seq<Matrix<T>>,
    posts: Seq<Matrix<T>>,
    stats: Seq<GaussianStats<T>>,
    means: &Matrix<T>,
    c: int,
    f: int,
)
    requires
        reads_real(rd),
        gathered(e, params, subs, posts, stats),
        params.members().contains(Param::Means),
        params.members().contains(Param::Covars),
        !is_dense(e.covariance_type),
        0 <= c < e.n_components,
        0 <= f < e.width(),
    ensures
        0real < variance_weight(rd, e, over_rows(subs, weight_of(rd, posts, c))),
        rd(e.updated_variance(&stats.last(), means, c, f)) * variance_weight(
            rd,
            e,
            over_rows(subs, weight_of(rd, posts, c)),
        ) == rd(e.covars_prior) + scatter_with_prior(rd, e, subs, posts, means, c, f, f),
{
    let w = weight_of(rd, posts, c);
    let x = entry_at(rd, subs, f);
    let m = rd(means.at(c, f));
    let st = stats.last();
    first_moments(rd, e, params, subs, posts, stats, c, f);
    second_moments(rd, e, params, subs, posts, stats, c, f, f);
    scatter_by_moments(subs, w, x, m, x, m);
    reveal(reads_real);
    let (post, me) = (st.post@[c], means.at(c, f));
    let d = me.s_minus(given_mean(e, c, f));
    let (mw, dr) = (rd(e.means_weight), rd(d));
    associates(mw, dr, dr);
    let first = e.means_weight.s_times(d).s_times(d).s_plus(st.obs2.at(c, f));
    let twice = num::<T>(2).s_times(me).s_times(st.obs.at(c, f));
    let o = rd(st.obs.at(c, f));
    assert(rd(num::<T>(2)) == 2real);
    assert(rd(twice) == (2real * m) * o);
    associates(2real, m, o);
    let numer = first.s_minus(twice).s_plus(me.s_times(me).s_times(post));
    assert(rd(numer) == mw * (dr * dr) + rd(st.obs2.at(c, f)) - 2real * (m * o) + m * m * rd(post));
    assert(rd(num::<T>(1)) == 1real);
    assert(rd(num::<T>(0)) == 0real);
    let inner = larger_of(e.covars_weight.s_minus(num(1)), num(0)).s_plus(post);
    let denom = larger_of(inner, dec(1, -5));
    assert(rd(inner) == above_zero(rd(e.covars_weight) - 1real) + over_rows(subs, w));
    assert(rd(denom) == variance_weight(rd, e, over_rows(subs, w)));
    assert(0real < rd(dec::<T>(1, -5))) by {
        reveal_with_fuel(power_of_ten, 6);
        let v = rd(dec::<T>(1, -5));
        assert(power_of_ten(5) == 100000real);
        assert(v * power_of_ten(5) == 1real);
    }
    assert(e.updated_variance(&st, means, c, f) == e.covars_prior.s_plus(numer).s_over(denom));
}

/// A new diagonal variance times its weight is the prior plus the scatter of the rows
/// of its state about the new mean.
pub proof fn new_diagonal_variance_is_scatter_over_mass<T: Dense>(
    rd: spec_fn(T) -> real,
    e: &GaussianEm<T>,
    params: ParamSet,
    subs: Seq<Matrix<T>>,
    posts: Seq<Matrix<T>>,
    stats: Seq<GaussianStats<T>>,
    after: &GaussianEm<T>,
    c: int,
    f: int,
)
    requires
        reads_real(rd),
        gathered(e, params, subs, posts, stats),
        e.mstep_rel(&stats.last(), params, after),
        params.members().contains(Param::Means),
        params.members().contains(Param::Covars),
        e.covariance_type == CovarianceType::Diag,
        0 <= c < e.n_components,
        0 <= f < e.width(),
    ensures
        after.covars matches Some(CovarStore::Diag(m)) && rd(m.at(c, f)) * variance_weight(
            rd,
            e,
            over_rows(subs, weight_of(rd, posts, c)),
        ) == rd(e.covars_prior) + scatter_with_prior(
            rd,
            e,
            subs,
            posts,
            &after.means->0,
            c,
            f,
            f,
        ),
{
    variance_reads(rd, e, params, subs, posts, stats, &after.means->0, c, f);
    let m = after.covars->0->Diag_0;
    assert(m.at(c, f) == e.updated_variance(&stats.last(), &after.means->0, c, f));
}

/// A new spherical variance is the average over the features: times their number and
/// its weight, it is the priors and scatters of all features added up.
pub proof fn new_spherical_variance_is_average_scatter<T: Dense>(
    rd: spec_fn(T) -> real,
    e: &GaussianEm<T>,
    params: ParamSet,
    subs: Seq<Matrix<T>>,
    posts: Seq<Matrix<T>>,
    stats: Seq<GaussianStats<T>>,
    after: &GaussianEm<T>,
    c: int,
)
    requires
        reads_real(rd),
        gathered(e, params, subs, posts, stats),
        e.mstep_rel(&stats.last(), params, after),
        params.members().contains(Param::Means),
        params.members().contains(Param::Covars),
        e.covariance_type == CovarianceType::Spherical,
        0 <= c < e.n_components,
        e.width() >= 1,
    ensures
        after.covars matches Some(CovarStore::Spherical(v)) && (rd(v@[c]) * e.width() as real)
            * variance_weight(rd, e, over_rows(subs, weight_of(rd, posts, c))) == rsum(
            e.width(),
            |f: int|
                rd(e.covars_prior) + scatter_with_prior(
                    rd,
                    e,
                    subs,
                    posts,
                    &after.means->0,
                    c,
                    f,
                    f,
                ),
        ),
{
    let nf = e.width();
    let means = &after.means->0;
    let st = stats.last();
    let variances = |f: int| e.updated_variance(&st, means, c, f);
    let weight = variance_weight(rd, e, over_rows(subs, weight_of(rd, posts, c)));
    let parts = |f: int|
        rd(e.covars_prior) + scatter_with_prior(rd, e, subs, posts, &after.means->0, c, f, f);
    let read = |f: int| rd(variances(f));
    real_sums(rd);
    real_lanes(rd, nf, variances);
    rsum_scale(nf, read, weight);
    let scaled = |f: int| read(f) * weight;
    assert forall|f: int| 0 <= f < nf implies #[trigger] scaled(f) == parts(f) by {
        variance_reads(rd, e, params, subs, posts, stats, means, c, f);
    }
    rsum_ext(nf, scaled, parts);
    reveal(reads_real);
    let v = after.covars->0->Spherical_0;
    assert(rd(num::<T>(nf)) == nf as real);
    assert(v@[c] == lanes(nf, variances).s_over(num(nf)));
}

} // verus!
