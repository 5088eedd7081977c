//! What the models start from, where arithmetic is exact.

use crate::cluster::{member_count, nearest, nearest_tally};
use crate::covariance::store::{distributed_at, grand_mean, in_order};
use crate::covariance::types::CovarianceType;
use crate::engine::emission::EmissionModel;
use crate::engine::inference::{normalized_rows, seed_or_zero};
use crate::engine::opening::{opening_state, prior_of};
use crate::engine::params::{Param, ParamSet};
use crate::engine::shares::{are_shares, normalized_row_is_shares, shares_of_equal};
use crate::engine::variational::prior_value;
use crate::linalg::Dense;
use crate::matrix::Matrix;
use crate::models::categorical::CategoricalEm;
use crate::models::drawing::kept_covariance;
use crate::models::gaussian::{floored_covariance, gaussian_draw, initial_means, GaussianEm};
use crate::models::gmm::{
    broadcasts, gaussian_draws, gmm_start, is_selection, selected, starts_state, state_before,
    GmmEm,
};
use crate::models::mixing::mixtures_of;
use crate::models::multinomial::MultinomialEm;
use crate::models::poisson::{
    gamma_row, gamma_rows, grand_variance, moments_of, Moments, PoissonEm,
};
use crate::models::shared::is_random_matrix;
use crate::models::variational::categorical::VariationalCategoricalEm;
use crate::models::variational::gaussian::{feature_mean, VariationalGaussianEm};
use crate::models::variational::Dof;
use crate::reading::{
    power_of_ten, real_lanes, real_sigma, real_sums, reads_real, sum_behind,
};
use crate::reals::{annuls, associates, cancels, commutes, distributes, rsum, rsum_ext};
use crate::rng::gamma::{dirichlet_draws, gamma_draw};
use crate::rng::state::{fresh_state, RngView};
use crate::rng::uniform::sample_of;
use crate::scalar::{dec, num, sigma, total, Scalar};
use crate::stats::covariance::{col_mean, covariance_at};
use vstd::prelude::*;

verus! {

/// The covariance of features `k` and `l` over all rows, `floor` added to variances.
pub open spec fn spread<T: Scalar>(
    rd: spec_fn(T) -> real,
    x: &Matrix<T>,
    floor: real,
    k: int,
    l: int,
) -> real {
    rd(covariance_at(x, k, l)) + if k == l {
        floor
    } else {
        0real
    }
}

/// The entries of the first `n` rows, read and summed.
proof fn in_order_reads<T: Scalar>(rd: spec_fn(T) -> real, a: &Matrix<T>, n: int)
    requires
        a.wf(),
        0 <= n <= a.rows.len(),
    ensures
        in_order(a, n).len() == n * a.ncols,
        rsum(in_order(a, n).len() as int, |i: int| rd(in_order(a, n)[i])) == rsum(
            n,
            |k: int| rsum(a.ncols as int, |l: int| rd(a.at(k, l))),
        ),
    decreases n,
{
    if n > 0 {
        in_order_reads(rd, a, n - 1);
        let (s, m) = (in_order(a, n - 1), a.ncols as int);
        let whole = in_order(a, n);
        let f = |i: int| rd(whole[i]);
        sum_behind(s.len() as int, m, f);
        rsum_ext(s.len() as int, f, |i: int| rd(s[i]));
        rsum_ext(m, |i: int| f(s.len() + i), |l: int| rd(a.at(n - 1, l)));
        assert((n - 1) * m + m == n * m) by (nonlinear_arith);
    } else {
        assert(0 * a.ncols == 0) by (nonlinear_arith);
    }
}

/// The mean of all entries, times their number, is their sum.
proof fn grand_mean_reads<T: Scalar>(rd: spec_fn(T) -> real, a: &Matrix<T>)
    requires
        reads_real(rd),
        a.wf(),
        a.rows.len() >= 1,
        a.ncols >= 1,
    ensures
        rd(grand_mean(a)) * (a.rows.len() * a.ncols) as real == rsum(
            a.rows.len() as int,
            |k: int| rsum(a.ncols as int, |l: int| rd(a.at(k, l))),
        ),
{
    let n = a.rows.len() as int;
    let m = a.ncols as int;
    let all = in_order(a, n);
    in_order_reads(rd, a, n);
    assert(n * m >= 1) by (nonlinear_arith)
        requires
            n >= 1,
            m >= 1,
    ;
    let f = |i: int| all[i];
    real_sums(rd);
    real_lanes(rd, all.len() as int, f);
    rsum_ext(all.len() as int, |i: int| rd(f(i)), |i: int| rd(all[i]));
    reveal(reads_real);
    assert(rd(num::<T>(all.len() as int)) == (n * m) as real);
    assert(grand_mean(a) == total(all).s_over(num(all.len() as int)));
}

/// `v` is what a covariance of type `ct` starts from for features `k` and `l`: their
/// covariance over all rows, or nothing off the diagonal where the type keeps none; a
/// spherical variance times the number of entries is the sum of all covariances.
pub open spec fn starts_from_spread<T: Scalar>(
    rd: spec_fn(T) -> real,
    x: &Matrix<T>,
    floor: real,
    ct: CovarianceType,
    k: int,
    l: int,
    v: real,
) -> bool {
    match ct {
        CovarianceType::Full => v == spread(rd, x, floor, k, l),
        CovarianceType::Tied => v == spread(rd, x, floor, k, l),
        CovarianceType::Diag => v == if k == l {
            spread(rd, x, floor, k, k)
        } else {
            0real
        },
        CovarianceType::Spherical => if k == l {
            v * (x.ncols * x.ncols) as real == rsum(
                x.ncols as int,
                |i: int| rsum(x.ncols as int, |j: int| spread(rd, x, floor, i, j)),
            )
        } else {
            v == 0real
        },
    }
}

proof fn spread_reads<T: Scalar>(
    rd: spec_fn(T) -> real,
    x: &Matrix<T>,
    floor: T,
    cv: &Matrix<T>,
    k: int,
    l: int,
)
    requires
        reads_real(rd),
        floored_covariance(x, floor, cv),
        0 <= k < x.ncols,
        0 <= l < x.ncols,
    ensures
        rd(cv.at(k, l)) == spread(rd, x, rd(floor), k, l),
        rd(grand_mean(cv)) * (x.ncols * x.ncols) as real == rsum(
            x.ncols as int,
            |i: int| rsum(x.ncols as int, |j: int| spread(rd, x, rd(floor), i, j)),
        ),
{
    let n = x.ncols as int;
    assert forall|i: int, j: int| 0 <= i < n && 0 <= j < n implies rd(#[trigger] cv.at(i, j))
        == spread(rd, x, rd(floor), i, j) by {
        reveal(reads_real);
    }
    grand_mean_reads(rd, cv);
    let a = |i: int| rsum(n, |j: int| rd(cv.at(i, j)));
    let b = |i: int| rsum(n, |j: int| spread(rd, x, rd(floor), i, j));
    assert forall|i: int| 0 <= i < n implies #[trigger] a(i) == b(i) by {
        rsum_ext(n, |j: int| rd(cv.at(i, j)), |j: int| spread(rd, x, rd(floor), i, j));
    }
    rsum_ext(n, a, b);
}

/// The Gaussian model starts from the centres that clustering finds and, in every state,
/// from the covariance of all rows with `min_covar` added to the variances.
pub proof fn gaussian_starts_from_clusters<T: Dense>(
    rd: spec_fn(T) -> real,
    e: &GaussianEm<T>,
    x: &Matrix<T>,
    init: ParamSet,
    seed: Option<u32>,
    after: &GaussianEm<T>,
    c: int,
    k: int,
    l: int,
)
    requires
        reads_real(rd),
        e.init_rel(x, init, seed, after),
        init.members().contains(Param::Means),
        init.members().contains(Param::Covars),
        e.width() == x.ncols,
        0 <= c < e.n_components,
        0 <= k < x.ncols,
        0 <= l < x.ncols,
    ensures
        after.means->0.row_view(c) == initial_means(x, e.n_components as int, seed)[c],
        starts_from_spread(
            rd,
            x,
            rd(e.min_covar),
            e.covariance_type,
            k,
            l,
            rd(kept_covariance(&after.covars->0, c, k, l)),
        ),
{
    let s = after.covars->0;
    assert(after.means->0@[c] == after.means->0.row_view(c));
    let cv = choose|cv: Matrix<T>| #[trigger]
        floored_covariance(x, e.min_covar, &cv) && forall|c: int, i: int, j: int|
            0 <= c < e.n_components && 0 <= i < e.width() && 0 <= j < e.width()
                ==> #[trigger] s.cov_at(c, i, j) == distributed_at(
                &cv,
                e.covariance_type,
                i,
                j,
            );
    spread_reads(rd, x, e.min_covar, &cv, k, l);
    spread_reads(rd, x, e.min_covar, &cv, k, k);
    assert(s.cov_at(c, k, l) == kept_covariance(&s, c, k, l));
    reveal(reads_real);
    assert(rd(num::<T>(0)) == 0real);
}

/// The mixture model starts from equal weights and, in every mixture of every state, from
/// the covariance of all rows with `min_covar` added to the variances.
pub proof fn mixture_starts_from_equal_weights<T: Dense>(
    rd: spec_fn(T) -> real,
    e: &GmmEm<T>,
    x: &Matrix<T>,
    init: ParamSet,
    seed: Option<u32>,
    after: &GmmEm<T>,
    i: int,
    m: int,
    k: int,
    l: int,
)
    requires
        reads_real(rd),
        e.init_rel(x, init, seed, after),
        init.members().contains(Param::Weights),
        init.members().contains(Param::Covars),
        0 <= i < e.n_components,
        0 <= m < e.n_mix,
        0 <= k < x.ncols,
        0 <= l < x.ncols,
    ensures
        rd(after.weights->0.at(i, m)) * e.n_mix as real == 1real,
        starts_from_spread(
            rd,
            x,
            rd(e.min_covar),
            e.covariance_type,
            k,
            l,
            rd(kept_covariance(&mixtures_of(&after.covars->0, i), m, k, l)),
        ),
{
    let s = after.covars->0;
    let cv = choose|cv: Matrix<T>| #[trigger]
        floored_covariance(x, e.min_covar, &cv) && broadcasts(
            &cv,
            e.covariance_type,
            e.n_components as int,
            e.n_mix as int,
            &s,
        );
    spread_reads(rd, x, e.min_covar, &cv, k, l);
    spread_reads(rd, x, e.min_covar, &cv, k, k);
    assert(s.cov_at(i, m, k, l) == kept_covariance(&mixtures_of(&s, i), m, k, l));
    reveal(reads_real);
    assert(rd(num::<T>(0)) == 0real);
    assert(rd(num::<T>(1)) == 1real);
    assert(rd(num::<T>(e.n_mix as int)) == e.n_mix as real);
    assert(after.weights->0.at(i, m) == num::<T>(1).s_over(num(e.n_mix as int)));
}

/// The rows nearest to a centre, counted.
pub open spec fn rows_nearest<T: Scalar>(x: &Matrix<T>, centers: Seq<Seq<T>>, c: int) -> real {
    rsum(
        x.rows.len() as int,
        |t: int|
            if nearest(x, centers, t) == c {
                1real
            } else {
                0real
            },
    )
}

proof fn tally_reads<T: Scalar>(
    rd: spec_fn(T) -> real,
    x: &Matrix<T>,
    centers: Seq<Seq<T>>,
    c: int,
    n: int,
)
    requires
        reads_real(rd),
    ensures
        rd(nearest_tally(x, centers, c, n)) == rsum(
            n,
            |t: int|
                if nearest(x, centers, t) == c {
                    1real
                } else {
                    0real
                },
        ),
    decreases n,
{
    reveal(reads_real);
    assert(rd(num::<T>(0)) == 0real);
    assert(rd(num::<T>(1)) == 1real);
    if n > 0 {
        tally_reads(rd, x, centers, c, n - 1);
    }
}

/// The variational Gaussian model starts from the centres that clustering finds, each as
/// sure as the rows nearest to it are many. The prior means are those of all rows, worth
/// one row; the prior degrees of freedom are as many as features; the covariances are
/// that of all rows with `1e-3` added to the variances.
pub proof fn variational_gaussian_starts_from_clusters<T: Dense>(
    rd: spec_fn(T) -> real,
    e: &VariationalGaussianEm<T>,
    x: &Matrix<T>,
    init: ParamSet,
    seed: Option<u32>,
    after: &VariationalGaussianEm<T>,
    c: int,
    k: int,
    l: int,
)
    requires
        reads_real(rd),
        e.init_rel(x, init, seed, after),
        init.members().contains(Param::Means),
        init.members().contains(Param::Covars),
        e.width() == x.ncols,
        0 <= c < e.n_components,
        0 <= k < x.ncols,
        0 <= l < x.ncols,
    ensures
        ({
            let centers = initial_means(x, e.n_components as int, seed);
            &&& !e.means_given ==> after.means_posterior->0.row_view(c) == centers[c]
            &&& !e.means_prior_given ==> after.means_prior->0.at(c, k) == col_mean(x, k)
            &&& !e.beta_prior_given ==> rd(after.beta_prior->0@[c]) == 1real
            &&& !e.beta_given ==> rd(after.beta_posterior->0@[c]) == rows_nearest(x, centers, c)
            &&& !e.dof_prior_given ==> rd(
                match after.dof_prior->0 {
                    Dof::PerComponent(v) => v@[c],
                    Dof::Tied(v) => v,
                },
            ) == x.ncols as real
            &&& match after.dof_posterior->0 {
                Dof::PerComponent(v) => rd(v@[c]) == rows_nearest(x, centers, c),
                Dof::Tied(v) => rd(v) == rsum(
                    e.n_components as int,
                    |i: int| rows_nearest(x, centers, i),
                ),
            }
            &&& !e.scale_prior_given ==> 1000real * rd(
                kept_covariance(&after.scale_prior->0, c, k, l),
            ) == if k == l {
                1real
            } else {
                0real
            }
            &&& exists|floor: real|
                1000real * floor == 1real && #[trigger] starts_from_spread(
                    rd,
                    x,
                    floor,
                    e.covariance_type,
                    k,
                    l,
                    rd(kept_covariance(&after.covars->0, c, k, l)),
                )
        }),
{
    let nc = e.n_components as int;
    let n = x.rows.len() as int;
    let centers = initial_means(x, nc, seed);
    let counts = Seq::new(nc as nat, |c: int| nearest_tally(x, centers, c, n));
    tally_reads(rd, x, centers, c, n);
    let small = dec::<T>(1, -3);
    assert(1000real * rd(small) == 1real) by {
        reveal(reads_real);
        reveal_with_fuel(power_of_ten, 4);
        assert(power_of_ten(3) == 1000real);
        assert(rd(dec::<T>(1, -3)) * power_of_ten(3) == 1real);
    }
    let s = after.covars->0;
    let cv = choose|cv: Matrix<T>| #[trigger]
        floored_covariance(x, small, &cv) && forall|c: int, i: int, j: int|
            0 <= c < nc && 0 <= i < e.width() && 0 <= j < e.width() ==> #[trigger] s.cov_at(
                c,
                i,
                j,
            ) == distributed_at(&cv, e.covariance_type, i, j);
    spread_reads(rd, x, small, &cv, k, l);
    spread_reads(rd, x, small, &cv, k, k);
    assert(s.cov_at(c, k, l) == kept_covariance(&s, c, k, l));
    if !e.scale_prior_given {
        assert(after.scale_prior->0.cov_at(c, k, l) == kept_covariance(
            &after.scale_prior->0,
            c,
            k,
            l,
        ));
    }
    if !e.means_given {
        assert(after.means_posterior->0@[c] == after.means_posterior->0.row_view(c));
    }
    if !e.means_prior_given {
        assert(after.means_prior->0.at(c, k) == feature_mean(x, k));
    }
    match after.dof_posterior->0 {
        Dof::PerComponent(v) => {
            assert(v@[c] == counts[c]);
        },
        Dof::Tied(v) => {
            real_sums(rd);
            let f = |i: int| counts[i];
            real_lanes(rd, nc, f);
            let (a, b) = (|i: int| rd(f(i)), |i: int| rows_nearest(x, centers, i));
            assert forall|i: int| 0 <= i < nc implies #[trigger] a(i) == b(i) by {
                tally_reads(rd, x, centers, i, n);
            }
            rsum_ext(nc, a, b);
        },
    }
    reveal(reads_real);
    assert(rd(num::<T>(0)) == 0real);
    assert(rd(num::<T>(1)) == 1real);
    assert(rd(num::<T>(x.ncols as int)) == x.ncols as real);
    assert(starts_from_spread(rd, x, rd(small), e.covariance_type, k, l, rd(s.cov_at(c, k, l))));
}

/// The categorical model starts, in every state, from the shares of fresh uniform
/// numbers, taken row after row.
pub proof fn categorical_starts_from_uniform_shares<T: Dense>(
    rd: spec_fn(T) -> real,
    e: &CategoricalEm<T>,
    x: &Matrix<T>,
    init: ParamSet,
    seed: Option<u32>,
    after: &CategoricalEm<T>,
    c: int,
)
    requires
        reads_real(rd),
        e.init_rel(x, init, seed, after),
        init.members().contains(Param::Emit),
        0 <= c < e.n_components,
    ensures
        are_shares(
            |k: int| rd(after.emissionprob->0.at(c, k)),
            |k: int| rd(uniform_number::<T>(seed, c * e.symbols() + k)),
            e.symbols(),
        ),
{
    let raw = choose|raw: Matrix<T>| #[trigger]
        is_random_matrix(&raw, seed, e.n_components as int, e.symbols()) && normalized_rows(
            &raw,
            &after.emissionprob->0,
        );
    uniform_rows(rd, &raw, seed, e.n_components as int, e.symbols(), &after.emissionprob->0, c);
}

/// The multinomial model starts, in every state, from the shares of fresh uniform
/// numbers, taken row after row.
pub proof fn multinomial_starts_from_uniform_shares<T: Dense>(
    rd: spec_fn(T) -> real,
    e: &MultinomialEm<T>,
    x: &Matrix<T>,
    init: ParamSet,
    seed: Option<u32>,
    after: &MultinomialEm<T>,
    c: int,
)
    requires
        reads_real(rd),
        e.init_rel(x, init, seed, after),
        init.members().contains(Param::Emit),
        0 <= c < e.n_components,
    ensures
        are_shares(
            |k: int| rd(after.emissionprob->0.at(c, k)),
            |k: int| rd(uniform_number::<T>(seed, c * e.categories() + k)),
            e.categories(),
        ),
{
    let raw = choose|raw: Matrix<T>| #[trigger]
        is_random_matrix(&raw, seed, e.n_components as int, e.categories()) && normalized_rows(
            &raw,
            &after.emissionprob->0,
        );
    uniform_rows(rd, &raw, seed, e.n_components as int, e.categories(), &after.emissionprob->0, c);
}

/// The uniform number that a generator with this seed gives after `k` others.
pub open spec fn uniform_number<T: Scalar>(seed: Option<u32>, k: int) -> T {
    let start = fresh_state::<T>(
        match seed {
            Some(s) => s,
            None => 0u32,
        },
    );
    sample_of::<T>(start.sampled_n(k).mt)
}

proof fn uniform_rows<T: Scalar>(
    rd: spec_fn(T) -> real,
    raw: &Matrix<T>,
    seed: Option<u32>,
    n: int,
    m: int,
    b: &Matrix<T>,
    c: int,
)
    requires
        reads_real(rd),
        is_random_matrix(raw, seed, n, m),
        normalized_rows(raw, b),
        0 <= c < n,
    ensures
        are_shares(
            |k: int| rd(b.at(c, k)),
            |k: int| rd(uniform_number::<T>(seed, c * m + k)),
            m,
        ),
{
    normalized_row_is_shares(rd, raw, b, c);
    let u = |k: int| rd(raw.at(c, k));
    let v = |k: int| rd(uniform_number::<T>(seed, c * m + k));
    assert forall|k: int| 0 <= k < m implies #[trigger] u(k) == v(k) by {
        assert(raw.at(c, k) == sample_of::<T>(
            fresh_state::<T>(seed_or_zero(seed)).sampled_n(c * m + k).mt,
        ));
    }
    shares_of_equal(|k: int| rd(b.at(c, k)), u, v, m);
}

/// One number more keeps a spread equal to the sum of squares less the mean times the
/// sum.
proof fn spread_with_one_more(k: real, m: real, s2: real, s: real, v: real, e: real)
    requires
        s == s2 - m * (k * m),
        (k + 1real) * e == v - m,
    ensures
        s + (v - (m + e)) * (v - m) == s2 + v * v - (m + e) * (k * m + v),
        (k + 1real) * (m + e) == k * m + v,
{
    let d = v - m;
    let w = v - (m + e);
    let n = m + e;
    // The weights of the step.
    distributes(e, k, 1real);
    commutes(e, k + 1real);
    assert(e * k == w);
    associates(e, k, m);
    assert(e * (k * m) == w * m);
    // What the old sum gains.
    distributes(k * m, m, e);
    commutes(k * m, m);
    commutes(k * m, e);
    commutes(k * m, n);
    assert(n * (k * m) == m * (k * m) + w * m);
    // What the new number adds.
    distributes(w, v, m);
    assert(w * d == w * v - w * m);
    distributes(v, v, n);
    commutes(v, w);
    commutes(v, n);
    assert(w * v == v * v - n * v);
    distributes(n, k * m, v);
    // The mean.
    distributes(k + 1real, m, e);
    distributes(m, k, 1real);
    commutes(m, k);
    commutes(m, k + 1real);
}

/// What a pass over some numbers reads as: their number, sum and sum of squares.
spec fn moments_read<T: Scalar>(
    rd: spec_fn(T) -> real,
    m: Moments<T>,
    n: int,
    sum: real,
    squares: real,
) -> bool {
    &&& m.count == n
    &&& n as real * rd(m.mean) == sum
    &&& rd(m.spread) == squares - rd(m.mean) * sum
}

proof fn one_more_reads<T: Scalar>(
    rd: spec_fn(T) -> real,
    m: Moments<T>,
    n: int,
    sum: real,
    squares: real,
    v: T,
)
    requires
        reads_real(rd),
        forall|a: T, b: T, c: T| rd(#[trigger] a.s_mul_add(b, c)) == rd(a) * rd(b) + rd(c),
        moments_read(rd, m, n, sum, squares),
        0 <= n < usize::MAX,
    ensures
        moments_read(rd, m.with(v), n + 1, sum + rd(v), squares + rd(v) * rd(v)),
{
    let delta = v.s_minus(m.mean);
    let step = delta.s_over(num(n + 1));
    assert((n + 1) as real == n as real + 1real);
    assert((n as real + 1real) * rd(step) == rd(v) - rd(m.mean)) by {
        reveal(reads_real);
        assert(rd(num::<T>(n + 1)) == (n + 1) as real);
        commutes(n as real + 1real, rd(step));
    }
    spread_with_one_more(n as real, rd(m.mean), squares, rd(m.spread), rd(v), rd(step));
    reveal(reads_real);
}

proof fn row_more_reads<T: Scalar>(
    rd: spec_fn(T) -> real,
    m: Moments<T>,
    n: int,
    sum: real,
    squares: real,
    row: Seq<T>,
    k: int,
)
    requires
        reads_real(rd),
        forall|a: T, b: T, c: T| rd(#[trigger] a.s_mul_add(b, c)) == rd(a) * rd(b) + rd(c),
        moments_read(rd, m, n, sum, squares),
        0 <= n,
        0 <= k <= row.len(),
        n + k <= usize::MAX,
    ensures
        moments_read(
            rd,
            m.with_row(row, k),
            n + k,
            sum + rsum(k, |j: int| rd(row[j])),
            squares + rsum(k, |j: int| rd(row[j]) * rd(row[j])),
        ),
    decreases k,
{
    if k > 0 {
        row_more_reads(rd, m, n, sum, squares, row, k - 1);
        one_more_reads(
            rd,
            m.with_row(row, k - 1),
            n + k - 1,
            sum + rsum(k - 1, |j: int| rd(row[j])),
            squares + rsum(k - 1, |j: int| rd(row[j]) * rd(row[j])),
            row[k - 1],
        );
    }
}

proof fn rows_read<T: Scalar>(rd: spec_fn(T) -> real, x: &Matrix<T>, n: int)
    requires
        reads_real(rd),
        forall|a: T, b: T, c: T| rd(#[trigger] a.s_mul_add(b, c)) == rd(a) * rd(b) + rd(c),
        x.wf(),
        0 <= n <= x.rows.len(),
        n * x.ncols <= usize::MAX,
    ensures
        moments_read(
            rd,
            moments_of(x, n),
            n * x.ncols,
            rsum(n, |t: int| rsum(x.ncols as int, |f: int| rd(x.at(t, f)))),
            rsum(n, |t: int| rsum(x.ncols as int, |f: int| rd(x.at(t, f)) * rd(x.at(t, f)))),
        ),
    decreases n,
{
    let m = x.ncols as int;
    let sums = |t: int| rsum(m, |f: int| rd(x.at(t, f)));
    let squares = |t: int| rsum(m, |f: int| rd(x.at(t, f)) * rd(x.at(t, f)));
    if n > 0 {
        assert((n - 1) * m + m == n * m && (n - 1) * m >= 0) by (nonlinear_arith)
            requires
                n > 0,
                m >= 0,
        ;
        rows_read(rd, x, n - 1);
        let row = x.row_view(n - 1);
        row_more_reads(
            rd,
            moments_of(x, n - 1),
            (n - 1) * m,
            rsum(n - 1, sums),
            rsum(n - 1, squares),
            row,
            m,
        );
        rsum_ext(m, |j: int| rd(row[j]), |f: int| rd(x.at(n - 1, f)));
        rsum_ext(
            m,
            |j: int| rd(row[j]) * rd(row[j]),
            |f: int| rd(x.at(n - 1, f)) * rd(x.at(n - 1, f)),
        );
        assert(rsum(n, sums) == rsum(n - 1, sums) + sums(n - 1));
        assert(rsum(n, squares) == rsum(n - 1, squares) + squares(n - 1));
    } else {
        assert(0 * m == 0) by (nonlinear_arith);
        reveal(reads_real);
        assert(rd(num::<T>(0)) == 0real);
        annuls(rd(num::<T>(0)));
    }
}

/// The variance of all entries, times their number, is the sum of their squares less
/// their mean times their sum.
pub proof fn variance_of_all_entries<T: Scalar>(rd: spec_fn(T) -> real, x: &Matrix<T>)
    requires
        reads_real(rd),
        forall|a: T, b: T, c: T| rd(#[trigger] a.s_mul_add(b, c)) == rd(a) * rd(b) + rd(c),
        x.wf(),
        x.rows.len() >= 1,
        x.ncols >= 1,
        x.rows.len() * x.ncols <= usize::MAX,
    ensures
        rd(grand_variance(x)) * (x.rows.len() * x.ncols) as real == rsum(
            x.rows.len() as int,
            |t: int| rsum(x.ncols as int, |f: int| rd(x.at(t, f)) * rd(x.at(t, f))),
        ) - rd(grand_mean(x)) * rsum(
            x.rows.len() as int,
            |t: int| rsum(x.ncols as int, |f: int| rd(x.at(t, f))),
        ),
{
    let n = x.rows.len() as int;
    let m = x.ncols as int;
    rows_read(rd, x, n);
    grand_mean_reads(rd, x);
    assert(n * m >= 1) by (nonlinear_arith)
        requires
            n >= 1,
            m >= 1,
    ;
    let all = moments_of(x, n);
    let k = (n * m) as real;
    commutes(k, rd(all.mean));
    cancels(rd(all.mean), rd(grand_mean(x)), k);
    reveal(reads_real);
    assert(rd(num::<T>(n * m)) == k);
}

/// The Poisson model starts from gamma draws whose mean and variance are those of all
/// entries: of shape and scale such that their product is the mean, and once more times
/// the scale the variance.
pub proof fn poisson_starts_from_moments<T: Dense>(
    rd: spec_fn(T) -> real,
    e: &PoissonEm<T>,
    x: &Matrix<T>,
    init: ParamSet,
    seed: Option<u32>,
    after: &PoissonEm<T>,
) -> (r: (T, T))
    requires
        reads_real(rd),
        e.init_rel(x, init, seed, after),
        init.members().contains(Param::Lambdas),
        rd(grand_mean(x)) != 0real,
        rd(grand_variance(x)) != 0real,
    ensures
        rd(r.0) * rd(r.1) == rd(grand_mean(x)),
        rd(r.0) * rd(r.1) * rd(r.1) == rd(grand_variance(x)),
        gamma_rows(
            fresh_state::<T>(
                match seed {
                    Some(s) => s,
                    None => 0u32,
                },
            ),
            r.0,
            r.1,
            e.width(),
            e.n_components as int,
        ).1 == Some(after.lambdas->0@),
{
    let (mean, var) = (grand_mean(x), grand_variance(x));
    let shape = mean.s_times(mean).s_over(var);
    let scale = var.s_over(mean);
    let (a, b, m, v) = (rd(shape), rd(scale), rd(mean), rd(var));
    assert(a * v == m * m && b * m == v) by {
        reveal(reads_real);
    }
    associates(a, b, m);
    cancels(a * b, m, m);
    commutes(m, b);
    (shape, scale)
}

/// The variational categorical model starts, in every state, from Dirichlet draws under
/// its prior, so that all states together are worth as many rows as there are; the prior
/// is the given scalar or one over the number of symbols.
pub proof fn variational_categorical_starts_from_dirichlet_draws<T: Dense>(
    rd: spec_fn(T) -> real,
    e: &VariationalCategoricalEm<T>,
    x: &Matrix<T>,
    init: ParamSet,
    seed: Option<u32>,
    after: &VariationalCategoricalEm<T>,
    c: int,
    k: int,
) -> (r: (Seq<T>, Seq<Seq<T>>))
    requires
        reads_real(rd),
        e.init_rel(x, init, seed, after),
        init.members().contains(Param::Emit),
        0 <= c < e.n_components,
        0 <= k < e.symbols(),
    ensures
        r.0.len() == e.symbols(),
        forall|j: int|
            0 <= j < e.symbols() ==> #[trigger] r.0[j] == after.prior->0.at(c, k),
        prior_of(
            rd,
            e.emissionprob_prior_scalar,
            e.symbols(),
            rd(after.prior->0.at(c, k)),
        ),
        Some(r.1) == dirichlet_draws(opening_state::<T>(seed), r.0, e.n_components as int).1,
        r.1.len() == e.n_components && r.1[c].len() == e.symbols() ==> rd(
            after.posterior->0.at(c, k),
        ) * e.n_components as real == rd(r.1[c][k]) * x.rows.len() as real,
        are_shares(
            |j: int| rd(after.emissionprob->0.at(c, j)),
            |j: int| rd(after.posterior->0.at(c, j)),
            e.symbols(),
        ),
{
    let n = e.n_components as int;
    let m = e.symbols();
    let alpha = Seq::new(m as nat, |i: int| prior_value(e.emissionprob_prior_scalar, m));
    let drawn = e.drawn(seed)->0;
    let share = num::<T>(x.rows.len() as int).s_over(num(n));
    normalized_row_is_shares(rd, &after.posterior->0, &after.emissionprob->0, c);
    assert(after.posterior->0.at(c, k) == after.posterior->0@[c][k]);
    assert(after.prior->0.at(c, k) == prior_value(e.emissionprob_prior_scalar, m));
    assert(rd(share) * n as real == x.rows.len() as real && rd(num::<T>(1)) == 1real && rd(
        num::<T>(m),
    ) == m as real) by {
        reveal(reads_real);
        assert(rd(num::<T>(n)) == n as real);
        assert(rd(num::<T>(x.rows.len() as int)) == x.rows.len() as real);
    }
    if drawn.len() == n && drawn[c].len() == m {
        associates(rd(drawn[c][k]), rd(share), n as real);
        assert(after.posterior->0@[c][k] == drawn[c][k].s_times(share));
    }
    reveal(reads_real);
    (alpha, drawn)
}

/// `states` are the random states before the first of some gamma variates of one shape
/// and after each, `g` the variates.
pub open spec fn variates_drawn<T: Scalar>(
    s: RngView<T>,
    shape: T,
    states: Seq<RngView<T>>,
    g: Seq<T>,
) -> bool {
    &&& states.len() == g.len() + 1
    &&& states[0] == s
    &&& forall|j: int|
        0 <= j < g.len() ==> #[trigger] gamma_draw(states[j], shape) == (
            states[j + 1],
            Some(g[j]),
        )
}

/// A row of gamma draws holds standard gamma variates of the shape, drawn one after the
/// other, each times the scale.
pub proof fn gamma_row_scales_variates<T: Scalar>(s: RngView<T>, shape: T, scale: T, n: int) -> (r: (
    Seq<RngView<T>>,
    Seq<T>,
))
    requires
        n >= 0,
    ensures
        variates_drawn(s, shape, r.0, r.1),
        match gamma_row(s, shape, scale, n).1 {
            Some(row) => {
                &&& row.len() == n
                &&& r.1.len() == n
                &&& r.0.last() == gamma_row(s, shape, scale, n).0
                &&& forall|j: int| 0 <= j < n ==> #[trigger] row[j] == scale.s_times(r.1[j])
            },
            None => {
                &&& r.1.len() < n
                &&& gamma_draw(r.0.last(), shape) == (
                    gamma_row(s, shape, scale, n).0,
                    None::<T>,
                )
            },
        },
    decreases n,
{
    if n == 0 {
        (seq![s], Seq::empty())
    } else {
        let (states, g) = gamma_row_scales_variates(s, shape, scale, n - 1);
        match gamma_row(s, shape, scale, n - 1).1 {
            None => (states, g),
            Some(_) => {
                let d = gamma_draw(states.last(), shape);
                if d.1 is Some {
                    let (a, b) = (states.push(d.0), g.push(d.1->0));
                    assert forall|j: int| 0 <= j < b.len() implies #[trigger] gamma_draw(
                        a[j],
                        shape,
                    ) == (a[j + 1], Some(b[j])) by {
                        if j < n - 1 {
                            assert(gamma_draw(states[j], shape) == (states[j + 1], Some(g[j])));
                        } else {
                            assert(states.last() == a[j]);
                        }
                    }
                    (a, b)
                } else {
                    (states, g)
                }
            },
        }
    }
}

/// Several rows of gamma draws are single ones, each from the random state that those
/// before it leave; they fail where one of them does.
pub proof fn gamma_rows_follow_each_other<T: Scalar>(
    s: RngView<T>,
    shape: T,
    scale: T,
    k: int,
    n: int,
) -> (states: Seq<RngView<T>>)
    requires
        n >= 0,
    ensures
        states.len() >= 1,
        states[0] == s,
        forall|i: int|
            0 <= i < states.len() - 1 ==> (#[trigger] gamma_row(states[i], shape, scale, k)).0
                == states[i + 1] && gamma_row(states[i], shape, scale, k).1 is Some,
        ({
            let d = gamma_rows(s, shape, scale, k, n);
            match d.1 {
                Some(rows) => {
                    &&& rows.len() == n
                    &&& states.len() == n + 1
                    &&& states.last() == d.0
                    &&& forall|i: int|
                        0 <= i < n ==> Some(#[trigger] rows[i]) == gamma_row(
                            states[i],
                            shape,
                            scale,
                            k,
                        ).1
                },
                None => {
                    &&& states.len() <= n
                    &&& gamma_row(states.last(), shape, scale, k) == (d.0, None::<Seq<T>>)
                },
            }
        }),
    decreases n,
{
    if n == 0 {
        seq![s]
    } else {
        let states = gamma_rows_follow_each_other(s, shape, scale, k, n - 1);
        match gamma_rows(s, shape, scale, k, n - 1).1 {
            None => states,
            Some(_) => {
                let d = gamma_row(states.last(), shape, scale, k);
                if d.1 is Some {
                    let more = states.push(d.0);
                    assert forall|i: int| 0 <= i < more.len() - 1 implies (#[trigger] gamma_row(
                        more[i],
                        shape,
                        scale,
                        k,
                    )).0 == more[i + 1] && gamma_row(more[i], shape, scale, k).1 is Some by {
                        if i < n - 1 {
                            assert(gamma_row(states[i], shape, scale, k).0 == states[i + 1]);
                        } else {
                            assert(states.last() == more[i]);
                        }
                    }
                    more
                } else {
                    states
                }
            },
        }
    }
}

/// The rows that one cluster takes, counted.
pub open spec fn rows_labelled(labels: Seq<int>, label: int) -> int
    decreases labels.len(),
{
    if labels.len() == 0 {
        0
    } else {
        rows_labelled(labels.drop_last(), label) + if labels.last() == label {
            1int
        } else {
            0int
        }
    }
}

proof fn labels_counted(labels: Seq<int>, label: int, n: int)
    requires
        0 <= n <= labels.len(),
    ensures
        member_count(labels, label, n) == rows_labelled(labels.take(n), label),
    decreases n,
{
    if n > 0 {
        labels_counted(labels, label, n - 1);
        assert(labels.take(n).drop_last() =~= labels.take(n - 1));
    }
}

/// The mixture model starts from the centres that clustering finds for the states. A
/// state whose cluster has at least as many rows as mixtures starts from the centres that
/// clustering finds among those rows; the means of any other are drawn about the average
/// of the centres with the covariance of all rows, `min_covar` added to the variances.
pub proof fn mixture_starts_from_clusters<T: Dense>(
    rd: spec_fn(T) -> real,
    e: &GmmEm<T>,
    x: &Matrix<T>,
    init: ParamSet,
    seed: Option<u32>,
    after: &GmmEm<T>,
    i: int,
) -> (r: (Seq<T>, Matrix<T>, RngView<T>))
    requires
        reads_real(rd),
        e.init_rel(x, init, seed, after),
        init.members().contains(Param::Means),
        e.n_components >= 1,
        0 <= i < e.n_components,
    ensures
        ({
            let centers = initial_means(x, e.n_components as int, seed);
            let labels = Seq::new(x.rows.len() as nat, |t: int| nearest(x, centers, t));
            if rows_labelled(labels, i) >= e.n_mix {
                exists|own: Matrix<T>| #[trigger]
                    is_selection(x, labels, i, &own) && after.means->0.items@[i]@ == initial_means(
                        &own,
                        e.n_mix as int,
                        seed,
                    )
            } else {
                &&& centers.len() == e.n_components ==> forall|f: int|
                    0 <= f < x.ncols ==> rd(#[trigger] r.0[f]) * e.n_components as real == rsum(
                        e.n_components as int,
                        |c: int| rd(centers[c][f]),
                    )
                &&& floored_covariance(x, e.min_covar, &r.1)
                &&& Some(after.means->0.items@[i]@) == gaussian_draws(
                    r.0,
                    r.1@,
                    r.2,
                    e.n_mix as int,
                ).1
                &&& i == 0 ==> r.2 == opening_state::<T>(seed)
            }
        }),
{
    let n = e.n_components as int;
    let centers = initial_means(x, n, seed);
    let labels = Seq::new(x.rows.len() as nat, |t: int| nearest(x, centers, t));
    let start = gmm_start(x, n, seed);
    assert(start.labels =~= labels);
    labels_counted(labels, i, x.rows.len() as int);
    assert(labels.take(x.rows.len() as int) =~= labels);
    let cv = choose|cv: Matrix<T>| #[trigger]
        floored_covariance(x, e.min_covar, &cv) && forall|label: int|
            0 <= label < n ==> starts_state(
                x,
                start.labels,
                e.n_mix as int,
                seed,
                start.centroid,
                cv@,
                label,
                (#[trigger] after.means->0.items@[label])@,
            );
    assert(starts_state(
        x,
        start.labels,
        e.n_mix as int,
        seed,
        start.centroid,
        cv@,
        i,
        after.means->0.items@[i]@,
    ));
    if centers.len() == n {
        assert forall|f: int| 0 <= f < x.ncols implies rd(#[trigger] start.centroid[f]) * n as real
            == rsum(n, |c: int| rd(centers[c][f])) by {
            let g = |c: int| centers[c][f];
            real_sums(rd);
            real_sigma(rd, n, g);
            rsum_ext(n, |c: int| rd(g(c)), |c: int| rd(centers[c][f]));
            reveal(reads_real);
            assert(rd(num::<T>(n)) == n as real);
            assert(start.centroid[f] == sigma(n, g).s_over(num(n)));
        }
    }
    let s = state_before(
        start.labels,
        e.n_mix as int,
        start.centroid,
        cv@,
        fresh_state(seed_or_zero(seed)),
        i,
    );
    (start.centroid, cv, s)
}

/// `at` lists, in order, the rows among the first `n` that are labelled `label`.
pub open spec fn lists_members(labels: Seq<int>, label: int, n: int, at: Seq<int>) -> bool {
    &&& forall|k: int| 0 <= k < at.len() ==> 0 <= #[trigger] at[k] < n && labels[at[k]] == label
    &&& forall|j: int, k: int| 0 <= j < k < at.len() ==> #[trigger] at[j] < #[trigger] at[k]
    &&& forall|t: int|
        0 <= t < n && #[trigger] labels[t] == label ==> exists|k: int|
            0 <= k < at.len() && #[trigger] at[k] == t
}

proof fn selected_lists<T>(rows: Seq<Seq<T>>, labels: Seq<int>, label: int, n: int) -> (at: Seq<
    int,
>)
    requires
        0 <= n,
    ensures
        lists_members(labels, label, n, at),
        selected(rows, labels, label, n).len() == at.len(),
        forall|k: int|
            0 <= k < at.len() ==> #[trigger] selected(rows, labels, label, n)[k] == rows[at[k]],
    decreases n,
{
    if n == 0 {
        Seq::empty()
    } else {
        let at = selected_lists(rows, labels, label, n - 1);
        if labels[n - 1] == label {
            let more = at.push(n - 1);
            assert forall|t: int| 0 <= t < n && #[trigger] labels[t] == label implies exists|k: int|
                0 <= k < more.len() && #[trigger] more[k] == t by {
                if t < n - 1 {
                    let k = choose|k: int| 0 <= k < at.len() && #[trigger] at[k] == t;
                    assert(more[k] == t);
                } else {
                    assert(more[at.len() as int] == t);
                }
            }
            more
        } else {
            at
        }
    }
}

/// The rows of a cluster are all the rows with its label, in their order.
pub proof fn selection_holds_the_members<T: Scalar>(
    x: &Matrix<T>,
    labels: Seq<int>,
    label: int,
    own: &Matrix<T>,
) -> (at: Seq<int>)
    requires
        is_selection(x, labels, label, own),
    ensures
        lists_members(labels, label, x.rows.len() as int, at),
        own.rows.len() == at.len(),
        own.ncols == x.ncols,
        forall|k: int| 0 <= k < at.len() ==> #[trigger] own@[k] == x.row_view(at[k]),
{
    let at = selected_lists(x@, labels, label, x.rows.len() as int);
    assert(own@.len() == own.rows.len());
    assert forall|k: int| 0 <= k < at.len() implies #[trigger] own@[k] == x.row_view(at[k]) by {
        assert(own@[k] == selected(x@, labels, label, x.rows.len() as int)[k]);
        assert(0 <= at[k] < x.rows.len());
    }
    at
}

/// The states draw their means in order: a state whose cluster has enough rows leaves the
/// random state as it is, any other draws as many times as there are mixtures.
pub proof fn mixture_draws_follow_each_other<T: Dense>(
    labels: Seq<int>,
    nm: int,
    centroid: Seq<T>,
    cov: Seq<Seq<T>>,
    s: RngView<T>,
    i: int,
)
    requires
        i >= 0,
    ensures
        state_before(labels, nm, centroid, cov, s, 0) == s,
        rows_labelled(labels, i) >= nm ==> state_before(labels, nm, centroid, cov, s, i + 1)
            == state_before(labels, nm, centroid, cov, s, i),
        rows_labelled(labels, i) < nm ==> state_before(labels, nm, centroid, cov, s, i + 1)
            == gaussian_draws(
            centroid,
            cov,
            state_before(labels, nm, centroid, cov, s, i),
            nm,
        ).0,
{
    labels_counted(labels, i, labels.len() as int);
    assert(labels.take(labels.len() as int) =~= labels);
}

/// Several draws from one normal distribution are single ones, each from the random state
/// that those before it leave; they fail where one of them does.
pub proof fn gaussian_draws_follow_each_other<T: Dense>(
    mean: Seq<T>,
    cov: Seq<Seq<T>>,
    s: RngView<T>,
    n: int,
) -> (states: Seq<RngView<T>>)
    requires
        n >= 0,
    ensures
        states.len() >= 1,
        states[0] == s,
        forall|i: int|
            0 <= i < states.len() - 1 ==> (#[trigger] gaussian_draw(mean, cov, states[i])).0
                == states[i + 1] && gaussian_draw(mean, cov, states[i]).1 is Some,
        ({
            let d = gaussian_draws(mean, cov, s, n);
            match d.1 {
                Some(rows) => {
                    &&& rows.len() == n
                    &&& states.len() == n + 1
                    &&& states.last() == d.0
                    &&& forall|i: int|
                        0 <= i < n ==> Some(#[trigger] rows[i]) == gaussian_draw(
                            mean,
                            cov,
                            states[i],
                        ).1
                },
                None => {
                    &&& states.len() <= n
                    &&& gaussian_draw(mean, cov, states.last()) == (d.0, None::<Seq<T>>)
                },
            }
        }),
    decreases n,
{
    if n == 0 {
        seq![s]
    } else {
        let states = gaussian_draws_follow_each_other(mean, cov, s, n - 1);
        match gaussian_draws(mean, cov, s, n - 1).1 {
            None => states,
            Some(_) => {
                let d = gaussian_draw(mean, cov, states.last());
                if d.1 is Some {
                    let more = states.push(d.0);
                    assert forall|i: int| 0 <= i < more.len() - 1 implies (
                    #[trigger] gaussian_draw(mean, cov, more[i])).0 == more[i + 1] && gaussian_draw(
                        mean,
                        cov,
                        more[i],
                    ).1 is Some by {
                        if i < n - 1 {
                            assert(gaussian_draw(mean, cov, states[i]).0 == states[i + 1]);
                        } else {
                            assert(states.last() == more[i]);
                        }
                    }
                    more
                } else {
                    states
                }
            },
        }
    }
}

} // verus!
