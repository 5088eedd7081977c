//! Gaussian model.
//!
//! Supports the four covariance parameterisations. Means are initialised with
//! k-means++ and covariances from the sample covariance. The M-step works under
//! normal and inverse-Wishart priors.

use crate::cluster::{best_restart, kmeans};
use crate::counting::{clamped_product, clamped_sum, saturated, saturated_factor};
use crate::covariance::store::{distribute_covar, distributed_at, CovarStore};
use crate::covariance::types::CovarianceType;
use crate::covariance::validate::{check_covars, covars_right, covars_wrong};
use crate::engine::emission::EmissionModel;
use crate::engine::fit::{fit_ready, fit_result, taken_as_fitted};
use crate::engine::fitted::Fitted;
use crate::engine::hmm::Hmm;
use crate::engine::inference::{seed_or_zero, Em, Inference};
use crate::engine::monitor::ConvergenceMonitor;
use crate::engine::params::{less, DecoderAlgorithm, Implementation, Param, ParamSet};
use crate::error::HmmError;
use crate::linalg::Dense;
use crate::matrix::{col_sum, col_total, filled, tabulate, view_from_entries, Cube, Matrix};
use crate::models::shared::{
    add_products, columns_message, confirm_features, em_built, exp_matrix, gains_products,
    has_settings,
};
use crate::rng::gauss::{drawing_factor, normal_draws, transformed_at};
use crate::rng::state::{fresh_state, NumpyRandomState, RngView};
use crate::scalar::{
    count, dec, lanes, lanes_of, larger, larger_of, num, one, sigma, sum, sum_of, total, zero, Scalar,
};
use crate::stats::covariance::{covariance_at, sample_covariance};
use crate::stats::mvn::{density_of_row, log_density_at, log_multivariate_normal_density};
use vstd::prelude::*;

verus! {

/// The number of entries on and above the diagonal of an `n` by `n` matrix.
pub open spec fn triangle(n: int) -> int {
    n * (n + 1) / 2
}

/// The number of entries on and above the diagonal, clamped to the largest machine
/// integer.
pub fn clamped_triangle(n: usize) -> (r: usize)
    ensures
        r == saturated(triangle(n as int)),
        0 <= triangle(n as int),
{
    let h: usize = n / 2;
    if n % 2 == 0 {
        assert(n * (n + 1) / 2 == h * (n + 1) && 0 <= h * (n + 1)) by (nonlinear_arith)
            requires
                n == 2 * h,
                h >= 0,
        ;
        clamped_product(h, n + 1)
    } else {
        assert(n * (n + 1) / 2 == n * (h + 1) && 0 <= n * (h + 1)) by (nonlinear_arith)
            requires
                n == 2 * h + 1,
                h >= 0,
        ;
        clamped_product(n, h + 1)
    }
}

/// Emission statistics.
pub struct GaussianStats<T> {
    /// Accumulated posterior mass per state.
    pub post: Vec<T>,
    /// Accumulated posterior-weighted observations, `(n_components, n_features)`.
    pub obs: Matrix<T>,
    /// Accumulated posterior-weighted squares, `(n_components, n_features)`.
    pub obs2: Matrix<T>,
    /// Accumulated posterior-weighted outer products, for tied and full
    /// covariances.
    pub obs_obs_t: Option<Cube<T>>,
}

/// Gaussian emission model.
#[derive(Clone)]
pub struct GaussianEm<T> {
    /// Number of hidden states.
    pub n_components: usize,
    /// Number of features; `None` until inferred from data or presets.
    pub n_features: Option<usize>,
    /// Covariance parameterisation.
    pub covariance_type: CovarianceType,
    /// Means, `(n_components, n_features)`; `None` until initialised.
    pub means: Option<Matrix<T>>,
    /// Covariances; `None` until initialised.
    pub covars: Option<CovarStore<T>>,
    /// Whether the means are set and must not be initialised again.
    pub means_preset: bool,
    /// Whether the covariances are set and must not be initialised again.
    pub covars_preset: bool,
    /// Floor added to the covariance diagonal at initialisation.
    pub min_covar: T,
    /// Scalar prior mean of the means.
    pub means_prior: T,
    /// Prior means, one per state and feature, in place of the scalar.
    pub means_prior_arr: Option<Matrix<T>>,
    /// Prior weight of the means.
    pub means_weight: T,
    /// Prior scale of the covariances.
    pub covars_prior: T,
    /// Prior weight of the covariances.
    pub covars_weight: T,
}

/// Tied and full covariances work with whole matrices.
pub open spec fn is_dense(t: CovarianceType) -> bool {
    t == CovarianceType::Tied || t == CovarianceType::Full
}

/// `after` is `before` plus `post^T (x * x)`.
pub open spec fn gains_squares<T: Scalar>(
    before: &Matrix<T>,
    post: &Matrix<T>,
    x: &Matrix<T>,
    after: &Matrix<T>,
) -> bool {
    after.has_dims(before.rows.len() as int, before.ncols as int) && forall|c: int, f: int|
        0 <= c < before.rows.len() && 0 <= f < before.ncols ==> #[trigger] after.at(c, f)
            == before.at(c, f).s_plus(
            sigma(
                x.rows.len() as int,
                |t: int| post.at(t, c).s_times(x.at(t, f).s_times(x.at(t, f))),
            ),
        )
}

fn column_square<T: Scalar>(post: &Matrix<T>, x: &Matrix<T>, c: usize, f: usize) -> (r: T)
    requires
        x.wf(),
        post.has_dims(x.rows.len() as int, post.ncols as int),
        c < post.ncols,
        f < x.ncols,
    ensures
        r == sigma(
            x.rows.len() as int,
            |t: int|
                post.at(t, c as int).s_times(x.at(t, f as int).s_times(x.at(t, f as int))),
        ),
{
    let g = |t: usize| -> (v: T)
        requires
            t < x.rows.len(),
            x.wf(),
            post.has_dims(x.rows.len() as int, post.ncols as int),
            c < post.ncols,
            f < x.ncols,
        ensures
            v == post.at(t as int, c as int).s_times(
                x.at(t as int, f as int).s_times(x.at(t as int, f as int)),
            ),
    {
        let v = x.get(t, f);
        post.get(t, c).times(v.times(v))
    };
    sum_of(
        x.rows.len(),
        g,
        Ghost(
            |t: int|
                post.at(t, c as int).s_times(x.at(t, f as int).s_times(x.at(t, f as int))),
        ),
    )
}

/// `before + post^T (x * x)`.
pub fn add_squares<T: Scalar>(before: &Matrix<T>, post: &Matrix<T>, x: &Matrix<T>) -> (after:
    Matrix<T>)
    requires
        x.wf(),
        post.has_dims(x.rows.len() as int, post.ncols as int),
        before.has_dims(post.ncols as int, x.ncols as int),
    ensures
        gains_squares(before, post, x, &after),
{
    let g = |c: usize, f: usize| -> (v: T)
        requires
            x.wf(),
            post.has_dims(x.rows.len() as int, post.ncols as int),
            before.has_dims(post.ncols as int, x.ncols as int),
            c < post.ncols,
            f < x.ncols,
        ensures
            v == before.at(c as int, f as int).s_plus(
                sigma(
                    x.rows.len() as int,
                    |t: int|
                        post.at(t, c as int).s_times(
                            x.at(t, f as int).s_times(x.at(t, f as int)),
                        ),
                ),
            ),
    {
        before.get(c, f).plus(column_square(post, x, c, f))
    };
    Matrix::tabulate(before.rows.len(), before.ncols, g)
}

/// `after` is `before` plus the column sums of `post`.
pub open spec fn gains_mass<T: Scalar>(before: Seq<T>, post: &Matrix<T>, after: Seq<T>) -> bool {
    after.len() == before.len() && forall|c: int|
        0 <= c < before.len() ==> #[trigger] after[c] == before[c].s_plus(col_total(post, c))
}

/// `before` plus the column sums of `post`.
pub fn add_mass<T: Scalar>(before: &Vec<T>, post: &Matrix<T>) -> (after: Vec<T>)
    requires
        post.wf(),
        post.ncols == before.len(),
    ensures
        gains_mass(before@, post, after@),
{
    let f = |c: usize| -> (v: T)
        requires
            c < before.len(),
            post.wf(),
            post.ncols == before.len(),
        ensures
            v == before@[c as int].s_plus(col_total(post, c as int)),
    {
        before[c].plus(col_sum(post, c))
    };
    tabulate(before.len(), f)
}

/// The posterior-weighted product of features `k` and `l` in state `c` after the
/// first `n` rows; rows with posterior zero are passed over.
pub open spec fn outer_mass<T: Scalar>(
    before: T,
    x: &Matrix<T>,
    post: &Matrix<T>,
    c: int,
    k: int,
    l: int,
    n: int,
) -> T
    decreases n,
{
    if n <= 0 {
        before
    } else {
        let acc = outer_mass(before, x, post, c, k, l, n - 1);
        let p = post.at(n - 1, c);
        if p.s_same(num(0)) {
            acc
        } else {
            acc.s_plus(p.s_times(x.at(n - 1, k)).s_times(x.at(n - 1, l)))
        }
    }
}

fn outer_entry<T: Scalar>(before: T, x: &Matrix<T>, post: &Matrix<T>, c: usize, k: usize, l: usize) -> (r:
    T)
    requires
        x.wf(),
        post.has_dims(x.rows.len() as int, post.ncols as int),
        c < post.ncols,
        k < x.ncols,
        l < x.ncols,
    ensures
        r == outer_mass(before, x, post, c as int, k as int, l as int, x.rows.len() as int),
{
    let mut acc = before;
    let mut t: usize = 0;
    while t < x.rows.len()
        invariant
            t <= x.rows.len(),
            x.wf(),
            post.has_dims(x.rows.len() as int, post.ncols as int),
            c < post.ncols,
            k < x.ncols,
            l < x.ncols,
            acc == outer_mass(before, x, post, c as int, k as int, l as int, t as int),
        decreases x.rows.len() - t,
    {
        let p = post.get(t, c);
        if !p.same(zero()) {
            acc = acc.plus(p.times(x.get(t, k)).times(x.get(t, l)));
        }
        t += 1;
    }
    acc
}

/// `after` is `before` plus the posterior-weighted outer products.
pub open spec fn gains_outer<T: Scalar>(
    before: &Cube<T>,
    post: &Matrix<T>,
    x: &Matrix<T>,
    after: &Cube<T>,
) -> bool {
    after.has_dims(before.items.len() as int, before.nrows as int, before.ncols as int) && forall|
        c: int,
        k: int,
        l: int,
    |
        0 <= c < before.items.len() && 0 <= k < before.nrows && 0 <= l < before.ncols
            ==> #[trigger] after.at(c, k, l) == outer_mass(
            before.at(c, k, l),
            x,
            post,
            c,
            k,
            l,
            x.rows.len() as int,
        )
}

/// `before` plus the posterior-weighted outer products.
pub fn add_outer<T: Scalar>(before: &Cube<T>, post: &Matrix<T>, x: &Matrix<T>) -> (after: Cube<T>)
    requires
        x.wf(),
        post.has_dims(x.rows.len() as int, post.ncols as int),
        before.has_dims(post.ncols as int, x.ncols as int, x.ncols as int),
    ensures
        gains_outer(before, post, x, &after),
{
    let f = |c: usize, k: usize, l: usize| -> (v: T)
        requires
            x.wf(),
            post.has_dims(x.rows.len() as int, post.ncols as int),
            before.has_dims(post.ncols as int, x.ncols as int, x.ncols as int),
            c < post.ncols,
            k < x.ncols,
            l < x.ncols,
        ensures
            v == outer_mass(
                before.at(c as int, k as int, l as int),
                x,
                post,
                c as int,
                k as int,
                l as int,
                x.rows.len() as int,
            ),
    {
        outer_entry(before.get(c, k, l), x, post, c, k, l)
    };
    Cube::tabulate(before.items.len(), before.nrows, before.ncols, f)
}

impl<T: Scalar> GaussianEm<T> {
    /// The number of features, where it is known.
    pub open spec fn width(&self) -> int {
        self.n_features->0 as int
    }

    /// Given prior means cover the states and `nf` features.
    pub open spec fn agrees(&self, nf: int) -> bool {
        self.means_prior_arr matches Some(p) ==> p.rows.len() >= self.n_components && p.ncols >= nf
    }

    /// The updates of `params` read prior means that are not there.
    pub open spec fn prior_missing(&self, params: Set<Param>) -> bool {
        (params.contains(Param::Means) || params.contains(Param::Covars)) && !self.agrees(
            self.width(),
        )
    }

    /// Means or covariances are initialised, being in `init` or not set yet.
    pub open spec fn some_needed(&self, init: Set<Param>) -> bool {
        ||| init.contains(Param::Means)
        ||| init.contains(Param::Covars)
        ||| !self.means_preset
        ||| !self.covars_preset
    }

    /// Given arrays are rectangular, and given means fix the number of features.
    pub open spec fn ok(&self) -> bool {
        &&& self.means matches Some(m) ==> m.wf() && self.n_features == Some(m.ncols)
        &&& self.covars matches Some(c) ==> c.wf()
        &&& self.means_prior_arr matches Some(p) ==> p.wf()
    }

    /// Means and covariances are set and have the right shapes.
    pub open spec fn shaped(&self) -> bool {
        &&& self.n_features is Some
        &&& self.means matches Some(m) && m.has_dims(self.n_components as int, self.width())
        &&& self.covars matches Some(c) && c.fits(self.n_components as int, self.width())
    }

    /// The prior mean of feature `f` in state `c`.
    pub open spec fn prior_mean(&self, c: int, f: int) -> T {
        match self.means_prior_arr {
            Some(p) => p.at(c, f),
            None => self.means_prior,
        }
    }

    /// The means, `(n_components, n_features)`.
    pub fn means(&self) -> (r: &Matrix<T>)
        requires
            self.means is Some,
        ensures
            Some(*r) == self.means,
    {
        match &self.means {
            Some(m) => m,
            None => vstd::pervasive::unreached(),
        }
    }

    /// The covariances in their compact form.
    pub fn covars(&self) -> (r: &CovarStore<T>)
        requires
            self.covars is Some,
        ensures
            Some(*r) == self.covars,
    {
        match &self.covars {
            Some(c) => c,
            None => vstd::pervasive::unreached(),
        }
    }

    /// The covariances as dense matrices, `(n_components, n_features, n_features)`.
    pub fn covars_full(&self) -> (r: Cube<T>)
        requires
            self.shaped(),
        ensures
            r.has_dims(self.n_components as int, self.width(), self.width()),
            forall|c: int, i: int, j: int|
                0 <= c < self.n_components && 0 <= i < self.width() && 0 <= j < self.width()
                    ==> #[trigger] r.at(c, i, j) == self.covars->0.cov_at(c, i, j),
    {
        self.covars().full(self.n_components, self.nf())
    }

    fn nf(&self) -> (n: usize)
        requires
            self.n_features is Some,
        ensures
            Some(n) == self.n_features,
    {
        match self.n_features {
            Some(n) => n,
            None => 0,
        }
    }

    fn prior_at(&self, c: usize, f: usize) -> (r: T)
        requires
            self.n_features is Some,
            self.ok(),
            self.agrees(self.width()),
            c < self.n_components,
            f < self.width(),
        ensures
            r == self.prior_mean(c as int, f as int),
    {
        match &self.means_prior_arr {
            Some(p) => p.get(c, f),
            None => self.means_prior,
        }
    }

    /// The statistics have the shapes of this model.
    pub open spec fn takes(&self, stats: &GaussianStats<T>) -> bool {
        let nc = self.n_components as int;
        let nf = self.width();
        &&& stats.post.len() == nc
        &&& stats.obs.has_dims(nc, nf)
        &&& stats.obs2.has_dims(nc, nf)
        &&& is_dense(self.covariance_type) ==> (stats.obs_obs_t matches Some(q) && q.has_dims(
            nc,
            nf,
            nf,
        ))
    }

    /// The updated mean of feature `f` in state `c`.
    pub open spec fn updated_mean(&self, stats: &GaussianStats<T>, c: int, f: int) -> T {
        self.means_weight.s_times(self.prior_mean(c, f)).s_plus(stats.obs.at(c, f)).s_over(
            self.means_weight.s_plus(stats.post@[c]),
        )
    }

    /// The updated variance of feature `f` in state `c`, given the new means.
    pub open spec fn updated_variance(
        &self,
        stats: &GaussianStats<T>,
        means: &Matrix<T>,
        c: int,
        f: int,
    ) -> T {
        let post = stats.post@[c];
        let m = means.at(c, f);
        let d = m.s_minus(self.prior_mean(c, f));
        let numer = self.means_weight.s_times(d).s_times(d).s_plus(stats.obs2.at(c, f)).s_minus(
            num::<T>(2).s_times(m).s_times(stats.obs.at(c, f)),
        ).s_plus(m.s_times(m).s_times(post));
        let denom = larger_of(
            larger_of(self.covars_weight.s_minus(num(1)), num(0)).s_plus(post),
            dec(1, -5),
        );
        self.covars_prior.s_plus(numer).s_over(denom)
    }

    /// The scatter of features `k` and `l` in state `c` about the new means, with
    /// the prior term.
    pub open spec fn scatter_at(
        &self,
        stats: &GaussianStats<T>,
        means: &Matrix<T>,
        c: int,
        k: int,
        l: int,
    ) -> T {
        let dk = means.at(c, k).s_minus(self.prior_mean(c, k));
        let dl = means.at(c, l).s_minus(self.prior_mean(c, l));
        self.means_weight.s_times(dk).s_times(dl).s_plus(
            stats.obs_obs_t->0.at(c, k, l),
        ).s_minus(stats.obs.at(c, k).s_times(means.at(c, l))).s_minus(
            stats.obs.at(c, l).s_times(means.at(c, k)),
        ).s_plus(means.at(c, k).s_times(means.at(c, l)).s_times(stats.post@[c]))
    }

    /// The weight that dense covariance updates divide by, beside the posterior
    /// mass: `max(covars_weight - n_features, 0)`.
    pub open spec fn dense_weight(&self) -> T {
        larger_of(self.covars_weight.s_minus(num(self.width())), num(0))
    }

    /// `store` holds the updated covariances, given the new means.
    pub open spec fn updated_covars(
        &self,
        stats: &GaussianStats<T>,
        means: &Matrix<T>,
        store: &CovarStore<T>,
    ) -> bool {
        let nc = self.n_components as int;
        let nf = self.width();
        &&& store.tag() == self.covariance_type
        &&& store.fits(nc, nf)
        &&& match store {
            CovarStore::Spherical(v) => forall|c: int|
                0 <= c < nc ==> #[trigger] v@[c] == lanes(
                    nf,
                    |f: int| self.updated_variance(stats, means, c, f),
                ).s_over(num(nf)),
            CovarStore::Diag(m) => forall|c: int, f: int|
                0 <= c < nc && 0 <= f < nf ==> #[trigger] m.at(c, f) == self.updated_variance(
                    stats,
                    means,
                    c,
                    f,
                ),
            CovarStore::Tied(m) => forall|k: int, l: int|
                0 <= k < nf && 0 <= l < nf ==> #[trigger] m.at(k, l) == self.covars_prior.s_plus(
                    sigma(nc, |c: int| self.scatter_at(stats, means, c, k, l)),
                ).s_over(self.dense_weight().s_plus(total(stats.post@))),
            CovarStore::Full(q) => forall|c: int, k: int, l: int|
                0 <= c < nc && 0 <= k < nf && 0 <= l < nf ==> #[trigger] q.at(c, k, l)
                    == self.covars_prior.s_plus(self.scatter_at(stats, means, c, k, l)).s_over(
                    self.dense_weight().s_plus(stats.post@[c]),
                ),
        }
    }

    /// The updated means.
    fn update_means(&self, stats: &GaussianStats<T>) -> (r: Matrix<T>)
        requires
            self.n_features is Some,
            self.ok(),
            self.agrees(self.width()),
            self.takes(stats),
        ensures
            r.has_dims(self.n_components as int, self.width()),
            forall|c: int, f: int|
                0 <= c < self.n_components && 0 <= f < self.width() ==> #[trigger] r.at(c, f)
                    == self.updated_mean(stats, c, f),
    {
        let f = |c: usize, f: usize| -> (v: T)
            requires
                self.n_features is Some,
                self.ok(),
                self.agrees(self.width()),
                self.takes(stats),
                c < self.n_components,
                f < self.width(),
            ensures
                v == self.updated_mean(stats, c as int, f as int),
        {
            self.means_weight.times(self.prior_at(c, f)).plus(stats.obs.get(c, f)).over(
                self.means_weight.plus(stats.post[c]),
            )
        };
        Matrix::tabulate(self.n_components, self.nf(), f)
    }

    fn variance(&self, stats: &GaussianStats<T>, means: &Matrix<T>, c: usize, f: usize) -> (r: T)
        requires
            self.n_features is Some,
            self.ok(),
            self.agrees(self.width()),
            self.takes(stats),
            means.has_dims(self.n_components as int, self.width()),
            c < self.n_components,
            f < self.width(),
        ensures
            r == self.updated_variance(stats, means, c as int, f as int),
    {
        let post = stats.post[c];
        let m = means.get(c, f);
        let d = m.minus(self.prior_at(c, f));
        let numer = self.means_weight.times(d).times(d).plus(stats.obs2.get(c, f)).minus(
            T::of_int(2).times(m).times(stats.obs.get(c, f)),
        ).plus(m.times(m).times(post));
        let denom = larger(
            larger(self.covars_weight.minus(one()), zero()).plus(post),
            T::decimal(1, -5),
        );
        self.covars_prior.plus(numer).over(denom)
    }

    fn mean_variance(&self, stats: &GaussianStats<T>, means: &Matrix<T>, c: usize) -> (r: T)
        requires
            self.n_features is Some,
            self.ok(),
            self.agrees(self.width()),
            self.takes(stats),
            means.has_dims(self.n_components as int, self.width()),
            c < self.n_components,
        ensures
            r == lanes(
                self.width(),
                |f: int| self.updated_variance(stats, means, c as int, f),
            ).s_over(num(self.width())),
    {
        let nf: usize = self.nf();
        let g = |f: usize| -> (v: T)
            requires
                self.n_features is Some,
                self.ok(),
                self.agrees(self.width()),
                self.takes(stats),
                means.has_dims(self.n_components as int, self.width()),
                c < self.n_components,
                f < self.width(),
            ensures
                v == self.updated_variance(stats, means, c as int, f as int),
        {
            self.variance(stats, means, c, f)
        };
        lanes_of(nf, g, Ghost(|f: int| self.updated_variance(stats, means, c as int, f))).over(
            count(nf),
        )
    }

    /// Per-feature update for spherical and diagonal covariances.
    fn update_covars_diagonal(&self, stats: &GaussianStats<T>, means: &Matrix<T>) -> (r: CovarStore<T>)
        requires
            self.n_features is Some,
            self.ok(),
            self.agrees(self.width()),
            self.takes(stats),
            means.has_dims(self.n_components as int, self.width()),
            !is_dense(self.covariance_type),
        ensures
            self.updated_covars(stats, means, &r),
    {
        let nc: usize = self.n_components;
        let nf: usize = self.nf();
        match self.covariance_type {
            CovarianceType::Spherical => {
                let g = |c: usize| -> (v: T)
                    requires
                        self.n_features is Some,
                        self.ok(),
                        self.agrees(self.width()),
                        self.takes(stats),
                        means.has_dims(self.n_components as int, self.width()),
                        c < self.n_components,
                    ensures
                        v == lanes(
                            self.width(),
                            |f: int| self.updated_variance(stats, means, c as int, f),
                        ).s_over(num(self.width())),
                {
                    self.mean_variance(stats, means, c)
                };
                CovarStore::Spherical(tabulate(nc, g))
            },
            _ => {
                let g = |c: usize, f: usize| -> (v: T)
                    requires
                        self.n_features is Some,
                        self.ok(),
                        self.agrees(self.width()),
                        self.takes(stats),
                        means.has_dims(self.n_components as int, self.width()),
                        c < self.n_components,
                        f < self.width(),
                    ensures
                        v == self.updated_variance(stats, means, c as int, f as int),
                {
                    self.variance(stats, means, c, f)
                };
                CovarStore::Diag(Matrix::tabulate(nc, nf, g))
            },
        }
    }

    fn scatter(&self, stats: &GaussianStats<T>, means: &Matrix<T>, c: usize, k: usize, l: usize) -> (r: T)
        requires
            self.n_features is Some,
            self.ok(),
            self.agrees(self.width()),
            self.takes(stats),
            is_dense(self.covariance_type),
            means.has_dims(self.n_components as int, self.width()),
            c < self.n_components,
            k < self.width(),
            l < self.width(),
        ensures
            r == self.scatter_at(stats, means, c as int, k as int, l as int),
    {
        let cross = match &stats.obs_obs_t {
            Some(q) => q.get(c, k, l),
            None => zero(),
        };
        let dk = means.get(c, k).minus(self.prior_at(c, k));
        let dl = means.get(c, l).minus(self.prior_at(c, l));
        self.means_weight.times(dk).times(dl).plus(cross).minus(
            stats.obs.get(c, k).times(means.get(c, l)),
        ).minus(stats.obs.get(c, l).times(means.get(c, k))).plus(
            means.get(c, k).times(means.get(c, l)).times(stats.post[c]),
        )
    }

    fn pooled_scatter(&self, stats: &GaussianStats<T>, means: &Matrix<T>, k: usize, l: usize) -> (r: T)
        requires
            self.n_features is Some,
            self.ok(),
            self.agrees(self.width()),
            self.takes(stats),
            is_dense(self.covariance_type),
            means.has_dims(self.n_components as int, self.width()),
            k < self.width(),
            l < self.width(),
        ensures
            r == sigma(
                self.n_components as int,
                |c: int| self.scatter_at(stats, means, c, k as int, l as int),
            ),
    {
        let g = |c: usize| -> (v: T)
            requires
                self.n_features is Some,
                self.ok(),
                self.agrees(self.width()),
                self.takes(stats),
                is_dense(self.covariance_type),
                means.has_dims(self.n_components as int, self.width()),
                c < self.n_components,
                k < self.width(),
                l < self.width(),
            ensures
                v == self.scatter_at(stats, means, c as int, k as int, l as int),
        {
            self.scatter(stats, means, c, k, l)
        };
        sum_of(
            self.n_components,
            g,
            Ghost(|c: int| self.scatter_at(stats, means, c, k as int, l as int)),
        )
    }

    /// Scatter-matrix update for tied and full covariances. Tied covariances pool
    /// the scatter and the posterior mass of all states.
    fn update_covars_dense(&self, stats: &GaussianStats<T>, means: &Matrix<T>) -> (r: CovarStore<T>)
        requires
            self.n_features is Some,
            self.ok(),
            self.agrees(self.width()),
            self.takes(stats),
            means.has_dims(self.n_components as int, self.width()),
            is_dense(self.covariance_type),
        ensures
            self.updated_covars(stats, means, &r),
    {
        let nc: usize = self.n_components;
        let nf: usize = self.nf();
        let prior = self.covars_prior;
        let weight = larger(self.covars_weight.minus(count(nf)), zero());
        match self.covariance_type {
            CovarianceType::Tied => {
                let mass = weight.plus(sum(&stats.post));
                let g = |k: usize, l: usize| -> (v: T)
                    requires
                        self.n_features is Some,
                        self.ok(),
                        self.agrees(self.width()),
                        self.takes(stats),
                        is_dense(self.covariance_type),
                        means.has_dims(self.n_components as int, self.width()),
                        k < self.width(),
                        l < self.width(),
                    ensures
                        v == prior.s_plus(
                            sigma(
                                self.n_components as int,
                                |c: int| self.scatter_at(stats, means, c, k as int, l as int),
                            ),
                        ).s_over(mass),
                {
                    prior.plus(self.pooled_scatter(stats, means, k, l)).over(mass)
                };
                CovarStore::Tied(Matrix::tabulate(nf, nf, g))
            },
            _ => {
                let g = |c: usize, k: usize, l: usize| -> (v: T)
                    requires
                        self.n_features is Some,
                        self.ok(),
                        self.agrees(self.width()),
                        self.takes(stats),
                        is_dense(self.covariance_type),
                        means.has_dims(self.n_components as int, self.width()),
                        c < self.n_components,
                        k < self.width(),
                        l < self.width(),
                    ensures
                        v == prior.s_plus(
                            self.scatter_at(stats, means, c as int, k as int, l as int),
                        ).s_over(weight.s_plus(stats.post@[c as int])),
                {
                    prior.plus(self.scatter(stats, means, c, k, l)).over(
                        weight.plus(stats.post[c]),
                    )
                };
                CovarStore::Full(Cube::tabulate(nc, nf, nf, g))
            },
        }
    }

    /// The updated covariances, given the new means.
    fn update_covars(&self, stats: &GaussianStats<T>, means: &Matrix<T>) -> (r: CovarStore<T>)
        requires
            self.n_features is Some,
            self.ok(),
            self.agrees(self.width()),
            self.takes(stats),
            means.has_dims(self.n_components as int, self.width()),
        ensures
            self.updated_covars(stats, means, &r),
    {
        match self.covariance_type {
            CovarianceType::Spherical => self.update_covars_diagonal(stats, means),
            CovarianceType::Diag => self.update_covars_diagonal(stats, means),
            CovarianceType::Tied => self.update_covars_dense(stats, means),
            CovarianceType::Full => self.update_covars_dense(stats, means),
        }
    }
}

/// `m` is the sample covariance of `x` with `floor` added on the diagonal.
pub open spec fn floored_covariance<T: Scalar>(x: &Matrix<T>, floor: T, m: &Matrix<T>) -> bool {
    m.has_dims(x.ncols as int, x.ncols as int) && forall|i: int, j: int|
        0 <= i < x.ncols && 0 <= j < x.ncols ==> #[trigger] m.at(i, j) == if i == j {
            covariance_at(x, i, j).s_plus(floor)
        } else {
            covariance_at(x, i, j)
        }
}

/// The sample covariance of `x` with `floor` added on the diagonal.
pub fn covariance_with_floor<T: Scalar>(x: &Matrix<T>, floor: T) -> (m: Matrix<T>)
    requires
        x.wf(),
        x.rows.len() >= 1,
    ensures
        floored_covariance(x, floor, &m),
{
    let cv = sample_covariance(x);
    let nf: usize = x.ncols;
    let f = |i: usize, j: usize| -> (v: T)
        requires
            cv.has_dims(nf as int, nf as int),
            i < nf,
            j < nf,
        ensures
            v == if i == j {
                cv.at(i as int, j as int).s_plus(floor)
            } else {
                cv.at(i as int, j as int)
            },
    {
        if i == j {
            cv.get(i, j).plus(floor)
        } else {
            cv.get(i, j)
        }
    };
    Matrix::tabulate(nf, nf, f)
}

/// The free scalars of the covariances of `nc` states over `nf` features.
pub open spec fn covar_scalars(t: CovarianceType, nc: int, nf: int) -> int {
    match t {
        CovarianceType::Spherical => nc,
        CovarianceType::Diag => nc * nf,
        CovarianceType::Full => nc * triangle(nf),
        CovarianceType::Tied => triangle(nf),
    }
}

/// The free scalars of the covariances, clamped to the largest machine integer.
pub fn clamped_covar_scalars(t: CovarianceType, nc: usize, nf: usize) -> (r: usize)
    ensures
        r == saturated(covar_scalars(t, nc as int, nf as int)),
        0 <= covar_scalars(t, nc as int, nf as int),
{
    assert(0 <= nc * nf) by (nonlinear_arith);
    match t {
        CovarianceType::Spherical => nc,
        CovarianceType::Diag => clamped_product(nc, nf),
        CovarianceType::Full => {
            let tri: usize = clamped_triangle(nf);
            proof {
                saturated_factor(triangle(nf as int), nc as int);
                assert(tri * nc == nc * tri) by (nonlinear_arith);
                let q = triangle(nf as int);
                assert(q * nc == nc * q) by (nonlinear_arith);
            }
            clamped_product(tri, nc)
        },
        CovarianceType::Tied => clamped_triangle(nf),
    }
}

/// The k-means centres that the means are initialised to.
pub open spec fn initial_means<T: Scalar>(x: &Matrix<T>, k: int, seed: Option<u32>) -> Seq<Seq<T>> {
    best_restart(x, k, 300, fresh_state(seed_or_zero(seed)), 10).centers
}

impl<T: Dense> EmissionModel<T> for GaussianEm<T> {
    type Inference = Em<T>;

    type Stats = GaussianStats<T>;

    open spec fn wf(&self) -> bool {
        self.ok()
    }

    open spec fn states(&self) -> int {
        self.n_components as int
    }

    open spec fn featured(&self) -> bool {
        self.n_features is Some
    }

    open spec fn features(&self) -> int {
        self.width()
    }

    open spec fn columns(&self) -> int {
        self.width()
    }

    open spec fn fits(&self) -> bool {
        self.shaped()
    }

    open spec fn valid(&self, nc: int) -> bool {
        &&& self.means matches Some(m) && m.rows.len() == nc
        &&& self.covars matches Some(c) && covars_right(&c, nc, self.width())
    }

    open spec fn readable(&self, x: &Matrix<T>) -> bool {
        true
    }

    open spec fn initable(&self, x: &Matrix<T>, init: Set<Param>) -> bool {
        self.some_needed(init) ==> x.rows.len() >= 1
    }

    open spec fn scannable(&self, x: &Matrix<T>) -> bool {
        true
    }

    open spec fn matched(&self, x: &Matrix<T>) -> bool {
        self.n_features == Some(x.ncols)
    }

    open spec fn refused_rel(&self, x: &Matrix<T>, after: &Self) -> bool {
        *after == *self
    }

    open spec fn accepts(&self, x: &Matrix<T>) -> bool {
        self.n_features matches Some(nf) ==> nf == x.ncols
    }

    open spec fn refusal(&self, x: &Matrix<T>, e: HmmError) -> bool {
        e matches HmmError::DimensionMismatch(m) && m@ == columns_message(
            x.ncols as nat,
            self.width() as nat,
        )
    }

    open spec fn flaw(&self, nc: int, e: HmmError) -> bool {
        if self.means is None {
            e == HmmError::NotFitted
        } else if self.means->0.rows.len() != nc {
            e matches HmmError::DimensionMismatch(m) && m@
                == "means_ must have n_components rows"@
        } else {
            match self.covars {
                None => e == HmmError::NotFitted,
                Some(c) => covars_wrong(&c, nc, self.width(), e),
            }
        }
    }

    open spec fn init_flaw(&self, e: HmmError) -> bool {
        false
    }

    open spec fn mstep_flaw(&self, e: HmmError) -> bool {
        e matches HmmError::DimensionMismatch(m) && m@
            == "means_prior must cover (n_components, n_features)"@
    }

    open spec fn observable(&self, x: &Matrix<T>) -> bool {
        x.ncols == self.width()
    }

    open spec fn owned_params() -> Seq<Param> {
        seq![Param::Means, Param::Covars]
    }

    open spec fn scalars(&self, nc: int, params: ParamSet) -> int {
        (if params.members().contains(Param::Means) {
            nc * self.width()
        } else {
            0
        }) + (if params.members().contains(Param::Covars) {
            covar_scalars(self.covariance_type, nc, self.width())
        } else {
            0
        })
    }

    open spec fn set_rel(&self, x: &Matrix<T>, after: &Self) -> bool {
        *after == (Self { n_features: Some(x.ncols), ..*self })
    }

    open spec fn init_ok(&self, x: &Matrix<T>, init: ParamSet, seed: Option<u32>) -> bool {
        true
    }

    open spec fn init_rel(
        &self,
        x: &Matrix<T>,
        init: ParamSet,
        seed: Option<u32>,
        after: &Self,
    ) -> bool {
        let nc = self.n_components as int;
        &&& *after == (Self {
            means: after.means,
            covars: after.covars,
            means_preset: true,
            covars_preset: true,
            ..*self
        })
        &&& if init.members().contains(Param::Means) || !self.means_preset {
            &&& after.means matches Some(m)
            &&& m.has_dims(nc, self.width())
            &&& m@ == initial_means(x, nc, seed)
        } else {
            after.means == self.means
        }
        &&& if init.members().contains(Param::Covars) || !self.covars_preset {
            &&& after.covars matches Some(s)
            &&& s.tag() == self.covariance_type
            &&& s.fits(nc, self.width())
            &&& exists|cv: Matrix<T>| #[trigger]
                floored_covariance(x, self.min_covar, &cv) && forall|c: int, i: int, j: int|
                    0 <= c < nc && 0 <= i < self.width() && 0 <= j < self.width()
                        ==> #[trigger] s.cov_at(c, i, j) == distributed_at(
                        &cv,
                        self.covariance_type,
                        i,
                        j,
                    )
        } else {
            after.covars == self.covars
        }
    }

    open spec fn log_like(&self, x: &Matrix<T>, t: int, c: int) -> T {
        log_density_at(x, &self.means->0, &self.covars->0, t, c)
    }

    open spec fn like(&self, x: &Matrix<T>, t: int, c: int) -> T {
        log_density_at(x, &self.means->0, &self.covars->0, t, c).s_exp()
    }

    open spec fn fit_log_like(&self, x: &Matrix<T>, t: int, c: int) -> T {
        log_density_at(x, &self.means->0, &self.covars->0, t, c)
    }

    open spec fn fit_like(&self, x: &Matrix<T>, t: int, c: int) -> T {
        log_density_at(x, &self.means->0, &self.covars->0, t, c).s_exp()
    }

    open spec fn stats_fit(&self, stats: &GaussianStats<T>) -> bool {
        self.takes(stats)
    }

    open spec fn zero_stats(&self, stats: &GaussianStats<T>) -> bool {
        let nc = self.n_components as int;
        let nf = self.width();
        &&& self.takes(stats)
        &&& stats.obs_obs_t is Some <==> is_dense(self.covariance_type)
        &&& forall|c: int| 0 <= c < nc ==> #[trigger] stats.post@[c] == num::<T>(0)
        &&& forall|c: int, f: int|
            0 <= c < nc && 0 <= f < nf ==> #[trigger] stats.obs.at(c, f) == num::<T>(0)
        &&& forall|c: int, f: int|
            0 <= c < nc && 0 <= f < nf ==> #[trigger] stats.obs2.at(c, f) == num::<T>(0)
        &&& stats.obs_obs_t matches Some(q) ==> forall|c: int, k: int, l: int|
            0 <= c < nc && 0 <= k < nf && 0 <= l < nf ==> #[trigger] q.at(c, k, l) == num::<T>(0)
    }

    open spec fn accumulate_rel(
        &self,
        before: &GaussianStats<T>,
        x: &Matrix<T>,
        post: &Matrix<T>,
        params: ParamSet,
        after: &GaussianStats<T>,
    ) -> bool {
        &&& if params.members().contains(Param::Means) {
            gains_mass(before.post@, post, after.post@) && gains_products(
                &before.obs,
                post,
                x,
                &after.obs,
            )
        } else {
            after.post == before.post && after.obs == before.obs
        }
        &&& if params.members().contains(Param::Covars) && !is_dense(self.covariance_type) {
            gains_squares(&before.obs2, post, x, &after.obs2)
        } else {
            after.obs2 == before.obs2
        }
        &&& if params.members().contains(Param::Covars) && is_dense(self.covariance_type) {
            &&& before.obs_obs_t matches Some(p)
            &&& after.obs_obs_t matches Some(q)
            &&& gains_outer(&p, post, x, &q)
        } else {
            after.obs_obs_t == before.obs_obs_t
        }
    }

    open spec fn mstep_ok(&self, stats: &GaussianStats<T>, params: ParamSet) -> bool {
        !self.prior_missing(params.members())
    }

    /// The means are updated first; the covariance update reads the new means.
    open spec fn mstep_rel(&self, stats: &GaussianStats<T>, params: ParamSet, after: &Self) -> bool {
        &&& *after == (Self { means: after.means, covars: after.covars, ..*self })
        &&& after.means is Some
        &&& if params.members().contains(Param::Means) {
            forall|c: int, f: int|
                0 <= c < self.n_components && 0 <= f < self.width() ==> (#[trigger] after.means->0.at(
                    c,
                    f,
                )) == self.updated_mean(stats, c, f)
        } else {
            after.means == self.means
        }
        &&& if params.members().contains(Param::Covars) {
            after.covars matches Some(s) && self.updated_covars(stats, &after.means->0, &s)
        } else {
            after.covars == self.covars
        }
    }

    open spec fn samplable(&self) -> bool {
        true
    }

    open spec fn draw(&self, state: int, s: RngView<T>) -> (RngView<T>, Option<Seq<T>>) {
        gaussian_draw(
            self.means->0.row_view(state),
            state_covariance(&self.covars->0, state, self.width()),
            s,
        )
    }

    open spec fn contribution(&self) -> Option<T> {
        Some(num(0))
    }

    open spec fn begin_rel(&self, after: &Self) -> bool {
        *after == *self
    }

    proof fn slices_observable(&self, x: &Matrix<T>, begin: int, end: int, sub: &Matrix<T>) {
    }

    proof fn likelihoods_of_row(&self, x: &Matrix<T>, t: int, y: &Matrix<T>, u: int, c: int) {
        density_of_row(x, t, y, u, &self.means->0, &self.covars->0, c);
    }

    proof fn fits_featured(&self) {
    }

    fn emission_params() -> (r: Vec<Param>) {
        let mut v: Vec<Param> = Vec::new();
        v.push(Param::Means);
        v.push(Param::Covars);
        proof {
            assert(v@ =~= seq![Param::Means, Param::Covars]);
        }
        v
    }

    fn n_features(&self) -> (n: usize) {
        self.nf()
    }

    fn check_and_set_n_features(&mut self, x: &Matrix<T>) -> (r: Result<(), HmmError>) {
        match confirm_features(self.n_features, x) {
            Ok(nf) => {
                self.n_features = Some(nf);
                Ok(())
            },
            Err(e) => Err(e),
        }
    }

    fn init(&mut self, x: &Matrix<T>, init: ParamSet, seed: Option<u32>) -> (r: Result<
        (),
        HmmError,
    >) {
        let nc: usize = self.n_components;
        if init.contains(Param::Means) || !self.means_preset {
            self.means = Some(kmeans(x, nc, 10, 300, seed));
        }
        if init.contains(Param::Covars) || !self.covars_preset {
            let cv = covariance_with_floor(x, self.min_covar);
            let store = distribute_covar(&cv, self.covariance_type, nc);
            proof {
                assert(floored_covariance(x, old(self).min_covar, &cv));
            }
            self.covars = Some(store);
        }
        self.means_preset = true;
        self.covars_preset = true;
        Ok(())
    }

    fn check(&self, n_components: usize) -> (r: Result<(), HmmError>) {
        match &self.means {
            None => {
                return Err(HmmError::NotFitted);
            },
            Some(m) => {
                if m.rows.len() != n_components {
                    return Err(
                        HmmError::DimensionMismatch(
                            "means_ must have n_components rows".to_owned(),
                        ),
                    );
                }
            },
        }
        let nf: usize = self.nf();
        match &self.covars {
            None => {
                return Err(HmmError::NotFitted);
            },
            Some(c) => match check_covars(c, n_components, nf) {
                Ok(_) => {},
                Err(e) => {
                    return Err(e);
                },
            },
        }
        Ok(())
    }

    fn n_fit_scalars(&self, n_components: usize, params: ParamSet) -> (n: usize) {
        let nf: usize = self.nf();
        assert(0 <= n_components * nf) by (nonlinear_arith);
        let mut n: usize = 0;
        if params.contains(Param::Means) {
            n = clamped_product(n_components, nf);
        }
        let k: usize = clamped_covar_scalars(self.covariance_type, n_components, nf);
        if params.contains(Param::Covars) {
            n = clamped_sum(n, k);
        }
        n
    }

    fn log_likelihood(&self, x: &Matrix<T>) -> (r: Matrix<T>) {
        log_multivariate_normal_density(x, self.means(), self.covars())
    }

    fn likelihood(&self, x: &Matrix<T>) -> (r: Matrix<T>) {
        exp_matrix(&log_multivariate_normal_density(x, self.means(), self.covars()))
    }

    fn fit_log_likelihood(&self, x: &Matrix<T>) -> (r: Matrix<T>) {
        log_multivariate_normal_density(x, self.means(), self.covars())
    }

    fn fit_likelihood(&self, x: &Matrix<T>) -> (r: Matrix<T>) {
        exp_matrix(&log_multivariate_normal_density(x, self.means(), self.covars()))
    }

    fn init_stats(&self) -> (r: GaussianStats<T>) {
        let nc: usize = self.n_components;
        let nf: usize = self.nf();
        let outer = match self.covariance_type {
            CovarianceType::Spherical => None,
            CovarianceType::Diag => None,
            _ => Some(zero_cube(nc, nf)),
        };
        GaussianStats {
            post: filled(nc, zero()),
            obs: Matrix::constant(nc, nf, zero()),
            obs2: Matrix::constant(nc, nf, zero()),
            obs_obs_t: outer,
        }
    }

    fn accumulate(
        &self,
        stats: &mut GaussianStats<T>,
        x: &Matrix<T>,
        posteriors: &Matrix<T>,
        params: ParamSet,
    ) {
        if params.contains(Param::Means) {
            let post = add_mass(&stats.post, posteriors);
            let obs = add_products(&stats.obs, posteriors, x);
            stats.post = post;
            stats.obs = obs;
        }
        if params.contains(Param::Covars) {
            match self.covariance_type {
                CovarianceType::Spherical => {
                    let obs2 = add_squares(&stats.obs2, posteriors, x);
                    stats.obs2 = obs2;
                },
                CovarianceType::Diag => {
                    let obs2 = add_squares(&stats.obs2, posteriors, x);
                    stats.obs2 = obs2;
                },
                _ => {
                    let outer = match &stats.obs_obs_t {
                        Some(q) => Some(add_outer(q, posteriors, x)),
                        None => None,
                    };
                    stats.obs_obs_t = outer;
                },
            }
        }
    }

    fn mstep(&mut self, stats: &GaussianStats<T>, params: ParamSet) -> (r: Result<(), HmmError>) {
        if params.contains(Param::Means) || params.contains(Param::Covars) {
            if let Some(p) = &self.means_prior_arr {
                if p.rows.len() < self.n_components || p.ncols < self.nf() {
                    return Err(
                        HmmError::DimensionMismatch(
                            "means_prior must cover (n_components, n_features)".to_owned(),
                        ),
                    );
                }
            }
        }
        let moved = if params.contains(Param::Means) {
            Some(self.update_means(stats))
        } else {
            None
        };
        let spread = if params.contains(Param::Covars) {
            let means = match &moved {
                Some(m) => m,
                None => self.means(),
            };
            Some(self.update_covars(stats, means))
        } else {
            None
        };
        if moved.is_some() {
            self.means = moved;
        }
        if spread.is_some() {
            self.covars = spread;
        }
        Ok(())
    }

    fn sample_state(&self, state: usize, rng: &mut NumpyRandomState<T>) -> (r: Option<Vec<T>>) {
        let nf: usize = self.nf();
        let store = self.covars();
        let means = self.means();
        assert(store.fits(self.n_components as int, nf as int));
        let cov = store.covariance_of(state, nf);
        assert(means.rows[state as int].len() == means.ncols);
        draw_gaussian(&means.rows[state], &cov, Ghost(state_covariance(store, state as int, nf as int)), rng)
    }

    fn lower_bound_contribution(&self) -> (r: Option<T>) {
        Some(zero())
    }

    fn estep_begin(&mut self) {
    }
}

/// A cube of zeros.
pub fn zero_cube<T: Scalar>(nc: usize, nf: usize) -> (r: Cube<T>)
    ensures
        r.has_dims(nc as int, nf as int, nf as int),
        forall|c: int, k: int, l: int|
            0 <= c < nc && 0 <= k < nf && 0 <= l < nf ==> #[trigger] r.at(c, k, l) == num::<T>(0),
{
    let f = |c: usize, k: usize, l: usize| -> (v: T)
        ensures
            v == num::<T>(0),
    {
        zero()
    };
    Cube::tabulate(nc, nf, nf, f)
}

/// The covariance matrix of a state.
pub open spec fn state_covariance<T: Scalar>(store: &CovarStore<T>, state: int, nf: int) -> Seq<Seq<T>> {
    Seq::new(nf as nat, |i: int| Seq::new(nf as nat, |j: int| store.cov_at(state, i, j)))
}

/// One draw from a multivariate normal, and the random state after it.
pub open spec fn gaussian_draw<T: Dense>(mean: Seq<T>, cov: Seq<Seq<T>>, s: RngView<T>) -> (
    RngView<T>,
    Option<Seq<T>>,
) {
    match normal_draws(s, mean.len() as int) {
        (t, None) => (t, None),
        (t, Some(z)) => (
            t,
            Some(
                Seq::new(
                    mean.len(),
                    |i: int| transformed_at(mean, drawing_factor(cov, mean.len()), z, i),
                ),
            ),
        ),
    }
}

/// One draw from a multivariate normal whose covariance matrix is `cov`.
pub(crate) fn draw_gaussian<T: Dense>(
    mean: &Vec<T>,
    cov: &Matrix<T>,
    Ghost(entries): Ghost<Seq<Seq<T>>>,
    rng: &mut NumpyRandomState<T>,
) -> (r: Option<Vec<T>>)
    requires
        old(rng).wf(),
        cov.has_dims(mean.len() as int, mean.len() as int),
        entries.len() == mean.len(),
        forall|i: int| 0 <= i < mean.len() ==> (#[trigger] entries[i]).len() == mean.len(),
        forall|i: int, j: int|
            0 <= i < mean.len() && 0 <= j < mean.len() ==> #[trigger] cov.at(i, j) == entries[i][j],
    ensures
        final(rng).wf(),
        match r {
            Some(v) => gaussian_draw(mean@, entries, old(rng)@) == (final(rng)@, Some(v@)) && v.len()
                == mean.len(),
            None => gaussian_draw(mean@, entries, old(rng)@).1 is None,
        },
{
    let ghost start = rng@;
    proof {
        view_from_entries(cov, entries, mean.len() as int, mean.len() as int);
    }
    let r = rng.multivariate_normal(mean, cov);
    proof {
        if let Some(v) = &r {
            assert(gaussian_draw(mean@, entries, start).1->0 =~= v@);
        }
    }
    r
}

/// Builder for Gaussian models.
#[derive(Clone)]
pub struct GaussianHmm<T> {
    /// Number of hidden states.
    pub n_components: usize,
    /// Covariance parameterisation.
    pub covariance_type: CovarianceType,
    /// Floor added to the covariance diagonal at initialisation.
    pub min_covar: T,
    /// Decoding algorithm.
    pub algorithm: DecoderAlgorithm,
    /// Forward-backward implementation.
    pub implementation: Implementation,
    /// Which parameters are updated.
    pub params: ParamSet,
    /// Which parameters are initialised before fitting.
    pub init_params: ParamSet,
    /// Maximum number of iterations.
    pub n_iter: usize,
    /// Convergence threshold on the per-iteration gain.
    pub tol: T,
    /// Whether each iteration is reported.
    pub verbose: bool,
    /// Seed for initialisation and sampling.
    pub random_state: Option<u32>,
    /// Dirichlet concentration prior on the initial-state distribution.
    pub startprob_prior: T,
    /// Dirichlet concentration prior on each transition row.
    pub transmat_prior: T,
    /// Scalar prior mean of the means.
    pub means_prior: T,
    /// Prior means, one per state and feature, in place of the scalar.
    pub means_prior_arr: Option<Matrix<T>>,
    /// Prior weight of the means.
    pub means_weight: T,
    /// Prior scale of the covariances.
    pub covars_prior: T,
    /// Prior weight of the covariances.
    pub covars_weight: T,
    /// Optional preset initial-state distribution.
    pub start_prob: Option<Vec<T>>,
    /// Optional preset transition matrix.
    pub trans_mat: Option<Matrix<T>>,
    /// Optional preset means.
    pub means: Option<Matrix<T>>,
    /// Optional preset covariances.
    pub covars: Option<CovarStore<T>>,
}

impl<T: Dense> GaussianHmm<T> {
    /// The number of features that the presets fix.
    pub open spec fn known_features(&self) -> Option<usize> {
        match self.means {
            Some(m) => Some(m.ncols),
            None => match self.means_prior_arr {
                Some(p) => Some(p.ncols),
                None => None,
            },
        }
    }

    /// The emission model that the builder describes.
    pub open spec fn emission(&self) -> GaussianEm<T> {
        GaussianEm {
            n_components: self.n_components,
            n_features: self.known_features(),
            covariance_type: self.covariance_type,
            means: self.means,
            covars: self.covars,
            means_preset: self.means is Some,
            covars_preset: self.covars is Some,
            min_covar: self.min_covar,
            means_prior: self.means_prior,
            means_prior_arr: self.means_prior_arr,
            means_weight: self.means_weight,
            covars_prior: self.covars_prior,
            covars_weight: self.covars_weight,
        }
    }

    /// There is a state; preset arrays are rectangular and agree with each other.
    pub open spec fn wf(&self) -> bool {
        &&& self.n_components >= 1
        &&& self.trans_mat matches Some(m) ==> m.wf()
        &&& self.emission().ok()
    }

    /// The groups that are initialised before fitting: those of `init_params` that
    /// nothing is preset for.
    pub open spec fn initialised(&self) -> Set<Param> {
        let s = self.init_params.members();
        let s = less(s, Param::Start, self.start_prob is Some);
        let s = less(s, Param::Trans, self.trans_mat is Some);
        let s = less(s, Param::Means, self.means is Some);
        let s = less(s, Param::Covars, self.covars is Some);
        s
    }

    /// `h` is the model that the builder describes.
    pub open spec fn builds(&self, h: &Hmm<T, GaussianEm<T>>) -> bool {
        &&& em_built(
            &h.inference,
            self.n_components,
            self.startprob_prior,
            self.transmat_prior,
            self.start_prob,
            self.trans_mat,
        )
        &&& h.emission == self.emission()
        &&& has_settings(
            h,
            self.algorithm,
            self.implementation,
            self.params,
            self.initialised(),
            self.n_iter,
            self.tol,
            self.verbose,
            self.random_state,
        )
        &&& h.wf()
    }

    /// A model with `n_components` states and the defaults: diagonal covariances
    /// with floor `1e-3`, Viterbi decoding in log space, everything initialised and
    /// updated, at most 10 iterations with tolerance `1e-2`, flat priors on start
    /// and transitions, covariance prior `1e-2` with weight 1, and nothing preset.
    pub fn new(n_components: usize) -> (r: Self)
        ensures
            r.n_components == n_components,
            r.covariance_type == CovarianceType::Diag,
            r.min_covar == dec::<T>(1, -3),
            r.algorithm == DecoderAlgorithm::Viterbi,
            r.implementation == Implementation::Log,
            forall|p: Param| r.params.members().contains(p) <==> "stmc"@.contains(p.letter()),
            r.init_params == r.params,
            r.n_iter == 10,
            r.tol == dec::<T>(1, -2),
            !r.verbose,
            r.random_state is None,
            r.startprob_prior == num::<T>(1),
            r.transmat_prior == num::<T>(1),
            r.means_prior == num::<T>(0),
            r.means_prior_arr is None,
            r.means_weight == num::<T>(0),
            r.covars_prior == dec::<T>(1, -2),
            r.covars_weight == num::<T>(1),
            r.start_prob is None,
            r.trans_mat is None,
            r.means is None,
            r.covars is None,
    {
        let params = ParamSet::from_codes("stmc");
        GaussianHmm {
            n_components,
            covariance_type: CovarianceType::Diag,
            min_covar: T::decimal(1, -3),
            algorithm: DecoderAlgorithm::Viterbi,
            implementation: Implementation::Log,
            params,
            init_params: params,
            n_iter: 10,
            tol: T::decimal(1, -2),
            verbose: false,
            random_state: None,
            startprob_prior: one(),
            transmat_prior: one(),
            means_prior: zero(),
            means_prior_arr: None,
            means_weight: zero(),
            covars_prior: T::decimal(1, -2),
            covars_weight: one(),
            start_prob: None,
            trans_mat: None,
            means: None,
            covars: None,
        }
    }

    /// Sets the covariance parameterisation.
    pub fn covariance_type(self, ct: CovarianceType) -> (r: Self)
        ensures
            r == (Self { covariance_type: ct, ..self }),
    {
        let mut s = self;
        s.covariance_type = ct;
        s
    }

    /// Sets the floor added to the covariance diagonal at initialisation.
    pub fn min_covar(self, v: T) -> (r: Self)
        ensures
            r == (Self { min_covar: v, ..self }),
    {
        let mut s = self;
        s.min_covar = v;
        s
    }

    /// Sets the maximum number of iterations.
    pub fn n_iter(self, n: usize) -> (r: Self)
        ensures
            r == (Self { n_iter: n, ..self }),
    {
        let mut s = self;
        s.n_iter = n;
        s
    }

    /// Sets the convergence threshold on the per-iteration gain.
    pub fn tol(self, tol: T) -> (r: Self)
        ensures
            r == (Self { tol: tol, ..self }),
    {
        let mut s = self;
        s.tol = tol;
        s
    }

    /// Sets the decoding algorithm.
    pub fn algorithm(self, a: DecoderAlgorithm) -> (r: Self)
        ensures
            r == (Self { algorithm: a, ..self }),
    {
        let mut s = self;
        s.algorithm = a;
        s
    }

    /// Sets the forward-backward implementation.
    pub fn implementation(self, i: Implementation) -> (r: Self)
        ensures
            r == (Self { implementation: i, ..self }),
    {
        let mut s = self;
        s.implementation = i;
        s
    }

    /// Sets which parameters are updated, from letter codes (`s`, `t`, `m`, `c`).
    pub fn params(self, codes: &str) -> (r: Self)
        ensures
            r == (Self { params: r.params, ..self }),
            r.params.wf(),
            forall|p: Param| r.params.members().contains(p) <==> codes@.contains(p.letter()),
    {
        let mut s = self;
        s.params = ParamSet::from_codes(codes);
        s
    }

    /// Sets which parameters are initialised before fitting, from letter codes (`s`, `t`, `m`, `c`).
    pub fn init_params(self, codes: &str) -> (r: Self)
        ensures
            r == (Self { init_params: r.init_params, ..self }),
            r.init_params.wf(),
            forall|p: Param| r.init_params.members().contains(p) <==> codes@.contains(p.letter()),
    {
        let mut s = self;
        s.init_params = ParamSet::from_codes(codes);
        s
    }

    /// Sets the seed for initialisation and sampling.
    pub fn random_state(self, seed: u32) -> (r: Self)
        ensures
            r == (Self { random_state: Some(seed), ..self }),
    {
        let mut s = self;
        s.random_state = Some(seed);
        s
    }

    /// Sets whether each iteration is reported.
    pub fn verbose(self, v: bool) -> (r: Self)
        ensures
            r == (Self { verbose: v, ..self }),
    {
        let mut s = self;
        s.verbose = v;
        s
    }

    /// Sets the Dirichlet prior on the initial-state distribution.
    pub fn startprob_prior(self, p: T) -> (r: Self)
        ensures
            r == (Self { startprob_prior: p, ..self }),
    {
        let mut s = self;
        s.startprob_prior = p;
        s
    }

    /// Sets the Dirichlet prior on each transition row.
    pub fn transmat_prior(self, p: T) -> (r: Self)
        ensures
            r == (Self { transmat_prior: p, ..self }),
    {
        let mut s = self;
        s.transmat_prior = p;
        s
    }

    /// Sets the prior weight of the means.
    pub fn means_weight(self, w: T) -> (r: Self)
        ensures
            r == (Self { means_weight: w, ..self }),
    {
        let mut s = self;
        s.means_weight = w;
        s
    }

    /// Sets the scalar prior mean of the means.
    pub fn means_prior(self, p: T) -> (r: Self)
        ensures
            r == (Self { means_prior: p, ..self }),
    {
        let mut s = self;
        s.means_prior = p;
        s
    }

    /// Sets the prior means, one per state and feature.
    pub fn means_prior_array(self, p: Matrix<T>) -> (r: Self)
        ensures
            r == (Self { means_prior_arr: Some(p), ..self }),
    {
        let mut s = self;
        s.means_prior_arr = Some(p);
        s
    }

    /// Sets the prior scale of the covariances.
    pub fn covars_prior(self, p: T) -> (r: Self)
        ensures
            r == (Self { covars_prior: p, ..self }),
    {
        let mut s = self;
        s.covars_prior = p;
        s
    }

    /// Sets the prior weight of the covariances.
    pub fn covars_weight(self, w: T) -> (r: Self)
        ensures
            r == (Self { covars_weight: w, ..self }),
    {
        let mut s = self;
        s.covars_weight = w;
        s
    }

    /// Presets the initial-state distribution.
    pub fn start_prob(self, sp: Vec<T>) -> (r: Self)
        ensures
            r == (Self { start_prob: Some(sp), ..self }),
    {
        let mut s = self;
        s.start_prob = Some(sp);
        s
    }

    /// Presets the transition matrix.
    pub fn trans_mat(self, tm: Matrix<T>) -> (r: Self)
        ensures
            r == (Self { trans_mat: Some(tm), ..self }),
    {
        let mut s = self;
        s.trans_mat = Some(tm);
        s
    }

    /// Presets the means.
    pub fn means(self, m: Matrix<T>) -> (r: Self)
        ensures
            r == (Self { means: Some(m), ..self }),
    {
        let mut s = self;
        s.means = Some(m);
        s
    }

    /// Presets the covariances.
    pub fn covars(self, c: CovarStore<T>) -> (r: Self)
        ensures
            r == (Self { covars: Some(c), ..self }),
    {
        let mut s = self;
        s.covars = Some(c);
        s
    }

    /// The unfitted model that the builder describes.
    pub fn build(self) -> (h: Hmm<T, GaussianEm<T>>)
        requires
            self.wf(),
        ensures
            self.builds(&h),
    {
        let n_features: Option<usize> = match &self.means {
            Some(m) => Some(m.ncols),
            None => match &self.means_prior_arr {
                Some(p) => Some(p.ncols),
                None => None,
            },
        };
        let init_params = self.init_params
            .without(Param::Start, self.start_prob.is_some())
            .without(Param::Trans, self.trans_mat.is_some())
            .without(Param::Means, self.means.is_some())
            .without(Param::Covars, self.covars.is_some());
        let inference = Em::new(
            self.n_components,
            self.startprob_prior,
            self.transmat_prior,
            self.start_prob,
            self.trans_mat,
        );
        let means_preset = self.means.is_some();
        let covars_preset = self.covars.is_some();
        let emission = GaussianEm {
            n_components: self.n_components,
            n_features,
            covariance_type: self.covariance_type,
            means: self.means,
            covars: self.covars,
            means_preset,
            covars_preset,
            min_covar: self.min_covar,
            means_prior: self.means_prior,
            means_prior_arr: self.means_prior_arr,
            means_weight: self.means_weight,
            covars_prior: self.covars_prior,
            covars_weight: self.covars_weight,
        };
        Hmm {
            emission,
            inference,
            algorithm: self.algorithm,
            implementation: self.implementation,
            params: self.params,
            init_params,
            n_iter: self.n_iter,
            random_state: self.random_state,
            monitor: ConvergenceMonitor::new(self.tol, self.n_iter, self.verbose),
            notes: Vec::new(),
        }
    }

    /// Fit the model.
    pub fn fit(self, x: &Matrix<T>, lengths: Option<&[usize]>) -> (r: Result<
        Fitted<T, GaussianEm<T>>,
        HmmError,
    >)
        requires
            self.wf(),
            x.wf(),
            fit_ready(&self.emission(), self.initialised(), self.n_iter, x, lengths),
        ensures
            exists|h: Hmm<T, GaussianEm<T>>| #[trigger]
                self.builds(&h) && fit_result(&h, x, lengths, r),
    {
        self.build().fit(x, lengths)
    }

    /// Treat the preset parameters as fitted, after validation.
    pub fn into_fitted(self) -> (r: Result<Fitted<T, GaussianEm<T>>, HmmError>)
        requires
            self.wf(),
        ensures
            exists|h: Hmm<T, GaussianEm<T>>| #[trigger] self.builds(&h) && taken_as_fitted(&h, r),
    {
        self.build().into_fitted()
    }
}

} // verus!
