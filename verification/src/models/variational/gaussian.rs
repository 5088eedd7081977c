//! Variational Gaussian model.
//!
//! The emission parameters have conjugate priors: a normal distribution over each
//! state's mean, with precision scale `beta`, and a Wishart distribution over each
//! state's precision, with degrees of freedom `dof` and inverse scale matrix
//! `scale`. Fitting updates the posteriors. The E-step scores frames with the
//! sub-normalised density, the expectation under the posteriors; scoring and
//! decoding use the Gaussian density at the posterior point estimate.

use crate::cluster::{cluster_counts, kmeans, nearest_tally};
use crate::counting::{clamped_product, clamped_sum};
use crate::covariance::store::{distribute_covar, distributed_at, on_diagonal, CovarStore};
use crate::covariance::types::CovarianceType;
use crate::engine::emission::EmissionModel;
use crate::engine::fit::{fit_ready, fit_result};
use crate::engine::fitted::Fitted;
use crate::engine::hmm::Hmm;
use crate::engine::inference::Inference;
use crate::engine::monitor::ConvergenceMonitor;
use crate::engine::params::{DecoderAlgorithm, Implementation, Param, ParamSet};
use crate::engine::variational::{scaled_rows, times_all_rows, variational_built, Variational};
use crate::error::HmmError;
use crate::kl::{
    difference, kl_multivariate_normal, kl_wishart, multivariate_divergence, quadratic,
    quadratic_form, subtracted, wishart_divergence,
};
use crate::linalg::{inv, log_determinant, logdet, Dense};
use crate::matrix::{col_sum, col_total, copied, filled, tabulate, view_from_entries, Cube, Matrix};
use crate::models::gaussian::{
    add_mass, add_outer, add_squares, clamped_covar_scalars, covar_scalars,
    covariance_with_floor, draw_gaussian, floored_covariance, gains_mass, gains_outer,
    gains_squares, gaussian_draw, initial_means, is_dense, state_covariance, zero_cube,
    GaussianEm,
};
use crate::models::shared::{
    add_products, columns_message, confirm_features, exp_matrix, gains_products, has_settings,
};
use crate::rng::state::{NumpyRandomState, RngView};
use crate::scalar::{count, dec, num, one, sigma, sum, sum_of, total, zero, Scalar};
use crate::special::{digamma, digamma_of};
use crate::stats::mvn::{density_of_row, log_density_at, log_multivariate_normal_density};
use vstd::prelude::*;

verus! {

/// Wishart degrees of freedom: one value per state, or a single shared value for
/// tied covariances.
#[derive(Debug, Clone, PartialEq)]
pub enum Dof<T> {
    /// One value per state.
    PerComponent(Vec<T>),
    /// A single shared value.
    Tied(T),
}

impl<T: Scalar> Dof<T> {
    /// The degrees of freedom of state `c`.
    pub open spec fn at(&self, c: int) -> T {
        match self {
            Dof::PerComponent(v) => v@[c],
            Dof::Tied(v) => *v,
        }
    }

    /// The degrees of freedom have the shape that the covariance type asks for.
    pub open spec fn fits(&self, t: CovarianceType, nc: int) -> bool {
        match self {
            Dof::PerComponent(v) => t != CovarianceType::Tied && v.len() == nc,
            Dof::Tied(_) => t == CovarianceType::Tied,
        }
    }

    /// The degrees of freedom of state `c`.
    pub fn get(&self, c: usize) -> (r: T)
        requires
            self matches Dof::PerComponent(v) ==> c < v.len(),
        ensures
            r == self.at(c as int),
    {
        match self {
            Dof::PerComponent(v) => v[c],
            Dof::Tied(v) => *v,
        }
    }

    /// Whether the shape is that which the covariance type asks for.
    fn has_shape(&self, t: CovarianceType, nc: usize) -> (r: bool)
        ensures
            r == self.fits(t, nc as int),
    {
        match (self, t) {
            (Dof::PerComponent(_), CovarianceType::Tied) => false,
            (Dof::PerComponent(v), _) => v.len() == nc,
            (Dof::Tied(_), CovarianceType::Tied) => true,
            (Dof::Tied(_), _) => false,
        }
    }
}

/// Emission statistics, as those of the Gaussian model.
pub struct VGaussianStats<T> {
    /// Accumulated posterior mass per state.
    pub post: Vec<T>,
    /// Accumulated posterior-weighted observations, `(n_components, n_features)`.
    pub obs: Matrix<T>,
    /// Accumulated posterior-weighted squares, `(n_components, n_features)`.
    pub obs2: Matrix<T>,
    /// Accumulated posterior-weighted outer products, for tied and full
    /// covariances.
    pub obs_obs_t: Option<Cube<T>>,
}

/// Variational Gaussian emission model.
#[derive(Clone)]
pub struct VariationalGaussianEm<T> {
    /// Number of hidden states.
    pub n_components: usize,
    /// Number of features; `None` until inferred from data or presets.
    pub n_features: Option<usize>,
    /// Covariance parameterisation.
    pub covariance_type: CovarianceType,
    /// Mean of the normal prior over the means.
    pub means_prior: Option<Matrix<T>>,
    /// Mean of the normal posterior over the means.
    pub means_posterior: Option<Matrix<T>>,
    /// Precision scale of the normal prior.
    pub beta_prior: Option<Vec<T>>,
    /// Precision scale of the normal posterior.
    pub beta_posterior: Option<Vec<T>>,
    /// Degrees of freedom of the Wishart prior.
    pub dof_prior: Option<Dof<T>>,
    /// Degrees of freedom of the Wishart posterior.
    pub dof_posterior: Option<Dof<T>>,
    /// Inverse scale of the Wishart prior.
    pub scale_prior: Option<CovarStore<T>>,
    /// Inverse scale of the Wishart posterior.
    pub scale_posterior: Option<CovarStore<T>>,
    /// Point estimate of the covariances.
    pub covars: Option<CovarStore<T>>,
    /// Whether the prior means were given and stay at initialisation.
    pub means_prior_given: bool,
    /// Whether the prior precision scales were given.
    pub beta_prior_given: bool,
    /// Whether the prior degrees of freedom were given.
    pub dof_prior_given: bool,
    /// Whether the prior inverse scale was given.
    pub scale_prior_given: bool,
    /// Whether the posterior means were given and stay at initialisation.
    pub means_given: bool,
    /// Whether the posterior precision scales were given and stay at initialisation.
    pub beta_given: bool,
    /// Whether the posterior means are set and must not be initialised again.
    pub means_preset: bool,
    /// Whether the covariances are set and must not be initialised again.
    pub covars_preset: bool,
}

/// The mean over the rows of feature `f`.
pub open spec fn feature_mean<T: Scalar>(x: &Matrix<T>, f: int) -> T {
    col_total(x, f).s_over(num(x.rows.len() as int))
}

/// The degrees of freedom that the number of features gives.
pub open spec fn default_dof<T: Scalar>(t: CovarianceType, nc: int, nf: int, d: &Dof<T>) -> bool {
    match d {
        Dof::Tied(v) => t == CovarianceType::Tied && *v == num::<T>(nf),
        Dof::PerComponent(v) => t != CovarianceType::Tied && v@ == Seq::new(
            nc as nat,
            |c: int| num::<T>(nf),
        ),
    }
}

/// The degrees of freedom that the cluster sizes give.
pub open spec fn counted_dof<T: Scalar>(t: CovarianceType, counts: Seq<T>, d: &Dof<T>) -> bool {
    match d {
        Dof::Tied(v) => t == CovarianceType::Tied && *v == total(counts),
        Dof::PerComponent(v) => t != CovarianceType::Tied && v@ == counts,
    }
}

/// `s` is `1e-3` times the identity.
pub open spec fn default_scale<T: Scalar>(t: CovarianceType, nc: int, nf: int, s: &CovarStore<T>) -> bool {
    &&& s.tag() == t
    &&& s.fits(nc, nf)
    &&& forall|c: int, i: int, j: int|
        0 <= c < nc && 0 <= i < nf && 0 <= j < nf ==> #[trigger] s.cov_at(c, i, j) == on_diagonal(
            dec::<T>(1, -3),
            i,
            j,
        )
}

/// The default inverse scale prior, `1e-3` times the identity.
fn default_scale_prior<T: Scalar>(t: CovarianceType, nc: usize, nf: usize) -> (s: CovarStore<T>)
    ensures
        default_scale(t, nc as int, nf as int, &s),
{
    let eps = T::decimal(1, -3);
    match t {
        CovarianceType::Full => {
            let f = |c: usize, i: usize, j: usize| -> (v: T)
                ensures
                    v == on_diagonal(eps, i as int, j as int),
            {
                if i == j {
                    eps
                } else {
                    zero()
                }
            };
            CovarStore::Full(Cube::tabulate(nc, nf, nf, f))
        },
        CovarianceType::Tied => {
            let f = |i: usize, j: usize| -> (v: T)
                ensures
                    v == on_diagonal(eps, i as int, j as int),
            {
                if i == j {
                    eps
                } else {
                    zero()
                }
            };
            CovarStore::Tied(Matrix::tabulate(nf, nf, f))
        },
        CovarianceType::Diag => CovarStore::Diag(Matrix::constant(nc, nf, eps)),
        CovarianceType::Spherical => CovarStore::Spherical(filled(nc, eps)),
    }
}

/// `b` holds the entries of `a`, each times the degrees of freedom of its state.
pub open spec fn is_scaled<T: Scalar>(
    a: &CovarStore<T>,
    d: &Dof<T>,
    nc: int,
    nf: int,
    b: &CovarStore<T>,
) -> bool {
    match (a, b) {
        (CovarStore::Full(p), CovarStore::Full(q)) => q.has_dims(nc, nf, nf) && forall|
            c: int,
            i: int,
            j: int,
        |
            0 <= c < nc && 0 <= i < nf && 0 <= j < nf ==> #[trigger] q.at(c, i, j) == p.at(
                c,
                i,
                j,
            ).s_times(d.at(c)),
        (CovarStore::Diag(p), CovarStore::Diag(q)) => q.has_dims(nc, nf) && forall|c: int, i: int|
            0 <= c < nc && 0 <= i < nf ==> #[trigger] q.at(c, i) == p.at(c, i).s_times(d.at(c)),
        (CovarStore::Spherical(p), CovarStore::Spherical(q)) => q.len() == nc && forall|c: int|
            0 <= c < nc ==> #[trigger] q@[c] == p@[c].s_times(d.at(c)),
        (CovarStore::Tied(p), CovarStore::Tied(q)) => q.has_dims(nf, nf) && forall|i: int, j: int|
            0 <= i < nf && 0 <= j < nf ==> #[trigger] q.at(i, j) == p.at(i, j).s_times(d.at(0)),
        _ => false,
    }
}

/// The initial scale posterior, covariance times degrees of freedom.
fn scale_from_covariance<T: Scalar>(covars: &CovarStore<T>, dof: &Dof<T>, nc: usize, nf: usize) -> (r:
    CovarStore<T>)
    requires
        covars.fits(nc as int, nf as int),
        dof.fits(covars.tag(), nc as int),
        nc >= 1,
    ensures
        is_scaled(covars, dof, nc as int, nf as int, &r),
{
    match covars {
        CovarStore::Full(p) => {
            let f = |c: usize, i: usize, j: usize| -> (v: T)
                requires
                    p.has_dims(nc as int, nf as int, nf as int),
                    dof.fits(CovarianceType::Full, nc as int),
                    c < nc,
                    i < nf,
                    j < nf,
                ensures
                    v == p.at(c as int, i as int, j as int).s_times(dof.at(c as int)),
            {
                p.get(c, i, j).times(dof.get(c))
            };
            CovarStore::Full(Cube::tabulate(nc, nf, nf, f))
        },
        CovarStore::Diag(p) => {
            let f = |c: usize, i: usize| -> (v: T)
                requires
                    p.has_dims(nc as int, nf as int),
                    dof.fits(CovarianceType::Diag, nc as int),
                    c < nc,
                    i < nf,
                ensures
                    v == p.at(c as int, i as int).s_times(dof.at(c as int)),
            {
                p.get(c, i).times(dof.get(c))
            };
            CovarStore::Diag(Matrix::tabulate(nc, nf, f))
        },
        CovarStore::Spherical(p) => {
            let f = |c: usize| -> (v: T)
                requires
                    p.len() == nc,
                    dof.fits(CovarianceType::Spherical, nc as int),
                    c < nc,
                ensures
                    v == p@[c as int].s_times(dof.at(c as int)),
            {
                p[c].times(dof.get(c))
            };
            CovarStore::Spherical(tabulate(nc, f))
        },
        CovarStore::Tied(p) => {
            let d = dof.get(0);
            let f = |i: usize, j: usize| -> (v: T)
                requires
                    p.has_dims(nf as int, nf as int),
                    i < nf,
                    j < nf,
                ensures
                    v == p.at(i as int, j as int).s_times(d),
            {
                p.get(i, j).times(d)
            };
            CovarStore::Tied(Matrix::tabulate(nf, nf, f))
        },
    }
}

/// `b` holds the entries of `a`, each divided by the degrees of freedom of its
/// state.
pub open spec fn is_point_estimate<T: Scalar>(
    a: &CovarStore<T>,
    d: &Dof<T>,
    nc: int,
    nf: int,
    b: &CovarStore<T>,
) -> bool {
    match (a, b) {
        (CovarStore::Full(p), CovarStore::Full(q)) => q.has_dims(nc, nf, nf) && forall|
            c: int,
            i: int,
            j: int,
        |
            0 <= c < nc && 0 <= i < nf && 0 <= j < nf ==> #[trigger] q.at(c, i, j) == p.at(
                c,
                i,
                j,
            ).s_over(d.at(c)),
        (CovarStore::Diag(p), CovarStore::Diag(q)) => q.has_dims(nc, nf) && forall|c: int, i: int|
            0 <= c < nc && 0 <= i < nf ==> #[trigger] q.at(c, i) == p.at(c, i).s_over(d.at(c)),
        (CovarStore::Spherical(p), CovarStore::Spherical(q)) => q.len() == nc && forall|c: int|
            0 <= c < nc ==> #[trigger] q@[c] == p@[c].s_over(d.at(c)),
        (CovarStore::Tied(p), CovarStore::Tied(q)) => q.has_dims(nf, nf) && forall|i: int, j: int|
            0 <= i < nf && 0 <= j < nf ==> #[trigger] q.at(i, j) == p.at(i, j).s_over(d.at(0)),
        _ => false,
    }
}

/// The covariance point estimate, scale over degrees of freedom.
fn point_covariance<T: Scalar>(scale: &CovarStore<T>, dof: &Dof<T>, nc: usize, nf: usize) -> (r:
    CovarStore<T>)
    requires
        scale.fits(nc as int, nf as int),
        dof.fits(scale.tag(), nc as int),
    ensures
        is_point_estimate(scale, dof, nc as int, nf as int, &r),
{
    match scale {
        CovarStore::Full(p) => {
            let f = |c: usize, i: usize, j: usize| -> (v: T)
                requires
                    p.has_dims(nc as int, nf as int, nf as int),
                    dof.fits(CovarianceType::Full, nc as int),
                    c < nc,
                    i < nf,
                    j < nf,
                ensures
                    v == p.at(c as int, i as int, j as int).s_over(dof.at(c as int)),
            {
                p.get(c, i, j).over(dof.get(c))
            };
            CovarStore::Full(Cube::tabulate(nc, nf, nf, f))
        },
        CovarStore::Diag(p) => {
            let f = |c: usize, i: usize| -> (v: T)
                requires
                    p.has_dims(nc as int, nf as int),
                    dof.fits(CovarianceType::Diag, nc as int),
                    c < nc,
                    i < nf,
                ensures
                    v == p.at(c as int, i as int).s_over(dof.at(c as int)),
            {
                p.get(c, i).over(dof.get(c))
            };
            CovarStore::Diag(Matrix::tabulate(nc, nf, f))
        },
        CovarStore::Spherical(p) => {
            let f = |c: usize| -> (v: T)
                requires
                    p.len() == nc,
                    dof.fits(CovarianceType::Spherical, nc as int),
                    c < nc,
                ensures
                    v == p@[c as int].s_over(dof.at(c as int)),
            {
                p[c].over(dof.get(c))
            };
            CovarStore::Spherical(tabulate(nc, f))
        },
        CovarStore::Tied(p) => {
            let d = dof.get(0);
            let f = |i: usize, j: usize| -> (v: T)
                requires
                    p.has_dims(nf as int, nf as int),
                    i < nf,
                    j < nf,
                ensures
                    v == p.at(i as int, j as int).s_over(d),
            {
                p.get(i, j).over(d)
            };
            CovarStore::Tied(Matrix::tabulate(nf, nf, f))
        },
    }
}

impl<T: Scalar> VariationalGaussianEm<T> {
    /// The number of features, where it is known.
    pub open spec fn width(&self) -> int {
        self.n_features->0 as int
    }

    /// Means or covariances are initialised, being in `init` or not set yet.
    pub open spec fn some_needed(&self, init: Set<Param>) -> bool {
        ||| init.contains(Param::Means)
        ||| init.contains(Param::Covars)
        ||| !self.means_preset
        ||| !self.covars_preset
    }

    /// Arrays are rectangular; what was given is there; what is computed agrees with
    /// the number of features.
    pub open spec fn ok(&self) -> bool {
        let nc = self.n_components as int;
        &&& self.means_prior matches Some(m) ==> m.wf()
        &&& self.means_posterior matches Some(m) ==> m.wf()
        &&& self.scale_prior matches Some(s) ==> s.wf()
        &&& self.means_prior_given ==> self.means_prior is Some
        &&& self.beta_prior_given ==> self.beta_prior is Some
        &&& self.dof_prior_given ==> self.dof_prior is Some
        &&& self.scale_prior_given ==> self.scale_prior is Some
        &&& self.means_given ==> self.means_posterior is Some
        &&& self.beta_given ==> self.beta_posterior is Some
        &&& self.scale_posterior matches Some(s) ==> self.n_features is Some && s.fits(
            nc,
            self.width(),
        ) && s.tag() == self.covariance_type
        &&& self.covars matches Some(s) ==> self.n_features is Some && s.fits(nc, self.width())
        &&& self.scale_posterior is Some ==> self.covars is Some
    }

    /// Everything is set and has the right shape.
    pub open spec fn shaped(&self) -> bool {
        let nc = self.n_components as int;
        let nf = self.width();
        let t = self.covariance_type;
        &&& self.n_features is Some
        &&& self.means_prior matches Some(m) && m.has_dims(nc, nf)
        &&& self.means_posterior matches Some(m) && m.has_dims(nc, nf)
        &&& self.beta_prior matches Some(b) && b.len() == nc
        &&& self.beta_posterior matches Some(b) && b.len() == nc
        &&& self.dof_prior matches Some(d) && d.fits(t, nc)
        &&& self.dof_posterior matches Some(d) && d.fits(t, nc)
        &&& self.scale_prior matches Some(s) && s.tag() == t && s.covers(nc, nf)
        &&& self.scale_posterior matches Some(s) && s.tag() == t && s.fits(nc, nf)
        &&& self.covars matches Some(s) && s.fits(nc, nf)
    }

    /// Everything is set.
    pub open spec fn complete(&self) -> bool {
        &&& self.n_features is Some
        &&& self.means_prior is Some
        &&& self.means_posterior is Some
        &&& self.beta_prior is Some
        &&& self.beta_posterior is Some
        &&& self.dof_prior is Some
        &&& self.dof_posterior is Some
        &&& self.scale_prior is Some
        &&& self.scale_posterior is Some
    }

    fn nf(&self) -> (n: usize)
        requires
            self.n_features is Some,
        ensures
            Some(n) == self.n_features,
    {
        match self.n_features {
            Some(n) => n,
            None => 0,
        }
    }

    /// The posterior means, `(n_components, n_features)`.
    pub fn means_posterior(&self) -> (r: &Matrix<T>)
        requires
            self.means_posterior is Some,
        ensures
            Some(*r) == self.means_posterior,
    {
        match &self.means_posterior {
            Some(m) => m,
            None => vstd::pervasive::unreached(),
        }
    }

    fn means_prior(&self) -> (r: &Matrix<T>)
        requires
            self.means_prior is Some,
        ensures
            Some(*r) == self.means_prior,
    {
        match &self.means_prior {
            Some(m) => m,
            None => vstd::pervasive::unreached(),
        }
    }

    fn beta_prior(&self) -> (r: &Vec<T>)
        requires
            self.beta_prior is Some,
        ensures
            Some(*r) == self.beta_prior,
    {
        match &self.beta_prior {
            Some(b) => b,
            None => vstd::pervasive::unreached(),
        }
    }

    fn beta_posterior(&self) -> (r: &Vec<T>)
        requires
            self.beta_posterior is Some,
        ensures
            Some(*r) == self.beta_posterior,
    {
        match &self.beta_posterior {
            Some(b) => b,
            None => vstd::pervasive::unreached(),
        }
    }

    fn dof_prior(&self) -> (r: &Dof<T>)
        requires
            self.dof_prior is Some,
        ensures
            Some(*r) == self.dof_prior,
    {
        match &self.dof_prior {
            Some(d) => d,
            None => vstd::pervasive::unreached(),
        }
    }

    fn dof_posterior(&self) -> (r: &Dof<T>)
        requires
            self.dof_posterior is Some,
        ensures
            Some(*r) == self.dof_posterior,
    {
        match &self.dof_posterior {
            Some(d) => d,
            None => vstd::pervasive::unreached(),
        }
    }

    fn scale_prior(&self) -> (r: &CovarStore<T>)
        requires
            self.scale_prior is Some,
        ensures
            Some(*r) == self.scale_prior,
    {
        match &self.scale_prior {
            Some(s) => s,
            None => vstd::pervasive::unreached(),
        }
    }

    fn scale_posterior(&self) -> (r: &CovarStore<T>)
        requires
            self.scale_posterior is Some,
        ensures
            Some(*r) == self.scale_posterior,
    {
        match &self.scale_posterior {
            Some(s) => s,
            None => vstd::pervasive::unreached(),
        }
    }

    /// The point-estimate covariances in their compact form.
    pub fn covars(&self) -> (r: &CovarStore<T>)
        requires
            self.covars is Some,
        ensures
            Some(*r) == self.covars,
    {
        match &self.covars {
            Some(c) => c,
            None => vstd::pervasive::unreached(),
        }
    }

    /// The statistics have the shapes of this model.
    pub open spec fn takes(&self, stats: &VGaussianStats<T>) -> bool {
        let nc = self.n_components as int;
        let nf = self.width();
        &&& stats.post.len() == nc
        &&& stats.obs.has_dims(nc, nf)
        &&& stats.obs2.has_dims(nc, nf)
        &&& is_dense(self.covariance_type) ==> (stats.obs_obs_t matches Some(q) && q.has_dims(
            nc,
            nf,
            nf,
        ))
    }

    /// The updated precision scale of state `c`.
    pub open spec fn updated_beta(&self, stats: &VGaussianStats<T>, c: int) -> T {
        self.beta_prior->0@[c].s_plus(stats.post@[c])
    }

    /// The updated posterior mean of feature `f` in state `c`.
    pub open spec fn updated_mean(&self, stats: &VGaussianStats<T>, c: int, f: int) -> T {
        self.beta_prior->0@[c].s_times(self.means_prior->0.at(c, f)).s_plus(
            stats.obs.at(c, f),
        ).s_over(self.updated_beta(stats, c))
    }

    /// `base` plus the outer product of the prior means, less that of the new
    /// posterior means, each with its precision scale.
    pub open spec fn shifted(
        &self,
        base: T,
        means: &Matrix<T>,
        beta: Seq<T>,
        c: int,
        k: int,
        l: int,
    ) -> T {
        let mp = self.means_prior->0;
        base.s_plus(
            self.beta_prior->0@[c].s_times(mp.at(c, k)).s_times(mp.at(c, l)),
        ).s_minus(beta[c].s_times(means.at(c, k)).s_times(means.at(c, l)))
    }

    /// `scale` is the updated inverse scale, given the new means and precision
    /// scales.
    pub open spec fn updated_scale(
        &self,
        stats: &VGaussianStats<T>,
        means: &Matrix<T>,
        beta: Seq<T>,
        scale: &CovarStore<T>,
    ) -> bool {
        let nc = self.n_components as int;
        let nf = self.width();
        let prior = self.scale_prior->0;
        &&& scale.tag() == self.covariance_type
        &&& scale.fits(nc, nf)
        &&& match scale {
            CovarStore::Full(q) => forall|c: int, k: int, l: int|
                0 <= c < nc && 0 <= k < nf && 0 <= l < nf ==> #[trigger] q.at(c, k, l)
                    == self.shifted(
                    prior.cov_at(c, k, l).s_plus(stats.obs_obs_t->0.at(c, k, l)),
                    means,
                    beta,
                    c,
                    k,
                    l,
                ),
            CovarStore::Tied(m) => forall|k: int, l: int|
                0 <= k < nf && 0 <= l < nf ==> #[trigger] m.at(k, l) == prior.cov_at(
                    0,
                    k,
                    l,
                ).s_plus(
                    sigma(
                        nc,
                        |c: int|
                            self.shifted(
                                stats.obs_obs_t->0.at(c, k, l),
                                means,
                                beta,
                                c,
                                k,
                                l,
                            ),
                    ),
                ),
            CovarStore::Diag(m) => forall|c: int, j: int|
                0 <= c < nc && 0 <= j < nf ==> #[trigger] m.at(c, j) == self.shifted(
                    prior->Diag_0.at(c, j).s_plus(stats.obs2.at(c, j)),
                    means,
                    beta,
                    c,
                    j,
                    j,
                ),
            CovarStore::Spherical(v) => forall|c: int|
                0 <= c < nc ==> #[trigger] v@[c] == prior->Spherical_0@[c].s_plus(
                    sigma(
                        nf,
                        |j: int| self.shifted(stats.obs2.at(c, j), means, beta, c, j, j),
                    ).s_over(num(nf)),
                ),
        }
    }

    /// The updated degrees of freedom: the prior's plus the posterior mass.
    pub open spec fn updated_dof(&self, stats: &VGaussianStats<T>, d: &Dof<T>) -> bool {
        match (self.dof_prior->0, d) {
            (Dof::PerComponent(p), Dof::PerComponent(v)) => v.len() == self.n_components && forall|
                c: int,
            |
                0 <= c < self.n_components ==> #[trigger] v@[c] == p@[c].s_plus(stats.post@[c]),
            (Dof::Tied(p), Dof::Tied(v)) => *v == p.s_plus(total(stats.post@)),
            _ => false,
        }
    }

    fn update_beta(&self, stats: &VGaussianStats<T>) -> (r: Vec<T>)
        requires
            self.shaped(),
            self.takes(stats),
        ensures
            r.len() == self.n_components,
            forall|c: int|
                0 <= c < self.n_components ==> #[trigger] r@[c] == self.updated_beta(stats, c),
    {
        let bp = self.beta_prior();
        let f = |c: usize| -> (v: T)
            requires
                c < bp.len(),
                c < stats.post.len(),
            ensures
                v == bp@[c as int].s_plus(stats.post@[c as int]),
        {
            bp[c].plus(stats.post[c])
        };
        tabulate(self.n_components, f)
    }

    fn update_means(&self, stats: &VGaussianStats<T>) -> (r: Matrix<T>)
        requires
            self.shaped(),
            self.takes(stats),
        ensures
            r.has_dims(self.n_components as int, self.width()),
            forall|c: int, f: int|
                0 <= c < self.n_components && 0 <= f < self.width() ==> #[trigger] r.at(c, f)
                    == self.updated_mean(stats, c, f),
    {
        let f = |c: usize, f: usize| -> (v: T)
            requires
                self.shaped(),
                self.takes(stats),
                c < self.n_components,
                f < self.width(),
            ensures
                v == self.updated_mean(stats, c as int, f as int),
        {
            let b = self.beta_prior()[c];
            b.times(self.means_prior().get(c, f)).plus(stats.obs.get(c, f)).over(
                b.plus(stats.post[c]),
            )
        };
        Matrix::tabulate(self.n_components, self.nf(), f)
    }

    fn shift(
        &self,
        base: T,
        means: &Matrix<T>,
        beta: &Vec<T>,
        c: usize,
        k: usize,
        l: usize,
    ) -> (r: T)
        requires
            self.shaped(),
            means.has_dims(self.n_components as int, self.width()),
            beta.len() == self.n_components,
            c < self.n_components,
            k < self.width(),
            l < self.width(),
        ensures
            r == self.shifted(base, means, beta@, c as int, k as int, l as int),
    {
        let mp = self.means_prior();
        base.plus(self.beta_prior()[c].times(mp.get(c, k)).times(mp.get(c, l))).minus(
            beta[c].times(means.get(c, k)).times(means.get(c, l)),
        )
    }

    fn cross(&self, stats: &VGaussianStats<T>, c: usize, k: usize, l: usize) -> (r: T)
        requires
            self.takes(stats),
            is_dense(self.covariance_type),
            c < self.n_components,
            k < self.width(),
            l < self.width(),
        ensures
            r == stats.obs_obs_t->0.at(c as int, k as int, l as int),
    {
        match &stats.obs_obs_t {
            Some(q) => q.get(c, k, l),
            None => zero(),
        }
    }

    fn pooled(
        &self,
        stats: &VGaussianStats<T>,
        means: &Matrix<T>,
        beta: &Vec<T>,
        k: usize,
        l: usize,
    ) -> (r: T)
        requires
            self.shaped(),
            self.takes(stats),
            is_dense(self.covariance_type),
            means.has_dims(self.n_components as int, self.width()),
            beta.len() == self.n_components,
            k < self.width(),
            l < self.width(),
        ensures
            r == sigma(
                self.n_components as int,
                |c: int|
                    self.shifted(
                        stats.obs_obs_t->0.at(c, k as int, l as int),
                        means,
                        beta@,
                        c,
                        k as int,
                        l as int,
                    ),
            ),
    {
        let g = |c: usize| -> (v: T)
            requires
                self.shaped(),
                self.takes(stats),
                is_dense(self.covariance_type),
                means.has_dims(self.n_components as int, self.width()),
                beta.len() == self.n_components,
                c < self.n_components,
                k < self.width(),
                l < self.width(),
            ensures
                v == self.shifted(
                    stats.obs_obs_t->0.at(c as int, k as int, l as int),
                    means,
                    beta@,
                    c as int,
                    k as int,
                    l as int,
                ),
        {
            self.shift(self.cross(stats, c, k, l), means, beta, c, k, l)
        };
        sum_of(
            self.n_components,
            g,
            Ghost(
                |c: int|
                    self.shifted(
                        stats.obs_obs_t->0.at(c, k as int, l as int),
                        means,
                        beta@,
                        c,
                        k as int,
                        l as int,
                    ),
            ),
        )
    }

    fn averaged(&self, stats: &VGaussianStats<T>, means: &Matrix<T>, beta: &Vec<T>, c: usize) -> (r: T)
        requires
            self.shaped(),
            self.takes(stats),
            means.has_dims(self.n_components as int, self.width()),
            beta.len() == self.n_components,
            c < self.n_components,
        ensures
            r == sigma(
                self.width(),
                |j: int|
                    self.shifted(stats.obs2.at(c as int, j), means, beta@, c as int, j, j),
            ).s_over(num(self.width())),
    {
        let nf: usize = self.nf();
        let g = |j: usize| -> (v: T)
            requires
                self.shaped(),
                self.takes(stats),
                means.has_dims(self.n_components as int, self.width()),
                beta.len() == self.n_components,
                c < self.n_components,
                j < self.width(),
            ensures
                v == self.shifted(
                    stats.obs2.at(c as int, j as int),
                    means,
                    beta@,
                    c as int,
                    j as int,
                    j as int,
                ),
        {
            self.shift(stats.obs2.get(c, j), means, beta, c, j, j)
        };
        sum_of(
            nf,
            g,
            Ghost(
                |j: int|
                    self.shifted(stats.obs2.at(c as int, j), means, beta@, c as int, j, j),
            ),
        ).over(count(nf))
    }

    /// The updated inverse scale: the prior scale, the observed scatter and the
    /// outer products of the prior and posterior means.
    fn update_scale(&self, stats: &VGaussianStats<T>, means: &Matrix<T>, beta: &Vec<T>) -> (r:
        CovarStore<T>)
        requires
            self.shaped(),
            self.takes(stats),
            means.has_dims(self.n_components as int, self.width()),
            beta.len() == self.n_components,
        ensures
            self.updated_scale(stats, means, beta@, &r),
    {
        let nc: usize = self.n_components;
        let nf: usize = self.nf();
        let prior = self.scale_prior();
        match prior {
            CovarStore::Full(sp) => {
                let g = |c: usize, k: usize, l: usize| -> (v: T)
                    requires
                        self.shaped(),
                        self.takes(stats),
                        is_dense(self.covariance_type),
                        means.has_dims(self.n_components as int, self.width()),
                        beta.len() == self.n_components,
                        sp.has_dims(sp.items.len() as int, self.width(), self.width()),
                        sp.items.len() >= self.n_components,
                        c < self.n_components,
                        k < self.width(),
                        l < self.width(),
                    ensures
                        v == self.shifted(
                            sp.at(c as int, k as int, l as int).s_plus(
                                stats.obs_obs_t->0.at(c as int, k as int, l as int),
                            ),
                            means,
                            beta@,
                            c as int,
                            k as int,
                            l as int,
                        ),
                {
                    self.shift(
                        sp.get(c, k, l).plus(self.cross(stats, c, k, l)),
                        means,
                        beta,
                        c,
                        k,
                        l,
                    )
                };
                CovarStore::Full(Cube::tabulate(nc, nf, nf, g))
            },
            CovarStore::Tied(sp) => {
                let g = |k: usize, l: usize| -> (v: T)
                    requires
                        self.shaped(),
                        self.takes(stats),
                        is_dense(self.covariance_type),
                        means.has_dims(self.n_components as int, self.width()),
                        beta.len() == self.n_components,
                        sp.has_dims(self.width(), self.width()),
                        k < self.width(),
                        l < self.width(),
                    ensures
                        v == sp.at(k as int, l as int).s_plus(
                            sigma(
                                self.n_components as int,
                                |c: int|
                                    self.shifted(
                                        stats.obs_obs_t->0.at(c, k as int, l as int),
                                        means,
                                        beta@,
                                        c,
                                        k as int,
                                        l as int,
                                    ),
                            ),
                        ),
                {
                    sp.get(k, l).plus(self.pooled(stats, means, beta, k, l))
                };
                CovarStore::Tied(Matrix::tabulate(nf, nf, g))
            },
            CovarStore::Diag(sp) => {
                let g = |c: usize, j: usize| -> (v: T)
                    requires
                        self.shaped(),
                        self.takes(stats),
                        means.has_dims(self.n_components as int, self.width()),
                        beta.len() == self.n_components,
                        sp.has_dims(sp.rows.len() as int, self.width()),
                        sp.rows.len() >= self.n_components,
                        c < self.n_components,
                        j < self.width(),
                    ensures
                        v == self.shifted(
                            sp.at(c as int, j as int).s_plus(stats.obs2.at(c as int, j as int)),
                            means,
                            beta@,
                            c as int,
                            j as int,
                            j as int,
                        ),
                {
                    self.shift(sp.get(c, j).plus(stats.obs2.get(c, j)), means, beta, c, j, j)
                };
                CovarStore::Diag(Matrix::tabulate(nc, nf, g))
            },
            CovarStore::Spherical(sp) => {
                let g = |c: usize| -> (v: T)
                    requires
                        self.shaped(),
                        self.takes(stats),
                        means.has_dims(self.n_components as int, self.width()),
                        beta.len() == self.n_components,
                        sp.len() >= self.n_components,
                        c < self.n_components,
                    ensures
                        v == sp@[c as int].s_plus(
                            sigma(
                                self.width(),
                                |j: int|
                                    self.shifted(
                                        stats.obs2.at(c as int, j),
                                        means,
                                        beta@,
                                        c as int,
                                        j,
                                        j,
                                    ),
                            ).s_over(num(self.width())),
                        ),
                {
                    sp[c].plus(self.averaged(stats, means, beta, c))
                };
                CovarStore::Spherical(tabulate(nc, g))
            },
        }
    }

    fn update_dof(&self, stats: &VGaussianStats<T>) -> (r: Dof<T>)
        requires
            self.shaped(),
            self.takes(stats),
        ensures
            self.updated_dof(stats, &r),
    {
        match self.dof_prior() {
            Dof::Tied(p) => Dof::Tied(p.plus(sum(&stats.post))),
            Dof::PerComponent(p) => {
                let f = |c: usize| -> (v: T)
                    requires
                        c < p.len(),
                        c < stats.post.len(),
                    ensures
                        v == p@[c as int].s_plus(stats.post@[c as int]),
                {
                    p[c].plus(stats.post[c])
                };
                Dof::PerComponent(tabulate(self.n_components, f))
            },
        }
    }
}

impl<T: Dense> VariationalGaussianEm<T> {
    /// The inverse of the posterior scale of state `c`, where there is one.
    pub open spec fn precision_scale(&self, c: int) -> Option<Seq<Seq<T>>> {
        T::s_inverse(state_covariance(&self.scale_posterior->0, c, self.width()))
    }

    /// The constant term of the sub-normalised density of state `c`, given the
    /// inverse of its scale.
    pub open spec fn expected_log_det(&self, c: int, w: Seq<Seq<T>>) -> T {
        let nf = self.width();
        let dof = self.dof_posterior->0.at(c);
        dec::<T>(5, -1).s_times(
            sigma(
                nf,
                |d: int| digamma_of(dec::<T>(5, -1).s_times(dof.s_minus(num(d)))),
            ).s_plus(num::<T>(nf).s_times(num::<T>(2).s_ln())).s_plus(log_determinant(w)),
        )
    }

    /// The sub-normalised log-density of row `t` in state `c`: the expectation of
    /// the Gaussian log-density under the posteriors. No number where the scale is
    /// singular.
    pub open spec fn expected_density(&self, x: &Matrix<T>, t: int, c: int) -> T {
        match self.precision_scale(c) {
            None => T::s_nan(),
            Some(w) => self.expected_log_det(c, w).s_minus(
                dec::<T>(5, -1).s_times(
                    self.dof_posterior->0.at(c).s_times(
                        quadratic_form(
                            w,
                            difference(x.row_view(t), self.means_posterior->0.row_view(c)),
                        ),
                    ).s_plus(num::<T>(self.width()).s_over(self.beta_posterior->0@[c])),
                ),
            ),
        }
    }

    /// The divergence of the normal posterior over the mean of state `i` from its
    /// prior; none where a matrix on the way is singular.
    pub open spec fn mean_divergence(&self, i: int) -> Option<T> {
        match self.precision_scale(i) {
            None => None,
            Some(w) => {
                let precision = times_all_rows(w, self.dof_posterior->0.at(i));
                match (
                    T::s_inverse(times_all_rows(precision, self.beta_posterior->0@[i])),
                    T::s_inverse(times_all_rows(precision, self.beta_prior->0@[i])),
                ) {
                    (Some(covar_q), Some(covar_p)) => match T::s_inverse(covar_p) {
                        Some(back) => Some(
                            multivariate_divergence(
                                self.means_posterior->0.row_view(i),
                                covar_q,
                                self.means_prior->0.row_view(i),
                                covar_p,
                                back,
                            ),
                        ),
                        None => None,
                    },
                    _ => None,
                }
            },
        }
    }

    /// The divergence of the Wishart posterior over the precision of state `i` from
    /// its prior. A tied precision counts once.
    pub open spec fn precision_divergence(&self, i: int) -> Option<T> {
        if self.covariance_type == CovarianceType::Tied && i > 0 {
            Some(num(0))
        } else {
            match self.precision_scale(i) {
                None => None,
                Some(w) => Some(
                    wishart_divergence(
                        self.dof_posterior->0.at(i),
                        state_covariance(&self.scale_posterior->0, i, self.width()),
                        self.dof_prior->0.at(i),
                        state_covariance(&self.scale_prior->0, i, self.width()),
                        w,
                    ),
                ),
            }
        }
    }

    /// The bound after the first `n` states; none where a divergence cannot be
    /// computed.
    pub open spec fn bound_upto(&self, n: int) -> Option<T>
        decreases n,
    {
        if n <= 0 {
            Some(num(0))
        } else {
            match (
                self.bound_upto(n - 1),
                self.mean_divergence(n - 1),
                self.precision_divergence(n - 1),
            ) {
                (Some(lb), Some(a), Some(b)) => Some(lb.s_minus(a).s_minus(b)),
                _ => None,
            }
        }
    }

    proof fn bound_stays_none(&self, i: int, n: int)
        requires
            0 <= i <= n,
            self.bound_upto(i) is None,
        ensures
            self.bound_upto(n) is None,
        decreases n,
    {
        if i < n {
            self.bound_stays_none(i, n - 1);
        }
    }

    fn state_scale(&self, store: &CovarStore<T>, c: usize) -> (r: Matrix<T>)
        requires
            self.n_features is Some,
            store.covers(self.n_components as int, self.width()),
            c < self.n_components,
        ensures
            r.has_dims(self.width(), self.width()),
            r@ == state_covariance(store, c as int, self.width()),
    {
        let nf: usize = self.nf();
        let r = store.covariance_of(c, nf);
        proof {
            view_from_entries(
                &r,
                state_covariance(store, c as int, nf as int),
                nf as int,
                nf as int,
            );
        }
        r
    }

    fn log_det_term(&self, c: usize, w: &Matrix<T>) -> (r: T)
        requires
            self.shaped(),
            c < self.n_components,
            w.has_dims(self.width(), self.width()),
        ensures
            r == self.expected_log_det(c as int, w@),
    {
        let nf: usize = self.nf();
        let half = T::decimal(5, -1);
        let dof = self.dof_posterior().get(c);
        let f = |d: usize| -> (v: T)
            ensures
                v == digamma_of(half.s_times(dof.s_minus(num(d as int)))),
        {
            digamma(half.times(dof.minus(count(d))))
        };
        let dg = sum_of(nf, f, Ghost(|d: int| digamma_of(half.s_times(dof.s_minus(num(d))))));
        half.times(dg.plus(count::<T>(nf).times(T::of_int(2).ln())).plus(logdet(w)))
    }

    /// The sub-normalised log-densities of all rows in state `c`.
    fn expected_densities(&self, x: &Matrix<T>, c: usize) -> (r: Vec<T>)
        requires
            self.shaped(),
            x.has_dims(x.rows.len() as int, self.width()),
            c < self.n_components,
        ensures
            r.len() == x.rows.len(),
            forall|t: int|
                0 <= t < x.rows.len() ==> #[trigger] r@[t] == self.expected_density(
                    x,
                    t,
                    c as int,
                ),
    {
        let ns: usize = x.rows.len();
        let scale = self.state_scale(self.scale_posterior(), c);
        match inv(&scale) {
            None => filled(ns, T::nan()),
            Some(w) => {
                let term = self.log_det_term(c, &w);
                let half = T::decimal(5, -1);
                let dof = self.dof_posterior().get(c);
                let rest = count::<T>(self.nf()).over(self.beta_posterior()[c]);
                let means = self.means_posterior();
                let mut r: Vec<T> = Vec::new();
                let mut t: usize = 0;
                while t < ns
                    invariant
                        t <= ns,
                        ns == x.rows.len(),
                        self.shaped(),
                        c < self.n_components,
                        x.has_dims(ns as int, self.width()),
                        self.means_posterior == Some(*means),
                        w.has_dims(self.width(), self.width()),
                        self.precision_scale(c as int) == Some(w@),
                        term == self.expected_log_det(c as int, w@),
                        half == dec::<T>(5, -1),
                        dof == self.dof_posterior->0.at(c as int),
                        rest == num::<T>(self.width()).s_over(self.beta_posterior->0@[c as int]),
                        r.len() == t,
                        forall|p: int|
                            0 <= p < t ==> #[trigger] r@[p] == self.expected_density(
                                x,
                                p,
                                c as int,
                            ),
                    decreases ns - t,
                {
                    assert(x.rows[t as int].len() == self.width());
                    assert(means.rows[c as int].len() == self.width());
                    let delta = subtracted(&x.rows[t], &means.rows[c]);
                    let quad = quadratic(&w, &delta);
                    r.push(term.minus(half.times(dof.times(quad).plus(rest))));
                    t += 1;
                }
                r
            },
        }
    }

    fn expected_log_likelihood(&self, x: &Matrix<T>) -> (r: Matrix<T>)
        requires
            self.shaped(),
            x.has_dims(x.rows.len() as int, self.width()),
        ensures
            r.has_dims(x.rows.len() as int, self.n_components as int),
            forall|t: int, c: int|
                0 <= t < x.rows.len() && 0 <= c < self.n_components ==> #[trigger] r.at(t, c)
                    == self.expected_density(x, t, c),
    {
        let nc: usize = self.n_components;
        let ns: usize = x.rows.len();
        let mut cols: Vec<Vec<T>> = Vec::new();
        let mut c: usize = 0;
        while c < nc
            invariant
                c <= nc,
                nc == self.n_components,
                ns == x.rows.len(),
                self.shaped(),
                x.has_dims(ns as int, self.width()),
                cols.len() == c,
                forall|k: int| 0 <= k < c ==> (#[trigger] cols@[k])@.len() == ns,
                forall|k: int, t: int|
                    0 <= k < c && 0 <= t < ns ==> #[trigger] cols@[k]@[t] == self.expected_density(
                        x,
                        t,
                        k,
                    ),
            decreases nc - c,
        {
            cols.push(self.expected_densities(x, c));
            c += 1;
        }
        let f = |t: usize, c: usize| -> (v: T)
            requires
                t < ns,
                c < nc,
                cols.len() == nc,
                forall|k: int| 0 <= k < nc ==> (#[trigger] cols@[k])@.len() == ns,
            ensures
                v == cols@[c as int]@[t as int],
        {
            cols[c][t]
        };
        Matrix::tabulate(ns, nc, f)
    }

    fn divergence_of_means(&self, i: usize) -> (r: Option<T>)
        requires
            self.shaped(),
            i < self.n_components,
        ensures
            r == self.mean_divergence(i as int),
    {
        let scale = self.state_scale(self.scale_posterior(), i);
        let w = match inv(&scale) {
            Some(w) => w,
            None => {
                return None;
            },
        };
        let precision = scaled_rows(&w, self.dof_posterior().get(i));
        let covar_q = match inv(&scaled_rows(&precision, self.beta_posterior()[i])) {
            Some(m) => m,
            None => {
                return None;
            },
        };
        let covar_p = match inv(&scaled_rows(&precision, self.beta_prior()[i])) {
            Some(m) => m,
            None => {
                return None;
            },
        };
        let mq = self.means_posterior();
        let mp = self.means_prior();
        assert(mq.rows[i as int].len() == mq.ncols);
        assert(mp.rows[i as int].len() == mp.ncols);
        kl_multivariate_normal(&mq.rows[i], &covar_q, &mp.rows[i], &covar_p)
    }

    fn divergence_of_precisions(&self, i: usize) -> (r: Option<T>)
        requires
            self.shaped(),
            i < self.n_components,
        ensures
            r == self.precision_divergence(i as int),
    {
        let tied = match self.covariance_type {
            CovarianceType::Tied => true,
            _ => false,
        };
        if tied && i > 0 {
            return Some(zero());
        }
        let scale_q = self.state_scale(self.scale_posterior(), i);
        let scale_p = self.state_scale(self.scale_prior(), i);
        kl_wishart(self.dof_posterior().get(i), &scale_q, self.dof_prior().get(i), &scale_p)
    }
}

impl<T: Dense> EmissionModel<T> for VariationalGaussianEm<T> {
    type Inference = Variational<T>;

    type Stats = VGaussianStats<T>;

    open spec fn wf(&self) -> bool {
        self.ok()
    }

    open spec fn states(&self) -> int {
        self.n_components as int
    }

    open spec fn featured(&self) -> bool {
        self.n_features is Some
    }

    open spec fn features(&self) -> int {
        self.width()
    }

    open spec fn columns(&self) -> int {
        self.width()
    }

    open spec fn fits(&self) -> bool {
        self.shaped()
    }

    open spec fn valid(&self, nc: int) -> bool {
        let nf = self.width();
        let t = self.covariance_type;
        &&& self.complete()
        &&& self.means_prior->0.dims() == (nc, nf)
        &&& self.means_posterior->0.dims() == (nc, nf)
        &&& self.beta_prior->0.len() == nc
        &&& self.beta_posterior->0.len() == nc
        &&& self.dof_prior->0.fits(t, nc)
        &&& self.dof_posterior->0.fits(t, nc)
        &&& self.scale_prior->0.tag() == t
        &&& self.scale_prior->0.covers(nc, nf)
        &&& self.scale_posterior->0.tag() == t
    }

    open spec fn readable(&self, x: &Matrix<T>) -> bool {
        true
    }

    open spec fn initable(&self, x: &Matrix<T>, init: Set<Param>) -> bool {
        self.some_needed(init) ==> x.rows.len() >= 1
    }

    open spec fn scannable(&self, x: &Matrix<T>) -> bool {
        true
    }

    open spec fn matched(&self, x: &Matrix<T>) -> bool {
        self.n_features == Some(x.ncols)
    }

    open spec fn refused_rel(&self, x: &Matrix<T>, after: &Self) -> bool {
        *after == *self
    }

    open spec fn accepts(&self, x: &Matrix<T>) -> bool {
        self.n_features matches Some(nf) ==> nf == x.ncols
    }

    open spec fn refusal(&self, x: &Matrix<T>, e: HmmError) -> bool {
        e matches HmmError::DimensionMismatch(m) && m@ == columns_message(
            x.ncols as nat,
            self.width() as nat,
        )
    }

    open spec fn flaw(&self, nc: int, e: HmmError) -> bool {
        if !self.complete() {
            e == HmmError::NotFitted
        } else if self.means_prior->0.dims() != (nc, self.width())
            || self.means_posterior->0.dims() != (nc, self.width()) {
            e matches HmmError::DimensionMismatch(m) && m@
                == "means prior/posterior must have shape (n_components, n_features)"@
        } else if self.beta_prior->0.len() != nc || self.beta_posterior->0.len()
            != nc {
            e matches HmmError::DimensionMismatch(m) && m@
                == "beta prior/posterior must have length n_components"@
        } else if !self.dof_prior->0.fits(self.covariance_type, nc)
            || !self.dof_posterior->0.fits(self.covariance_type, nc) {
            e matches HmmError::DimensionMismatch(m) && m@
                == "dof has the wrong shape for covariance_type"@
        } else {
            e matches HmmError::DimensionMismatch(m) && m@
                == "scale has the wrong shape for covariance_type"@
        }
    }

    open spec fn init_flaw(&self, e: HmmError) -> bool {
        false
    }

    open spec fn mstep_flaw(&self, e: HmmError) -> bool {
        false
    }

    open spec fn observable(&self, x: &Matrix<T>) -> bool {
        x.ncols == self.width()
    }

    open spec fn owned_params() -> Seq<Param> {
        seq![Param::Means, Param::Covars]
    }

    /// Beside means and covariances, the precision scales and the degrees of
    /// freedom count.
    open spec fn scalars(&self, nc: int, params: ParamSet) -> int {
        (if params.members().contains(Param::Means) {
            nc * self.width() + nc
        } else {
            0
        }) + (if params.members().contains(Param::Covars) {
            (if self.covariance_type == CovarianceType::Tied {
                1
            } else {
                nc
            }) + covar_scalars(self.covariance_type, nc, self.width())
        } else {
            0
        })
    }

    open spec fn set_rel(&self, x: &Matrix<T>, after: &Self) -> bool {
        *after == (Self { n_features: Some(x.ncols), ..*self })
    }

    open spec fn init_ok(&self, x: &Matrix<T>, init: ParamSet, seed: Option<u32>) -> bool {
        true
    }

    /// K-means seeds the means and, by the cluster sizes, the precision scales and
    /// the degrees of freedom; the sample covariance seeds the covariances. What was
    /// given stays.
    open spec fn init_rel(
        &self,
        x: &Matrix<T>,
        init: ParamSet,
        seed: Option<u32>,
        after: &Self,
    ) -> bool {
        let nc = self.n_components as int;
        let nf = self.width();
        let t = self.covariance_type;
        let fresh_means = init.members().contains(Param::Means) || !self.means_preset;
        let fresh_covars = init.members().contains(Param::Covars) || !self.covars_preset;
        let centers = initial_means(x, nc, seed);
        let counts = Seq::new(
            nc as nat,
            |c: int| nearest_tally(x, centers, c, x.rows.len() as int),
        );
        &&& *after == (Self {
            means_prior: after.means_prior,
            means_posterior: after.means_posterior,
            beta_prior: after.beta_prior,
            beta_posterior: after.beta_posterior,
            dof_prior: after.dof_prior,
            dof_posterior: after.dof_posterior,
            scale_prior: after.scale_prior,
            scale_posterior: after.scale_posterior,
            covars: after.covars,
            means_preset: true,
            covars_preset: true,
            ..*self
        })
        &&& if fresh_means {
            &&& if self.means_prior_given {
                after.means_prior == self.means_prior
            } else {
                &&& after.means_prior matches Some(m)
                &&& m.has_dims(nc, nf)
                &&& forall|c: int, f: int|
                    0 <= c < nc && 0 <= f < nf ==> #[trigger] m.at(c, f) == feature_mean(x, f)
            }
            &&& if self.means_given {
                after.means_posterior == self.means_posterior
            } else {
                after.means_posterior matches Some(m) && m.has_dims(nc, nf) && m@ == centers
            }
            &&& if self.beta_prior_given {
                after.beta_prior == self.beta_prior
            } else {
                after.beta_prior matches Some(b) && b@ == Seq::new(nc as nat, |c: int| num::<T>(1))
            }
            &&& if self.beta_given {
                after.beta_posterior == self.beta_posterior
            } else {
                after.beta_posterior matches Some(b) && b@ == counts
            }
        } else {
            &&& after.means_prior == self.means_prior
            &&& after.means_posterior == self.means_posterior
            &&& after.beta_prior == self.beta_prior
            &&& after.beta_posterior == self.beta_posterior
        }
        &&& if fresh_covars {
            &&& if self.dof_prior_given {
                after.dof_prior == self.dof_prior
            } else {
                after.dof_prior matches Some(d) && default_dof(t, nc, nf, &d)
            }
            &&& after.dof_posterior matches Some(d) && counted_dof(t, counts, &d)
            &&& if self.scale_prior_given {
                after.scale_prior == self.scale_prior
            } else {
                after.scale_prior matches Some(s) && default_scale(t, nc, nf, &s)
            }
            &&& after.covars matches Some(s) && s.tag() == t && s.fits(nc, nf) && exists|
                cv: Matrix<T>,
            | #[trigger]
                floored_covariance(x, dec(1, -3), &cv) && forall|c: int, i: int, j: int|
                    0 <= c < nc && 0 <= i < nf && 0 <= j < nf ==> #[trigger] s.cov_at(c, i, j)
                        == distributed_at(&cv, t, i, j)
            &&& after.scale_posterior matches Some(q) && is_scaled(
                &after.covars->0,
                &after.dof_posterior->0,
                nc,
                nf,
                &q,
            )
        } else {
            &&& after.dof_prior == self.dof_prior
            &&& after.dof_posterior == self.dof_posterior
            &&& after.scale_prior == self.scale_prior
            &&& after.scale_posterior == self.scale_posterior
            &&& after.covars == self.covars
        }
    }

    open spec fn log_like(&self, x: &Matrix<T>, t: int, c: int) -> T {
        log_density_at(x, &self.means_posterior->0, &self.covars->0, t, c)
    }

    open spec fn like(&self, x: &Matrix<T>, t: int, c: int) -> T {
        log_density_at(x, &self.means_posterior->0, &self.covars->0, t, c).s_exp()
    }

    open spec fn fit_log_like(&self, x: &Matrix<T>, t: int, c: int) -> T {
        self.expected_density(x, t, c)
    }

    open spec fn fit_like(&self, x: &Matrix<T>, t: int, c: int) -> T {
        self.expected_density(x, t, c).s_exp()
    }

    open spec fn stats_fit(&self, stats: &VGaussianStats<T>) -> bool {
        self.takes(stats)
    }

    open spec fn zero_stats(&self, stats: &VGaussianStats<T>) -> bool {
        let nc = self.n_components as int;
        let nf = self.width();
        &&& self.takes(stats)
        &&& stats.obs_obs_t is Some <==> is_dense(self.covariance_type)
        &&& forall|c: int| 0 <= c < nc ==> #[trigger] stats.post@[c] == num::<T>(0)
        &&& forall|c: int, f: int|
            0 <= c < nc && 0 <= f < nf ==> #[trigger] stats.obs.at(c, f) == num::<T>(0)
        &&& forall|c: int, f: int|
            0 <= c < nc && 0 <= f < nf ==> #[trigger] stats.obs2.at(c, f) == num::<T>(0)
        &&& stats.obs_obs_t matches Some(q) ==> forall|c: int, k: int, l: int|
            0 <= c < nc && 0 <= k < nf && 0 <= l < nf ==> #[trigger] q.at(c, k, l) == num::<T>(0)
    }

    /// The covariance update reads the mean statistics, so they are gathered
    /// whenever means or covariances are fitted.
    open spec fn accumulate_rel(
        &self,
        before: &VGaussianStats<T>,
        x: &Matrix<T>,
        post: &Matrix<T>,
        params: ParamSet,
        after: &VGaussianStats<T>,
    ) -> bool {
        let covars = params.members().contains(Param::Covars);
        &&& if params.members().contains(Param::Means) || covars {
            gains_mass(before.post@, post, after.post@) && gains_products(
                &before.obs,
                post,
                x,
                &after.obs,
            )
        } else {
            after.post == before.post && after.obs == before.obs
        }
        &&& if covars && !is_dense(self.covariance_type) {
            gains_squares(&before.obs2, post, x, &after.obs2)
        } else {
            after.obs2 == before.obs2
        }
        &&& if covars && is_dense(self.covariance_type) {
            &&& before.obs_obs_t matches Some(p)
            &&& after.obs_obs_t matches Some(q)
            &&& gains_outer(&p, post, x, &q)
        } else {
            after.obs_obs_t == before.obs_obs_t
        }
    }

    open spec fn mstep_ok(&self, stats: &VGaussianStats<T>, params: ParamSet) -> bool {
        true
    }

    /// The means are updated first; the covariance update reads the new means.
    open spec fn mstep_rel(&self, stats: &VGaussianStats<T>, params: ParamSet, after: &Self) -> bool {
        let nc = self.n_components as int;
        let nf = self.width();
        &&& *after == (Self {
            means_posterior: after.means_posterior,
            beta_posterior: after.beta_posterior,
            dof_posterior: after.dof_posterior,
            scale_posterior: after.scale_posterior,
            covars: after.covars,
            ..*self
        })
        &&& after.means_posterior is Some && after.beta_posterior is Some
        &&& if params.members().contains(Param::Means) {
            &&& forall|c: int|
                0 <= c < nc ==> (#[trigger] after.beta_posterior->0@[c]) == self.updated_beta(
                    stats,
                    c,
                )
            &&& forall|c: int, f: int|
                0 <= c < nc && 0 <= f < nf ==> (#[trigger] after.means_posterior->0.at(c, f))
                    == self.updated_mean(stats, c, f)
        } else {
            &&& after.means_posterior == self.means_posterior
            &&& after.beta_posterior == self.beta_posterior
        }
        &&& if params.members().contains(Param::Covars) {
            &&& after.dof_posterior matches Some(d)
            &&& self.updated_dof(stats, &d)
            &&& after.scale_posterior matches Some(s)
            &&& self.updated_scale(
                stats,
                &after.means_posterior->0,
                after.beta_posterior->0@,
                &s,
            )
            &&& after.covars matches Some(v)
            &&& is_point_estimate(&s, &d, nc, nf, &v)
        } else {
            &&& after.dof_posterior == self.dof_posterior
            &&& after.scale_posterior == self.scale_posterior
            &&& after.covars == self.covars
        }
    }

    open spec fn samplable(&self) -> bool {
        true
    }

    open spec fn draw(&self, state: int, s: RngView<T>) -> (RngView<T>, Option<Seq<T>>) {
        gaussian_draw(
            self.means_posterior->0.row_view(state),
            state_covariance(&self.covars->0, state, self.width()),
            s,
        )
    }

    open spec fn contribution(&self) -> Option<T> {
        self.bound_upto(self.n_components as int)
    }

    open spec fn begin_rel(&self, after: &Self) -> bool {
        *after == *self
    }

    proof fn slices_observable(&self, x: &Matrix<T>, begin: int, end: int, sub: &Matrix<T>) {
    }

    proof fn likelihoods_of_row(&self, x: &Matrix<T>, t: int, y: &Matrix<T>, u: int, c: int) {
        density_of_row(x, t, y, u, &self.means_posterior->0, &self.covars->0, c);
    }

    proof fn fits_featured(&self) {
    }

    fn emission_params() -> (r: Vec<Param>) {
        let mut v: Vec<Param> = Vec::new();
        v.push(Param::Means);
        v.push(Param::Covars);
        proof {
            assert(v@ =~= seq![Param::Means, Param::Covars]);
        }
        v
    }

    fn n_features(&self) -> (n: usize) {
        self.nf()
    }

    fn check_and_set_n_features(&mut self, x: &Matrix<T>) -> (r: Result<(), HmmError>) {
        match confirm_features(self.n_features, x) {
            Ok(nf) => {
                self.n_features = Some(nf);
                Ok(())
            },
            Err(e) => Err(e),
        }
    }

    #[verifier::rlimit(40)]
    fn init(&mut self, x: &Matrix<T>, init: ParamSet, seed: Option<u32>) -> (r: Result<
        (),
        HmmError,
    >) {
        let nc: usize = self.n_components;
        let nf: usize = self.nf();
        let fresh_means = init.contains(Param::Means) || !self.means_preset;
        let fresh_covars = init.contains(Param::Covars) || !self.covars_preset;
        if !fresh_means && !fresh_covars {
            return Ok(());
        }
        let centers = kmeans(x, nc, 10, 300, seed);
        let counts = cluster_counts(x, &centers);
        if fresh_covars {
            if !self.dof_prior_given {
                let d = match self.covariance_type {
                    CovarianceType::Tied => Dof::Tied(count(nf)),
                    _ => Dof::PerComponent(filled(nc, count(nf))),
                };
                self.dof_prior = Some(d);
            }
            let dof = match self.covariance_type {
                CovarianceType::Tied => Dof::Tied(sum(&counts)),
                _ => Dof::PerComponent(copied(&counts)),
            };
            let cv = covariance_with_floor(x, T::decimal(1, -3));
            let covars = distribute_covar(&cv, self.covariance_type, nc);
            assert(floored_covariance(x, dec::<T>(1, -3), &cv));
            if !self.scale_prior_given {
                self.scale_prior = Some(default_scale_prior(self.covariance_type, nc, nf));
            }
            self.scale_posterior = Some(scale_from_covariance(&covars, &dof, nc, nf));
            self.dof_posterior = Some(dof);
            self.covars = Some(covars);
        }
        if fresh_means {
            if !self.means_prior_given {
                let ns: usize = x.rows.len();
                let f = |c: usize, j: usize| -> (v: T)
                    requires
                        x.wf(),
                        j < x.ncols,
                        ns == x.rows.len(),
                    ensures
                        v == feature_mean(x, j as int),
                {
                    col_sum(x, j).over(count(ns))
                };
                self.means_prior = Some(Matrix::tabulate(nc, nf, f));
            }
            if !self.beta_prior_given {
                self.beta_prior = Some(filled(nc, one()));
            }
            if !self.means_given {
                self.means_posterior = Some(centers);
            }
            if !self.beta_given {
                self.beta_posterior = Some(counts);
            }
        }
        self.means_preset = true;
        self.covars_preset = true;
        Ok(())
    }

    fn check(&self, n_components: usize) -> (r: Result<(), HmmError>) {
        let nf: usize = match self.n_features {
            Some(nf) => nf,
            None => {
                return Err(HmmError::NotFitted);
            },
        };
        match (&self.means_prior, &self.means_posterior, &self.beta_prior, &self.beta_posterior) {
            (Some(mp), Some(mq), Some(bp), Some(bq)) => {
                match (&self.dof_prior, &self.dof_posterior, &self.scale_prior, &self.scale_posterior) {
                    (Some(dp), Some(dq), Some(sp), Some(sq)) => {
                        if mp.rows.len() != n_components || mp.ncols != nf || mq.rows.len()
                            != n_components || mq.ncols != nf {
                            return Err(
                                HmmError::DimensionMismatch(
                                    "means prior/posterior must have shape (n_components, n_features)".to_owned(),
                                ),
                            );
                        }
                        if bp.len() != n_components || bq.len() != n_components {
                            return Err(
                                HmmError::DimensionMismatch(
                                    "beta prior/posterior must have length n_components".to_owned(),
                                ),
                            );
                        }
                        let t = self.covariance_type;
                        if !dp.has_shape(t, n_components) || !dq.has_shape(t, n_components) {
                            return Err(
                                HmmError::DimensionMismatch(
                                    "dof has the wrong shape for covariance_type".to_owned(),
                                ),
                            );
                        }
                        if sp.covariance_type() != t || !sp.has_states(n_components, nf)
                            || sq.covariance_type() != t {
                            return Err(
                                HmmError::DimensionMismatch(
                                    "scale has the wrong shape for covariance_type".to_owned(),
                                ),
                            );
                        }
                        Ok(())
                    },
                    _ => Err(HmmError::NotFitted),
                }
            },
            _ => Err(HmmError::NotFitted),
        }
    }

    fn n_fit_scalars(&self, n_components: usize, params: ParamSet) -> (n: usize) {
        let nf: usize = self.nf();
        assert(0 <= n_components * nf) by (nonlinear_arith);
        let mut n: usize = 0;
        if params.contains(Param::Means) {
            n = clamped_sum(clamped_product(n_components, nf), n_components);
        }
        let k: usize = clamped_covar_scalars(self.covariance_type, n_components, nf);
        if params.contains(Param::Covars) {
            let dofs: usize = match self.covariance_type {
                CovarianceType::Tied => 1,
                _ => n_components,
            };
            n = clamped_sum(n, clamped_sum(dofs, k));
        }
        n
    }

    fn log_likelihood(&self, x: &Matrix<T>) -> (r: Matrix<T>) {
        log_multivariate_normal_density(x, self.means_posterior(), self.covars())
    }

    fn likelihood(&self, x: &Matrix<T>) -> (r: Matrix<T>) {
        exp_matrix(&log_multivariate_normal_density(x, self.means_posterior(), self.covars()))
    }

    fn fit_log_likelihood(&self, x: &Matrix<T>) -> (r: Matrix<T>) {
        self.expected_log_likelihood(x)
    }

    fn fit_likelihood(&self, x: &Matrix<T>) -> (r: Matrix<T>) {
        exp_matrix(&self.expected_log_likelihood(x))
    }

    fn init_stats(&self) -> (r: VGaussianStats<T>) {
        let nc: usize = self.n_components;
        let nf: usize = self.nf();
        let outer = match self.covariance_type {
            CovarianceType::Spherical => None,
            CovarianceType::Diag => None,
            _ => Some(zero_cube(nc, nf)),
        };
        VGaussianStats {
            post: filled(nc, zero()),
            obs: Matrix::constant(nc, nf, zero()),
            obs2: Matrix::constant(nc, nf, zero()),
            obs_obs_t: outer,
        }
    }

    fn accumulate(
        &self,
        stats: &mut VGaussianStats<T>,
        x: &Matrix<T>,
        posteriors: &Matrix<T>,
        params: ParamSet,
    ) {
        if params.contains(Param::Means) || params.contains(Param::Covars) {
            let post = add_mass(&stats.post, posteriors);
            let obs = add_products(&stats.obs, posteriors, x);
            stats.post = post;
            stats.obs = obs;
        }
        if params.contains(Param::Covars) {
            match self.covariance_type {
                CovarianceType::Spherical => {
                    let obs2 = add_squares(&stats.obs2, posteriors, x);
                    stats.obs2 = obs2;
                },
                CovarianceType::Diag => {
                    let obs2 = add_squares(&stats.obs2, posteriors, x);
                    stats.obs2 = obs2;
                },
                _ => {
                    let outer = match &stats.obs_obs_t {
                        Some(q) => Some(add_outer(q, posteriors, x)),
                        None => None,
                    };
                    stats.obs_obs_t = outer;
                },
            }
        }
    }

    fn mstep(&mut self, stats: &VGaussianStats<T>, params: ParamSet) -> (r: Result<(), HmmError>) {
        let nc: usize = self.n_components;
        let nf: usize = self.nf();
        let moved = if params.contains(Param::Means) {
            Some((self.update_means(stats), self.update_beta(stats)))
        } else {
            None
        };
        let spread = if params.contains(Param::Covars) {
            let (means, beta) = match &moved {
                Some(pair) => (&pair.0, &pair.1),
                None => (self.means_posterior(), self.beta_posterior()),
            };
            let scale = self.update_scale(stats, means, beta);
            let dof = self.update_dof(stats);
            let covars = point_covariance(&scale, &dof, nc, nf);
            Some((scale, dof, covars))
        } else {
            None
        };
        if let Some((means, beta)) = moved {
            self.means_posterior = Some(means);
            self.beta_posterior = Some(beta);
        }
        if let Some((scale, dof, covars)) = spread {
            self.scale_posterior = Some(scale);
            self.dof_posterior = Some(dof);
            self.covars = Some(covars);
        }
        Ok(())
    }

    fn sample_state(&self, state: usize, rng: &mut NumpyRandomState<T>) -> (r: Option<Vec<T>>) {
        let nf: usize = self.nf();
        let store = self.covars();
        let means = self.means_posterior();
        assert(store.fits(self.n_components as int, nf as int));
        let cov = store.covariance_of(state, nf);
        assert(means.rows[state as int].len() == means.ncols);
        draw_gaussian(
            &means.rows[state],
            &cov,
            Ghost(state_covariance(store, state as int, nf as int)),
            rng,
        )
    }

    fn lower_bound_contribution(&self) -> (r: Option<T>) {
        let nc: usize = self.n_components;
        let mut lb = zero::<T>();
        let mut i: usize = 0;
        while i < nc
            invariant
                i <= nc,
                nc == self.n_components,
                self.shaped(),
                self.bound_upto(i as int) == Some(lb),
            decreases nc - i,
        {
            match (self.divergence_of_means(i), self.divergence_of_precisions(i)) {
                (Some(a), Some(b)) => {
                    lb = lb.minus(a).minus(b);
                },
                _ => {
                    proof {
                        assert(self.bound_upto(i as int + 1) is None);
                        self.bound_stays_none(i as int + 1, nc as int);
                    }
                    return None;
                },
            }
            i += 1;
        }
        Some(lb)
    }

    fn estep_begin(&mut self) {
    }
}

/// A variational model scores and draws as the Gaussian model at its point
/// estimate: the posterior means and the covariances.
pub proof fn scores_as_point_estimate<T: Dense>(
    v: &VariationalGaussianEm<T>,
    em: &GaussianEm<T>,
    x: &Matrix<T>,
    t: int,
    c: int,
    s: RngView<T>,
)
    requires
        v.means_posterior == em.means,
        v.covars == em.covars,
        v.n_features == em.n_features,
    ensures
        v.log_like(x, t, c) == em.log_like(x, t, c),
        v.like(x, t, c) == em.like(x, t, c),
        v.draw(c, s) == em.draw(c, s),
{
}

/// Builder for variational Gaussian models.
///
/// A variational model is always obtained by fitting.
#[derive(Clone)]
pub struct VariationalGaussianHmm<T> {
    /// Number of hidden states.
    pub n_components: usize,
    /// Covariance parameterisation.
    pub covariance_type: CovarianceType,
    /// Decoding algorithm.
    pub algorithm: DecoderAlgorithm,
    /// Forward-backward implementation.
    pub implementation: Implementation,
    /// Which parameters are updated.
    pub params: ParamSet,
    /// Which parameters are initialised before fitting.
    pub init_params: ParamSet,
    /// Maximum number of iterations.
    pub n_iter: usize,
    /// Convergence threshold on the per-iteration gain of the bound.
    pub tol: T,
    /// Whether each iteration is reported.
    pub verbose: bool,
    /// Seed for initialisation.
    pub random_state: Option<u32>,
    /// Optional Dirichlet prior on the initial-state distribution.
    pub startprob_prior: Option<Vec<T>>,
    /// Optional preset Dirichlet posterior over the initial-state distribution.
    pub startprob_posterior: Option<Vec<T>>,
    /// Optional Dirichlet prior on the transition rows.
    pub transmat_prior: Option<Matrix<T>>,
    /// Optional preset Dirichlet posterior over the transition rows.
    pub transmat_posterior: Option<Matrix<T>>,
    /// Optional prior means.
    pub means_prior: Option<Matrix<T>>,
    /// Optional preset posterior means.
    pub means_posterior: Option<Matrix<T>>,
    /// Optional prior precision scales.
    pub beta_prior: Option<Vec<T>>,
    /// Optional preset posterior precision scales.
    pub beta_posterior: Option<Vec<T>>,
    /// Optional prior degrees of freedom.
    pub dof_prior: Option<Dof<T>>,
    /// Optional prior inverse scale.
    pub scale_prior: Option<CovarStore<T>>,
}

impl<T: Dense> VariationalGaussianHmm<T> {
    /// The number of features that the presets fix.
    pub open spec fn known_features(&self) -> Option<usize> {
        match self.means_posterior {
            Some(m) => Some(m.ncols),
            None => match self.means_prior {
                Some(m) => Some(m.ncols),
                None => None,
            },
        }
    }

    /// The emission model that the builder describes.
    pub open spec fn emission(&self) -> VariationalGaussianEm<T> {
        VariationalGaussianEm {
            n_components: self.n_components,
            n_features: self.known_features(),
            covariance_type: self.covariance_type,
            means_prior: self.means_prior,
            means_posterior: self.means_posterior,
            beta_prior: self.beta_prior,
            beta_posterior: self.beta_posterior,
            dof_prior: self.dof_prior,
            dof_posterior: None,
            scale_prior: self.scale_prior,
            scale_posterior: None,
            covars: None,
            means_prior_given: self.means_prior is Some,
            beta_prior_given: self.beta_prior is Some,
            dof_prior_given: self.dof_prior is Some,
            scale_prior_given: self.scale_prior is Some,
            means_given: self.means_posterior is Some,
            beta_given: self.beta_posterior is Some,
            means_preset: self.means_posterior is Some,
            covars_preset: self.scale_prior is Some && self.means_posterior is Some,
        }
    }

    /// There is a state; given arrays are rectangular and agree with each other.
    pub open spec fn wf(&self) -> bool {
        &&& self.n_components >= 1
        &&& self.transmat_prior matches Some(m) ==> m.wf()
        &&& self.transmat_posterior matches Some(m) ==> m.wf()
        &&& self.emission().ok()
    }

    /// `h` is the model that the builder describes.
    pub open spec fn builds(&self, h: &Hmm<T, VariationalGaussianEm<T>>) -> bool {
        &&& variational_built(
            &h.inference,
            self.n_components,
            None,
            None,
            self.startprob_prior,
            self.startprob_posterior,
            self.transmat_prior,
            self.transmat_posterior,
        )
        &&& h.emission == self.emission()
        &&& has_settings(
            h,
            self.algorithm,
            self.implementation,
            self.params,
            self.init_params.members(),
            self.n_iter,
            self.tol,
            self.verbose,
            self.random_state,
        )
        &&& h.wf()
    }

    /// A model with `n_components` states and the defaults: full covariances,
    /// Viterbi decoding in log space, everything initialised and updated, at most
    /// 100 iterations with tolerance `1e-6`, priors derived from the data.
    pub fn new(n_components: usize) -> (r: Self)
        ensures
            r.n_components == n_components,
            r.covariance_type == CovarianceType::Full,
            r.algorithm == DecoderAlgorithm::Viterbi,
            r.implementation == Implementation::Log,
            forall|p: Param| r.params.members().contains(p) <==> "stmc"@.contains(p.letter()),
            r.init_params == r.params,
            r.n_iter == 100,
            r.tol == dec::<T>(1, -6),
            !r.verbose,
            r.random_state is None,
            r.startprob_prior is None,
            r.startprob_posterior is None,
            r.transmat_prior is None,
            r.transmat_posterior is None,
            r.means_prior is None,
            r.means_posterior is None,
            r.beta_prior is None,
            r.beta_posterior is None,
            r.dof_prior is None,
            r.scale_prior is None,
    {
        let params = ParamSet::from_codes("stmc");
        VariationalGaussianHmm {
            n_components,
            covariance_type: CovarianceType::Full,
            algorithm: DecoderAlgorithm::Viterbi,
            implementation: Implementation::Log,
            params,
            init_params: params,
            n_iter: 100,
            tol: T::decimal(1, -6),
            verbose: false,
            random_state: None,
            startprob_prior: None,
            startprob_posterior: None,
            transmat_prior: None,
            transmat_posterior: None,
            means_prior: None,
            means_posterior: None,
            beta_prior: None,
            beta_posterior: None,
            dof_prior: None,
            scale_prior: None,
        }
    }

    /// Sets the covariance parameterisation.
    pub fn covariance_type(self, ct: CovarianceType) -> (r: Self)
        ensures
            r == (Self { covariance_type: ct, ..self }),
    {
        let mut s = self;
        s.covariance_type = ct;
        s
    }

    /// Sets the maximum number of iterations.
    pub fn n_iter(self, n: usize) -> (r: Self)
        ensures
            r == (Self { n_iter: n, ..self }),
    {
        let mut s = self;
        s.n_iter = n;
        s
    }

    /// Sets the convergence threshold on the per-iteration gain.
    pub fn tol(self, tol: T) -> (r: Self)
        ensures
            r == (Self { tol: tol, ..self }),
    {
        let mut s = self;
        s.tol = tol;
        s
    }

    /// Sets the forward-backward implementation.
    pub fn implementation(self, i: Implementation) -> (r: Self)
        ensures
            r == (Self { implementation: i, ..self }),
    {
        let mut s = self;
        s.implementation = i;
        s
    }

    /// Sets which parameters are updated, from letter codes (`s`, `t`, `m`, `c`).
    pub fn params(self, codes: &str) -> (r: Self)
        ensures
            r == (Self { params: r.params, ..self }),
            r.params.wf(),
            forall|p: Param| r.params.members().contains(p) <==> codes@.contains(p.letter()),
    {
        let mut s = self;
        s.params = ParamSet::from_codes(codes);
        s
    }

    /// Sets which parameters are initialised before fitting, from letter codes (`s`, `t`, `m`, `c`).
    pub fn init_params(self, codes: &str) -> (r: Self)
        ensures
            r == (Self { init_params: r.init_params, ..self }),
            r.init_params.wf(),
            forall|p: Param| r.init_params.members().contains(p) <==> codes@.contains(p.letter()),
    {
        let mut s = self;
        s.init_params = ParamSet::from_codes(codes);
        s
    }

    /// Sets the seed for initialisation and sampling.
    pub fn random_state(self, seed: u32) -> (r: Self)
        ensures
            r == (Self { random_state: Some(seed), ..self }),
    {
        let mut s = self;
        s.random_state = Some(seed);
        s
    }

    /// Sets whether each iteration is reported.
    pub fn verbose(self, v: bool) -> (r: Self)
        ensures
            r == (Self { verbose: v, ..self }),
    {
        let mut s = self;
        s.verbose = v;
        s
    }

    /// Sets the Dirichlet prior on the initial-state distribution.
    pub fn startprob_prior(self, p: Vec<T>) -> (r: Self)
        ensures
            r == (Self { startprob_prior: Some(p), ..self }),
    {
        let mut s = self;
        s.startprob_prior = Some(p);
        s
    }

    /// Presets the Dirichlet posterior over the initial-state distribution.
    pub fn startprob_posterior(self, p: Vec<T>) -> (r: Self)
        ensures
            r == (Self { startprob_posterior: Some(p), ..self }),
    {
        let mut s = self;
        s.startprob_posterior = Some(p);
        s
    }

    /// Sets the Dirichlet prior on the transition rows.
    pub fn transmat_prior(self, p: Matrix<T>) -> (r: Self)
        ensures
            r == (Self { transmat_prior: Some(p), ..self }),
    {
        let mut s = self;
        s.transmat_prior = Some(p);
        s
    }

    /// Presets the Dirichlet posterior over the transition rows.
    pub fn transmat_posterior(self, p: Matrix<T>) -> (r: Self)
        ensures
            r == (Self { transmat_posterior: Some(p), ..self }),
    {
        let mut s = self;
        s.transmat_posterior = Some(p);
        s
    }

    /// Sets the mean of the normal prior over each state's mean.
    pub fn means_prior(self, m: Matrix<T>) -> (r: Self)
        ensures
            r == (Self { means_prior: Some(m), ..self }),
    {
        let mut s = self;
        s.means_prior = Some(m);
        s
    }

    /// Presets the posterior means.
    pub fn means_posterior(self, m: Matrix<T>) -> (r: Self)
        ensures
            r == (Self { means_posterior: Some(m), ..self }),
    {
        let mut s = self;
        s.means_posterior = Some(m);
        s
    }

    /// Sets the precision scales of the normal prior.
    pub fn beta_prior(self, b: Vec<T>) -> (r: Self)
        ensures
            r == (Self { beta_prior: Some(b), ..self }),
    {
        let mut s = self;
        s.beta_prior = Some(b);
        s
    }

    /// Presets the precision scales of the normal posterior.
    pub fn beta_posterior(self, b: Vec<T>) -> (r: Self)
        ensures
            r == (Self { beta_posterior: Some(b), ..self }),
    {
        let mut s = self;
        s.beta_posterior = Some(b);
        s
    }

    /// Sets the degrees of freedom of the Wishart prior.
    pub fn dof_prior(self, d: Dof<T>) -> (r: Self)
        ensures
            r == (Self { dof_prior: Some(d), ..self }),
    {
        let mut s = self;
        s.dof_prior = Some(d);
        s
    }

    /// Sets the inverse scale of the Wishart prior.
    pub fn scale_prior(self, s: CovarStore<T>) -> (r: Self)
        ensures
            r == (Self { scale_prior: Some(s), ..self }),
    {
        let mut b = self;
        b.scale_prior = Some(s);
        b
    }

    /// The unfitted model that the builder describes.
    pub fn build(self) -> (h: Hmm<T, VariationalGaussianEm<T>>)
        requires
            self.wf(),
        ensures
            self.builds(&h),
    {
        let n_features: Option<usize> = match &self.means_posterior {
            Some(m) => Some(m.ncols),
            None => match &self.means_prior {
                Some(m) => Some(m.ncols),
                None => None,
            },
        };
        let means_prior_given = self.means_prior.is_some();
        let beta_prior_given = self.beta_prior.is_some();
        let dof_prior_given = self.dof_prior.is_some();
        let scale_prior_given = self.scale_prior.is_some();
        let means_preset = self.means_posterior.is_some();
        let beta_given = self.beta_posterior.is_some();
        let inference = Variational::new(
            self.n_components,
            None,
            None,
            self.startprob_prior,
            self.startprob_posterior,
            self.transmat_prior,
            self.transmat_posterior,
        );
        let emission = VariationalGaussianEm {
            n_components: self.n_components,
            n_features,
            covariance_type: self.covariance_type,
            means_prior: self.means_prior,
            means_posterior: self.means_posterior,
            beta_prior: self.beta_prior,
            beta_posterior: self.beta_posterior,
            dof_prior: self.dof_prior,
            dof_posterior: None,
            scale_prior: self.scale_prior,
            scale_posterior: None,
            covars: None,
            means_prior_given,
            beta_prior_given,
            dof_prior_given,
            scale_prior_given,
            means_given: means_preset,
            beta_given,
            means_preset,
            covars_preset: scale_prior_given && means_preset,
        };
        Hmm {
            emission,
            inference,
            algorithm: self.algorithm,
            implementation: self.implementation,
            params: self.params,
            init_params: self.init_params,
            n_iter: self.n_iter,
            random_state: self.random_state,
            monitor: ConvergenceMonitor::new(self.tol, self.n_iter, self.verbose),
            notes: Vec::new(),
        }
    }

    /// Fit the model.
    pub fn fit(self, x: &Matrix<T>, lengths: Option<&[usize]>) -> (r: Result<
        Fitted<T, VariationalGaussianEm<T>>,
        HmmError,
    >)
        requires
            self.wf(),
            x.wf(),
            fit_ready(&self.emission(), self.init_params.members(), self.n_iter, x, lengths),
        ensures
            exists|h: Hmm<T, VariationalGaussianEm<T>>| #[trigger]
                self.builds(&h) && fit_result(&h, x, lengths, r),
    {
        self.build().fit(x, lengths)
    }
}

} // verus!
