//! Gaussian-mixture model.
//!
//! Each state emits from a mixture of `n_mix` Gaussians. The M-step works under
//! normal and inverse-Wishart priors.

use crate::cluster::{as_labels, kmeans, labelled, member_count, nearest, nearest_center};
use crate::counting::{clamped_product, clamped_sum, saturated, saturated_factor};
use crate::covariance::store::{grand_mean, mean_of_all, on_diagonal};
use crate::covariance::types::CovarianceType;
use crate::engine::emission::EmissionModel;
use crate::engine::fit::{fit_ready, fit_result, taken_as_fitted};
use crate::engine::fitted::Fitted;
use crate::engine::hmm::Hmm;
use crate::engine::inference::{
    gave_up, is_gave_up, is_off_one, off_one, rows_sum_to_one, seed_or_zero, seeded_state, Em,
    Inference,
};
use crate::engine::monitor::ConvergenceMonitor;
use crate::engine::params::{less, DecoderAlgorithm, Implementation, Param, ParamSet};
use crate::error::HmmError;
use crate::linalg::Dense;
use crate::matrix::{col_sum, copied, filled, row_sum, row_total, tabulate, Cube, Matrix};
use crate::models::gaussian::{
    clamped_triangle, covariance_with_floor, draw_gaussian, floored_covariance, gaussian_draw,
    initial_means, triangle,
};
use crate::models::shared::{columns_message, confirm_features, em_built, exp_matrix, has_settings};
use crate::rng::choice::picked;
use crate::rng::state::{fresh_state, NumpyRandomState, RngView};
use crate::rng::uniform::sample_of;
use crate::scalar::{
    count, dec, grow, grown, negate, negative, num, one, sigma, sum_of, zero, Scalar,
};
use crate::special::{log_sum_exp, logsumexp};
use crate::stats::mvn::{
    density_diag, density_full, diag_density, diag_density_of_row, full_density,
    full_density_of_row,
};
use vstd::prelude::*;

verus! {

/// Per-state mixture covariances.
#[derive(Debug, Clone, PartialEq)]
pub enum GmmCovars<T> {
    /// `(n_components, n_mix)`.
    Spherical(Matrix<T>),
    /// `(n_components, n_mix, n_features)`.
    Diag(Cube<T>),
    /// `(n_components, n_mix, n_features, n_features)`, one stack per state.
    Full(Vec<Cube<T>>),
    /// `(n_components, n_features, n_features)`, shared by the mixtures of a state.
    Tied(Cube<T>),
}

impl<T: Scalar> GmmCovars<T> {
    /// Every array inside is rectangular.
    pub open spec fn wf(&self) -> bool {
        match self {
            GmmCovars::Spherical(c) => c.wf(),
            GmmCovars::Diag(c) => c.wf(),
            GmmCovars::Full(c) => forall|i: int| 0 <= i < c.len() ==> (#[trigger] c@[i]).wf(),
            GmmCovars::Tied(c) => c.wf(),
        }
    }

    /// The covariances of `nc` states with `nm` mixtures over `nf` features.
    pub open spec fn fits(&self, nc: int, nm: int, nf: int) -> bool {
        match self {
            GmmCovars::Spherical(c) => c.has_dims(nc, nm),
            GmmCovars::Diag(c) => c.has_dims(nc, nm, nf),
            GmmCovars::Full(c) => c.len() == nc && forall|i: int|
                0 <= i < nc ==> (#[trigger] c@[i]).has_dims(nm, nf, nf),
            GmmCovars::Tied(c) => c.has_dims(nc, nf, nf),
        }
    }

    /// The type tag.
    pub open spec fn tag(&self) -> CovarianceType {
        match self {
            GmmCovars::Spherical(_) => CovarianceType::Spherical,
            GmmCovars::Diag(_) => CovarianceType::Diag,
            GmmCovars::Full(_) => CovarianceType::Full,
            GmmCovars::Tied(_) => CovarianceType::Tied,
        }
    }

    /// The covariance of features `k` and `l` in mixture `m` of state `i`.
    pub open spec fn cov_at(&self, i: int, m: int, k: int, l: int) -> T {
        match self {
            GmmCovars::Spherical(c) => on_diagonal(c.at(i, m), k, l),
            GmmCovars::Diag(c) => on_diagonal(c.at(i, m, k), k, l),
            GmmCovars::Full(c) => c@[i].at(m, k, l),
            GmmCovars::Tied(c) => c.at(i, k, l),
        }
    }

    /// The covariance matrix of mixture `m` of state `i`.
    pub open spec fn mix_covariance(&self, i: int, m: int, nf: int) -> Seq<Seq<T>> {
        Seq::new(nf as nat, |k: int| Seq::new(nf as nat, |l: int| self.cov_at(i, m, k, l)))
    }

    /// Whether the covariances are those of `nc` states with `nm` mixtures over
    /// `nf` features.
    fn has_shape(&self, nc: usize, nm: usize, nf: usize) -> (r: bool)
        requires
            self.wf(),
        ensures
            r == self.fits(nc as int, nm as int, nf as int),
    {
        match self {
            GmmCovars::Spherical(c) => c.rows.len() == nc && c.ncols == nm,
            GmmCovars::Diag(c) => c.items.len() == nc && c.nrows == nm && c.ncols == nf,
            GmmCovars::Full(c) => stacks_fit(c, nc, nm, nf),
            GmmCovars::Tied(c) => c.items.len() == nc && c.nrows == nf && c.ncols == nf,
        }
    }

    /// The covariance matrix of mixture `m` of state `i`.
    fn mix_cov(&self, i: usize, m: usize, nf: usize, Ghost(nc): Ghost<int>, Ghost(nm): Ghost<int>) -> (r:
        Matrix<T>)
        requires
            self.fits(nc, nm, nf as int),
            i < nc,
            m < nm,
        ensures
            r.has_dims(nf as int, nf as int),
            forall|k: int, l: int|
                0 <= k < nf && 0 <= l < nf ==> #[trigger] r.at(k, l) == self.cov_at(
                    i as int,
                    m as int,
                    k,
                    l,
                ),
    {
        let f = |k: usize, l: usize| -> (v: T)
            requires
                self.fits(nc, nm, nf as int),
                i < nc,
                m < nm,
                k < nf,
                l < nf,
            ensures
                v == self.cov_at(i as int, m as int, k as int, l as int),
        {
            match self {
                GmmCovars::Spherical(c) => if k == l {
                    c.get(i, m)
                } else {
                    zero()
                },
                GmmCovars::Diag(c) => if k == l {
                    c.get(i, m, k)
                } else {
                    zero()
                },
                GmmCovars::Full(c) => c[i].get(m, k, l),
                GmmCovars::Tied(c) => c.get(i, k, l),
            }
        };
        Matrix::tabulate(nf, nf, f)
    }
}

/// Whether there are `nc` stacks of `nm` square matrices of order `nf`.
fn stacks_fit<T: Scalar>(c: &Vec<Cube<T>>, nc: usize, nm: usize, nf: usize) -> (r: bool)
    requires
        forall|i: int| 0 <= i < c.len() ==> (#[trigger] c@[i]).wf(),
    ensures
        r == (c.len() == nc && forall|i: int|
            0 <= i < nc ==> (#[trigger] c@[i]).has_dims(nm as int, nf as int, nf as int)),
{
    if c.len() != nc {
        return false;
    }
    let mut i: usize = 0;
    while i < nc
        invariant
            i <= nc,
            nc == c.len(),
            forall|i: int| 0 <= i < c.len() ==> (#[trigger] c@[i]).wf(),
            forall|p: int|
                0 <= p < i ==> (#[trigger] c@[p]).has_dims(nm as int, nf as int, nf as int),
        decreases nc - i,
    {
        let q = &c[i];
        if q.items.len() != nm || q.nrows != nf || q.ncols != nf {
            assert(!c@[i as int].has_dims(nm as int, nf as int, nf as int));
            return false;
        }
        i += 1;
    }
    true
}

/// Emission statistics.
pub struct GmmStats<T> {
    /// Responsibility mass per state and mixture, `(n_components, n_mix)`.
    pub post_mix_sum: Matrix<T>,
    /// Occupation mass per state.
    pub post_sum: Vec<T>,
    /// Responsibility-weighted observations, `(n_components, n_mix, n_features)`.
    pub m_n: Cube<T>,
    /// Responsibility-weighted scatter about the means.
    pub c_n: GmmCovars<T>,
}

/// Gaussian-mixture emission model.
#[derive(Clone)]
pub struct GmmEm<T> {
    /// Number of hidden states.
    pub n_components: usize,
    /// Number of mixtures per state.
    pub n_mix: usize,
    /// Number of features; `None` until inferred from data or presets.
    pub n_features: Option<usize>,
    /// Covariance parameterisation.
    pub covariance_type: CovarianceType,
    /// Means, `(n_components, n_mix, n_features)`; `None` until initialised.
    pub means: Option<Cube<T>>,
    /// Mixture weights, `(n_components, n_mix)`; `None` until initialised.
    pub weights: Option<Matrix<T>>,
    /// Covariances; `None` until initialised.
    pub covars: Option<GmmCovars<T>>,
    /// Whether the means are set and must not be initialised again.
    pub means_preset: bool,
    /// Whether the weights are set and must not be initialised again.
    pub weights_preset: bool,
    /// Whether the covariances are set and must not be initialised again.
    pub covars_preset: bool,
    /// Floor added to the covariance diagonal at initialisation.
    pub min_covar: T,
    /// Dirichlet prior on the mixture weights.
    pub weights_prior: T,
    /// Prior mean of the means.
    pub means_prior: T,
    /// Prior weight of the means.
    pub means_weight: T,
    /// Prior of the covariances; `None` for the default of the type.
    pub covars_prior: Option<T>,
    /// Prior weight of the covariances; `None` for the default of the type.
    pub covars_weight: Option<T>,
}

impl<T: Scalar> GmmEm<T> {
    /// The number of features, where it is known.
    pub open spec fn width(&self) -> int {
        self.n_features->0 as int
    }

    /// There is a mixture; given arrays are rectangular, and given means fix the
    /// number of features.
    pub open spec fn ok(&self) -> bool {
        &&& self.n_mix >= 1
        &&& self.means matches Some(m) ==> m.wf() && self.n_features == Some(m.ncols)
        &&& self.weights matches Some(w) ==> w.wf()
        &&& self.covars matches Some(c) ==> c.wf()
    }

    /// Means, weights and covariances are set and have the right shapes.
    pub open spec fn shaped(&self) -> bool {
        let nc = self.n_components as int;
        let nm = self.n_mix as int;
        &&& self.n_mix >= 1
        &&& self.n_features is Some
        &&& self.means matches Some(m) && m.has_dims(nc, nm, self.width())
        &&& self.weights matches Some(w) && w.has_dims(nc, nm)
        &&& self.covars matches Some(c) && c.fits(nc, nm, self.width())
    }

    /// The mixture means, `(n_components, n_mix, n_features)`.
    pub fn means(&self) -> (r: &Cube<T>)
        requires
            self.means is Some,
        ensures
            Some(*r) == self.means,
    {
        match &self.means {
            Some(m) => m,
            None => vstd::pervasive::unreached(),
        }
    }

    /// The mixture weights, `(n_components, n_mix)`.
    pub fn weights(&self) -> (r: &Matrix<T>)
        requires
            self.weights is Some,
        ensures
            Some(*r) == self.weights,
    {
        match &self.weights {
            Some(w) => w,
            None => vstd::pervasive::unreached(),
        }
    }

    /// The mixture covariances.
    pub fn covars(&self) -> (r: &GmmCovars<T>)
        requires
            self.covars is Some,
        ensures
            Some(*r) == self.covars,
    {
        match &self.covars {
            Some(c) => c,
            None => vstd::pervasive::unreached(),
        }
    }

    fn nf(&self) -> (n: usize)
        requires
            self.n_features is Some,
        ensures
            Some(n) == self.n_features,
    {
        match self.n_features {
            Some(n) => n,
            None => 0,
        }
    }

    /// The prior of the covariances: the given one, or the default of the type.
    pub open spec fn covar_prior(&self) -> T {
        match self.covars_prior {
            Some(p) => p,
            None => match self.covariance_type {
                CovarianceType::Full => num(0),
                CovarianceType::Tied => num(0),
                CovarianceType::Diag => dec(-15, -1),
                CovarianceType::Spherical => negative(
                    num::<T>(self.n_mix as int).s_plus(num(2)),
                ).s_over(num(2)),
            },
        }
    }

    /// The prior weight of the covariances: the given one, or the default of the
    /// type.
    pub open spec fn covar_weight(&self) -> T {
        match self.covars_weight {
            Some(w) => w,
            None => match self.covariance_type {
                CovarianceType::Full => negative(
                    num::<T>(1).s_plus(num(self.width())).s_plus(num(1)),
                ),
                CovarianceType::Tied => negative(
                    num::<T>(self.n_mix as int).s_plus(num(self.width())).s_plus(num(1)),
                ),
                CovarianceType::Diag => num(0),
                CovarianceType::Spherical => num(0),
            },
        }
    }

    /// The prior and the prior weight of the covariances.
    fn covar_priors(&self) -> (r: (T, T))
        requires
            self.n_features is Some,
        ensures
            r.0 == self.covar_prior(),
            r.1 == self.covar_weight(),
    {
        let nf = count::<T>(self.nf());
        let nm = count::<T>(self.n_mix);
        let (dp, dw) = match self.covariance_type {
            CovarianceType::Full => (zero(), negate(one::<T>().plus(nf).plus(one()))),
            CovarianceType::Tied => (zero(), negate(nm.plus(nf).plus(one()))),
            CovarianceType::Diag => (T::decimal(-15, -1), zero()),
            CovarianceType::Spherical => (negate(nm.plus(T::of_int(2))).over(T::of_int(2)), zero()),
        };
        let p = match self.covars_prior {
            Some(p) => p,
            None => dp,
        };
        let w = match self.covars_weight {
            Some(w) => w,
            None => dw,
        };
        (p, w)
    }
}

impl<T: Dense> GmmEm<T> {
    /// The log-density of row `t` in mixture `m` of state `i`.
    pub open spec fn density_at(&self, x: &Matrix<T>, i: int, t: int, m: int) -> T {
        let means = self.means->0.items@[i];
        match self.covars->0 {
            GmmCovars::Spherical(c) => diag_density(x, &means, |f: int| c.at(i, m), t, m),
            GmmCovars::Diag(c) => diag_density(x, &means, |f: int| c.at(i, m, f), t, m),
            GmmCovars::Full(c) => full_density(x, &means, c@[i].items@[m]@, t, m),
            GmmCovars::Tied(c) => full_density(x, &means, c.items@[i]@, t, m),
        }
    }

    /// That log-density plus the log of the mixture's weight.
    pub open spec fn weighted_at(&self, x: &Matrix<T>, i: int, t: int, m: int) -> T {
        self.density_at(x, i, t, m).s_plus(self.weights->0.at(i, m).s_ln())
    }

    /// The weighted log-densities of row `t` in all mixtures of state `i`.
    pub open spec fn weighted_row(&self, x: &Matrix<T>, i: int, t: int) -> Seq<T> {
        Seq::new(self.n_mix as nat, |m: int| self.weighted_at(x, i, t, m))
    }

    /// The responsibility of mixture `m` for row `t` in state `i`.
    pub open spec fn responsibility(&self, x: &Matrix<T>, i: int, t: int, m: int) -> T {
        if self.n_mix == 1 {
            num::<T>(0).s_exp()
        } else {
            self.weighted_at(x, i, t, m).s_minus(log_sum_exp(self.weighted_row(x, i, t))).s_exp()
        }
    }

    /// The posterior mass of mixture `m` of state `i` in row `t`.
    pub open spec fn mix_mass(&self, x: &Matrix<T>, post: &Matrix<T>, i: int, t: int, m: int) -> T {
        post.at(t, i).s_times(self.responsibility(x, i, t, m))
    }

    fn mixture_densities(&self, x: &Matrix<T>, i: usize, m: usize) -> (r: Vec<T>)
        requires
            self.shaped(),
            x.has_dims(x.rows.len() as int, self.width()),
            i < self.n_components,
            m < self.n_mix,
        ensures
            r.len() == x.rows.len(),
            forall|t: int|
                0 <= t < x.rows.len() ==> #[trigger] r@[t] == self.density_at(
                    x,
                    i as int,
                    t,
                    m as int,
                ),
    {
        let cube = self.means();
        let means = &cube.items[i];
        assert(cube.items@[i as int].has_dims(self.n_mix as int, self.width()));
        match self.covars() {
            GmmCovars::Spherical(c) => {
                let var = filled(self.nf(), c.get(i, m));
                density_diag(x, means, m, &var, Ghost(|f: int| c.at(i as int, m as int)))
            },
            GmmCovars::Diag(c) => {
                assert(c.items@[i as int].has_dims(self.n_mix as int, self.width()));
                assert(c.items@[i as int].rows[m as int].len() == self.width());
                density_diag(
                    x,
                    means,
                    m,
                    &c.items[i].rows[m],
                    Ghost(|f: int| c.at(i as int, m as int, f)),
                )
            },
            GmmCovars::Full(c) => {
                assert(c@[i as int].items@[m as int].has_dims(self.width(), self.width()));
                density_full(x, means, m, &c[i].items[m])
            },
            GmmCovars::Tied(c) => {
                assert(c.items@[i as int].has_dims(self.width(), self.width()));
                density_full(x, means, m, &c.items[i])
            },
        }
    }

    /// Per-mixture log-densities of one state, each offset by its log weight,
    /// `(n_samples, n_mix)`.
    fn log_weighted_densities(&self, x: &Matrix<T>, i: usize) -> (r: Matrix<T>)
        requires
            self.shaped(),
            x.has_dims(x.rows.len() as int, self.width()),
            i < self.n_components,
        ensures
            r.has_dims(x.rows.len() as int, self.n_mix as int),
            forall|t: int, m: int|
                0 <= t < x.rows.len() && 0 <= m < self.n_mix ==> #[trigger] r.at(t, m)
                    == self.weighted_at(x, i as int, t, m),
    {
        let nm: usize = self.n_mix;
        let ns: usize = x.rows.len();
        let w = self.weights();
        let mut cols: Vec<Vec<T>> = Vec::new();
        let mut m: usize = 0;
        while m < nm
            invariant
                m <= nm,
                nm == self.n_mix,
                ns == x.rows.len(),
                self.shaped(),
                x.has_dims(ns as int, self.width()),
                i < self.n_components,
                cols.len() == m,
                forall|k: int| 0 <= k < m ==> (#[trigger] cols@[k])@.len() == ns,
                forall|k: int, t: int|
                    0 <= k < m && 0 <= t < ns ==> #[trigger] cols@[k]@[t] == self.density_at(
                        x,
                        i as int,
                        t,
                        k,
                    ),
            decreases nm - m,
        {
            cols.push(self.mixture_densities(x, i, m));
            m += 1;
        }
        let f = |t: usize, m: usize| -> (v: T)
            requires
                t < ns,
                m < nm,
                i < w.rows.len(),
                w.has_dims(w.rows.len() as int, nm as int),
                cols.len() == nm,
                forall|k: int| 0 <= k < nm ==> (#[trigger] cols@[k])@.len() == ns,
            ensures
                v == cols@[m as int]@[t as int].s_plus(w.at(i as int, m as int).s_ln()),
        {
            cols[m][t].plus(w.get(i, m).ln())
        };
        Matrix::tabulate(ns, nm, f)
    }

    /// The posterior masses of all mixtures of state `i`, `(n_samples, n_mix)`.
    fn mix_masses(&self, x: &Matrix<T>, post: &Matrix<T>, i: usize) -> (r: Matrix<T>)
        requires
            self.shaped(),
            x.has_dims(x.rows.len() as int, self.width()),
            post.has_dims(x.rows.len() as int, self.n_components as int),
            i < self.n_components,
        ensures
            r.has_dims(x.rows.len() as int, self.n_mix as int),
            forall|t: int, m: int|
                0 <= t < x.rows.len() && 0 <= m < self.n_mix ==> #[trigger] r.at(t, m)
                    == self.mix_mass(x, post, i as int, t, m),
    {
        let nm: usize = self.n_mix;
        let ns: usize = x.rows.len();
        let d = self.log_weighted_densities(x, i);
        let mut rows: Vec<Vec<T>> = Vec::new();
        let mut t: usize = 0;
        while t < ns
            invariant
                t <= ns,
                ns == x.rows.len(),
                nm == self.n_mix,
                i < self.n_components,
                post.has_dims(ns as int, self.n_components as int),
                d.has_dims(ns as int, nm as int),
                forall|t: int, m: int|
                    0 <= t < ns && 0 <= m < nm ==> #[trigger] d.at(t, m) == self.weighted_at(
                        x,
                        i as int,
                        t,
                        m,
                    ),
                rows.len() == t,
                forall|p: int| 0 <= p < t ==> (#[trigger] rows@[p])@.len() == nm,
                forall|p: int, m: int|
                    0 <= p < t && 0 <= m < nm ==> #[trigger] rows@[p]@[m] == self.mix_mass(
                        x,
                        post,
                        i as int,
                        p,
                        m,
                    ),
            decreases ns - t,
        {
            let lse = logsumexp(&d.rows[t]);
            proof {
                assert(d.rows[t as int].len() == nm);
                assert forall|m: int| 0 <= m < nm implies #[trigger] d.rows@[t as int]@[m]
                    == self.weighted_row(x, i as int, t as int)[m] by {
                    assert(d.at(t as int, m) == self.weighted_at(x, i as int, t as int, m));
                }
                assert(d.rows@[t as int]@ =~= self.weighted_row(x, i as int, t as int));
            }
            let pc = post.get(t, i);
            let f = |m: usize| -> (v: T)
                requires
                    m < nm,
                    t < ns,
                    d.has_dims(ns as int, nm as int),
                ensures
                    v == pc.s_times(
                        if nm == 1 {
                            num::<T>(0).s_exp()
                        } else {
                            d.at(t as int, m as int).s_minus(lse).s_exp()
                        },
                    ),
            {
                if nm == 1 {
                    pc.times(zero::<T>().exp())
                } else {
                    pc.times(d.get(t, m).minus(lse).exp())
                }
            };
            let row = tabulate(nm, f);
            proof {
                assert forall|m: int| 0 <= m < nm implies #[trigger] row@[m] == self.mix_mass(
                    x,
                    post,
                    i as int,
                    t as int,
                    m,
                ) by {
                    assert(d.at(t as int, m) == self.weighted_at(x, i as int, t as int, m));
                }
            }
            rows.push(row);
            t += 1;
        }
        Matrix { rows, ncols: nm }
    }

    /// The statistics have the shapes of this model.
    pub open spec fn takes(&self, stats: &GmmStats<T>) -> bool {
        let nc = self.n_components as int;
        let nm = self.n_mix as int;
        &&& stats.post_mix_sum.has_dims(nc, nm)
        &&& stats.post_sum.len() == nc
        &&& stats.m_n.has_dims(nc, nm, self.width())
        &&& stats.c_n.fits(nc, nm, self.width())
        &&& stats.c_n.tag() == self.covariance_type
    }

    /// What row `t` adds to the scatter statistic of mixture `m` of state `i` for
    /// features `k` and `l`.
    pub open spec fn scatter_term(
        &self,
        x: &Matrix<T>,
        post: &Matrix<T>,
        i: int,
        m: int,
        k: int,
        l: int,
        t: int,
    ) -> T {
        let means = self.means->0;
        let dk = x.at(t, k).s_minus(means.at(i, m, k));
        let dl = x.at(t, l).s_minus(means.at(i, m, l));
        self.mix_mass(x, post, i, t, m).s_times(dk).s_times(dl)
    }

    /// What row `t` adds to the spherical scatter statistic.
    pub open spec fn square_term(
        &self,
        x: &Matrix<T>,
        post: &Matrix<T>,
        i: int,
        m: int,
        t: int,
    ) -> T {
        let means = self.means->0;
        self.mix_mass(x, post, i, t, m).s_times(
            sigma(
                self.width(),
                |f: int|
                    x.at(t, f).s_minus(means.at(i, m, f)).s_times(
                        x.at(t, f).s_minus(means.at(i, m, f)),
                    ),
            ),
        )
    }

    /// The tied scatter statistic after the first `n` rows: each row adds its
    /// mixtures in order.
    pub open spec fn tied_mass(
        &self,
        before: T,
        x: &Matrix<T>,
        post: &Matrix<T>,
        i: int,
        k: int,
        l: int,
        n: int,
    ) -> T
        decreases n,
    {
        if n <= 0 {
            before
        } else {
            grown(
                self.tied_mass(before, x, post, i, k, l, n - 1),
                self.n_mix as int,
                |m: int| self.scatter_term(x, post, i, m, k, l, n - 1),
            )
        }
    }

    /// `after` is the scatter statistic `before` with all rows of `x` added.
    pub open spec fn gains_scatter(
        &self,
        before: &GmmCovars<T>,
        x: &Matrix<T>,
        post: &Matrix<T>,
        after: &GmmCovars<T>,
    ) -> bool {
        let nc = self.n_components as int;
        let nm = self.n_mix as int;
        let nf = self.width();
        let ns = x.rows.len() as int;
        match (before, after) {
            (GmmCovars::Spherical(b), GmmCovars::Spherical(a)) => forall|i: int, m: int|
                0 <= i < nc && 0 <= m < nm ==> #[trigger] a.at(i, m) == grown(
                    b.at(i, m),
                    ns,
                    |t: int| self.square_term(x, post, i, m, t),
                ),
            (GmmCovars::Diag(b), GmmCovars::Diag(a)) => forall|i: int, m: int, f: int|
                0 <= i < nc && 0 <= m < nm && 0 <= f < nf ==> #[trigger] a.at(i, m, f) == grown(
                    b.at(i, m, f),
                    ns,
                    |t: int| self.scatter_term(x, post, i, m, f, f, t),
                ),
            (GmmCovars::Full(b), GmmCovars::Full(a)) => forall|i: int, m: int, k: int, l: int|
                0 <= i < nc && 0 <= m < nm && 0 <= k < nf && 0 <= l < nf ==> #[trigger] a@[i].at(
                    m,
                    k,
                    l,
                ) == grown(
                    b@[i].at(m, k, l),
                    ns,
                    |t: int| self.scatter_term(x, post, i, m, k, l, t),
                ),
            (GmmCovars::Tied(b), GmmCovars::Tied(a)) => forall|i: int, k: int, l: int|
                0 <= i < nc && 0 <= k < nf && 0 <= l < nf ==> #[trigger] a.at(i, k, l)
                    == self.tied_mass(b.at(i, k, l), x, post, i, k, l, ns),
            _ => false,
        }
    }

    /// The masses of all states, as they are computed.
    pub open spec fn are_masses(&self, x: &Matrix<T>, post: &Matrix<T>, masses: Seq<Matrix<T>>) -> bool {
        masses.len() == self.n_components && (forall|i: int|
            0 <= i < self.n_components ==> (#[trigger] masses[i]).has_dims(
                x.rows.len() as int,
                self.n_mix as int,
            )) && forall|i: int, t: int, m: int|
            0 <= i < self.n_components && 0 <= t < x.rows.len() && 0 <= m < self.n_mix
                ==> #[trigger] masses[i].at(t, m) == self.mix_mass(x, post, i, t, m)
    }

    fn scatter_value(
        &self,
        x: &Matrix<T>,
        Ghost(post): Ghost<&Matrix<T>>,
        masses: &Vec<Matrix<T>>,
        i: usize,
        m: usize,
        k: usize,
        l: usize,
        t: usize,
    ) -> (r: T)
        requires
            self.shaped(),
            x.has_dims(x.rows.len() as int, self.width()),
            self.are_masses(x, post, masses@),
            i < self.n_components,
            m < self.n_mix,
            k < self.width(),
            l < self.width(),
            t < x.rows.len(),
        ensures
            r == self.scatter_term(x, post, i as int, m as int, k as int, l as int, t as int),
    {
        let means = self.means();
        let dk = x.get(t, k).minus(means.get(i, m, k));
        let dl = x.get(t, l).minus(means.get(i, m, l));
        assert(masses@[i as int].at(t as int, m as int) == self.mix_mass(
            x,
            post,
            i as int,
            t as int,
            m as int,
        ));
        masses[i].get(t, m).times(dk).times(dl)
    }

    fn scatter_sum(
        &self,
        before: T,
        x: &Matrix<T>,
        Ghost(post): Ghost<&Matrix<T>>,
        masses: &Vec<Matrix<T>>,
        i: usize,
        m: usize,
        k: usize,
        l: usize,
    ) -> (r: T)
        requires
            self.shaped(),
            x.has_dims(x.rows.len() as int, self.width()),
            self.are_masses(x, post, masses@),
            i < self.n_components,
            m < self.n_mix,
            k < self.width(),
            l < self.width(),
        ensures
            r == grown(
                before,
                x.rows.len() as int,
                |t: int| self.scatter_term(x, post, i as int, m as int, k as int, l as int, t),
            ),
    {
        let f = |t: usize| -> (v: T)
            requires
                self.shaped(),
                x.has_dims(x.rows.len() as int, self.width()),
                self.are_masses(x, post, masses@),
                i < self.n_components,
                m < self.n_mix,
                k < self.width(),
                l < self.width(),
                t < x.rows.len(),
            ensures
                v == self.scatter_term(x, post, i as int, m as int, k as int, l as int, t as int),
        {
            self.scatter_value(x, Ghost(post), masses, i, m, k, l, t)
        };
        grow(
            before,
            x.rows.len(),
            f,
            Ghost(|t: int| self.scatter_term(x, post, i as int, m as int, k as int, l as int, t)),
        )
    }

    fn square_value(
        &self,
        x: &Matrix<T>,
        Ghost(post): Ghost<&Matrix<T>>,
        masses: &Vec<Matrix<T>>,
        i: usize,
        m: usize,
        t: usize,
    ) -> (r: T)
        requires
            self.shaped(),
            x.has_dims(x.rows.len() as int, self.width()),
            self.are_masses(x, post, masses@),
            i < self.n_components,
            m < self.n_mix,
            t < x.rows.len(),
        ensures
            r == self.square_term(x, post, i as int, m as int, t as int),
    {
        let means = self.means();
        let nf: usize = self.nf();
        let f = |f: usize| -> (v: T)
            requires
                f < nf,
                t < x.rows.len(),
                x.has_dims(x.rows.len() as int, nf as int),
                means.has_dims(means.items.len() as int, means.nrows as int, nf as int),
                i < means.items.len(),
                m < means.nrows,
            ensures
                v == x.at(t as int, f as int).s_minus(
                    means.at(i as int, m as int, f as int),
                ).s_times(x.at(t as int, f as int).s_minus(means.at(i as int, m as int, f as int))),
        {
            let d = x.get(t, f).minus(means.get(i, m, f));
            d.times(d)
        };
        let s = sum_of(
            nf,
            f,
            Ghost(
                |f: int|
                    x.at(t as int, f).s_minus(means.at(i as int, m as int, f)).s_times(
                        x.at(t as int, f).s_minus(means.at(i as int, m as int, f)),
                    ),
            ),
        );
        assert(masses@[i as int].at(t as int, m as int) == self.mix_mass(
            x,
            post,
            i as int,
            t as int,
            m as int,
        ));
        masses[i].get(t, m).times(s)
    }

    fn square_sum(
        &self,
        before: T,
        x: &Matrix<T>,
        Ghost(post): Ghost<&Matrix<T>>,
        masses: &Vec<Matrix<T>>,
        i: usize,
        m: usize,
    ) -> (r: T)
        requires
            self.shaped(),
            x.has_dims(x.rows.len() as int, self.width()),
            self.are_masses(x, post, masses@),
            i < self.n_components,
            m < self.n_mix,
        ensures
            r == grown(
                before,
                x.rows.len() as int,
                |t: int| self.square_term(x, post, i as int, m as int, t),
            ),
    {
        let f = |t: usize| -> (v: T)
            requires
                self.shaped(),
                x.has_dims(x.rows.len() as int, self.width()),
                self.are_masses(x, post, masses@),
                i < self.n_components,
                m < self.n_mix,
                t < x.rows.len(),
            ensures
                v == self.square_term(x, post, i as int, m as int, t as int),
        {
            self.square_value(x, Ghost(post), masses, i, m, t)
        };
        grow(
            before,
            x.rows.len(),
            f,
            Ghost(|t: int| self.square_term(x, post, i as int, m as int, t)),
        )
    }

    fn tied_sum(
        &self,
        before: T,
        x: &Matrix<T>,
        Ghost(post): Ghost<&Matrix<T>>,
        masses: &Vec<Matrix<T>>,
        i: usize,
        k: usize,
        l: usize,
    ) -> (r: T)
        requires
            self.shaped(),
            x.has_dims(x.rows.len() as int, self.width()),
            self.are_masses(x, post, masses@),
            i < self.n_components,
            k < self.width(),
            l < self.width(),
        ensures
            r == self.tied_mass(
                before,
                x,
                post,
                i as int,
                k as int,
                l as int,
                x.rows.len() as int,
            ),
    {
        let mut acc = before;
        let mut t: usize = 0;
        while t < x.rows.len()
            invariant
                t <= x.rows.len(),
                self.shaped(),
                x.has_dims(x.rows.len() as int, self.width()),
                self.are_masses(x, post, masses@),
                i < self.n_components,
                k < self.width(),
                l < self.width(),
                acc == self.tied_mass(before, x, post, i as int, k as int, l as int, t as int),
            decreases x.rows.len() - t,
        {
            let f = |m: usize| -> (v: T)
                requires
                    self.shaped(),
                    x.has_dims(x.rows.len() as int, self.width()),
                    self.are_masses(x, post, masses@),
                    i < self.n_components,
                    m < self.n_mix,
                    k < self.width(),
                    l < self.width(),
                    t < x.rows.len(),
                ensures
                    v == self.scatter_term(
                        x,
                        post,
                        i as int,
                        m as int,
                        k as int,
                        l as int,
                        t as int,
                    ),
            {
                self.scatter_value(x, Ghost(post), masses, i, m, k, l, t)
            };
            acc = grow(
                acc,
                self.n_mix,
                f,
                Ghost(
                    |m: int|
                        self.scatter_term(x, post, i as int, m, k as int, l as int, t as int),
                ),
            );
            t += 1;
        }
        acc
    }

    /// The scatter statistic with all rows of `x` added.
    fn accumulate_covar(
        &self,
        before: &GmmCovars<T>,
        x: &Matrix<T>,
        Ghost(post): Ghost<&Matrix<T>>,
        masses: &Vec<Matrix<T>>,
    ) -> (after: GmmCovars<T>)
        requires
            self.shaped(),
            x.has_dims(x.rows.len() as int, self.width()),
            self.are_masses(x, post, masses@),
            before.fits(self.n_components as int, self.n_mix as int, self.width()),
        ensures
            after.fits(self.n_components as int, self.n_mix as int, self.width()),
            after.tag() == before.tag(),
            self.gains_scatter(before, x, post, &after),
    {
        let nc: usize = self.n_components;
        let nm: usize = self.n_mix;
        let nf: usize = self.nf();
        match before {
            GmmCovars::Spherical(b) => {
                let f = |i: usize, m: usize| -> (v: T)
                    requires
                        self.shaped(),
                        x.has_dims(x.rows.len() as int, self.width()),
                        self.are_masses(x, post, masses@),
                        b.has_dims(nc as int, nm as int),
                        nc == self.n_components,
                        nm == self.n_mix,
                        i < nc,
                        m < nm,
                    ensures
                        v == grown(
                            b.at(i as int, m as int),
                            x.rows.len() as int,
                            |t: int| self.square_term(x, post, i as int, m as int, t),
                        ),
                {
                    self.square_sum(b.get(i, m), x, Ghost(post), masses, i, m)
                };
                GmmCovars::Spherical(Matrix::tabulate(nc, nm, f))
            },
            GmmCovars::Diag(b) => {
                let f = |i: usize, m: usize, f: usize| -> (v: T)
                    requires
                        self.shaped(),
                        x.has_dims(x.rows.len() as int, self.width()),
                        self.are_masses(x, post, masses@),
                        b.has_dims(nc as int, nm as int, nf as int),
                        nc == self.n_components,
                        nm == self.n_mix,
                        nf == self.width(),
                        i < nc,
                        m < nm,
                        f < nf,
                    ensures
                        v == grown(
                            b.at(i as int, m as int, f as int),
                            x.rows.len() as int,
                            |t: int|
                                self.scatter_term(
                                    x,
                                    post,
                                    i as int,
                                    m as int,
                                    f as int,
                                    f as int,
                                    t,
                                ),
                        ),
                {
                    self.scatter_sum(b.get(i, m, f), x, Ghost(post), masses, i, m, f, f)
                };
                GmmCovars::Diag(Cube::tabulate(nc, nm, nf, f))
            },
            GmmCovars::Full(b) => {
                let mut stacks: Vec<Cube<T>> = Vec::new();
                let mut i: usize = 0;
                while i < nc
                    invariant
                        i <= nc,
                        nc == self.n_components,
                        nm == self.n_mix,
                        nf == self.width(),
                        self.shaped(),
                        x.has_dims(x.rows.len() as int, self.width()),
                        self.are_masses(x, post, masses@),
                        b.len() == nc,
                        forall|i: int|
                            0 <= i < nc ==> (#[trigger] b@[i]).has_dims(
                                nm as int,
                                nf as int,
                                nf as int,
                            ),
                        stacks.len() == i,
                        forall|p: int|
                            0 <= p < i ==> (#[trigger] stacks@[p]).has_dims(
                                nm as int,
                                nf as int,
                                nf as int,
                            ),
                        forall|p: int, m: int, k: int, l: int|
                            0 <= p < i && 0 <= m < nm && 0 <= k < nf && 0 <= l < nf
                                ==> #[trigger] stacks@[p].at(m, k, l) == grown(
                                b@[p].at(m, k, l),
                                x.rows.len() as int,
                                |t: int| self.scatter_term(x, post, p, m, k, l, t),
                            ),
                    decreases nc - i,
                {
                    let q = &b[i];
                    let f = |m: usize, k: usize, l: usize| -> (v: T)
                        requires
                            self.shaped(),
                            x.has_dims(x.rows.len() as int, self.width()),
                            self.are_masses(x, post, masses@),
                            q.has_dims(nm as int, nf as int, nf as int),
                            nm == self.n_mix,
                            nf == self.width(),
                            i < self.n_components,
                            m < nm,
                            k < nf,
                            l < nf,
                        ensures
                            v == grown(
                                q.at(m as int, k as int, l as int),
                                x.rows.len() as int,
                                |t: int|
                                    self.scatter_term(
                                        x,
                                        post,
                                        i as int,
                                        m as int,
                                        k as int,
                                        l as int,
                                        t,
                                    ),
                            ),
                    {
                        self.scatter_sum(q.get(m, k, l), x, Ghost(post), masses, i, m, k, l)
                    };
                    stacks.push(Cube::tabulate(nm, nf, nf, f));
                    i += 1;
                }
                GmmCovars::Full(stacks)
            },
            GmmCovars::Tied(b) => {
                let f = |i: usize, k: usize, l: usize| -> (v: T)
                    requires
                        self.shaped(),
                        x.has_dims(x.rows.len() as int, self.width()),
                        self.are_masses(x, post, masses@),
                        b.has_dims(nc as int, nf as int, nf as int),
                        nc == self.n_components,
                        nf == self.width(),
                        i < nc,
                        k < nf,
                        l < nf,
                    ensures
                        v == self.tied_mass(
                            b.at(i as int, k as int, l as int),
                            x,
                            post,
                            i as int,
                            k as int,
                            l as int,
                            x.rows.len() as int,
                        ),
                {
                    self.tied_sum(b.get(i, k, l), x, Ghost(post), masses, i, k, l)
                };
                GmmCovars::Tied(Cube::tabulate(nc, nf, nf, f))
            },
        }
    }

    /// The updated weight of mixture `m` of state `i`.
    pub open spec fn updated_weight(&self, stats: &GmmStats<T>, i: int, m: int) -> T {
        let a = self.weights_prior.s_minus(num(1));
        stats.post_mix_sum.at(i, m).s_plus(a).s_over(
            stats.post_sum@[i].s_plus(a.s_times(num(self.n_mix as int))),
        )
    }

    /// The sums of mixture `m` of state `i` are all zero.
    pub open spec fn no_sums(&self, stats: &GmmStats<T>, i: int, m: int) -> bool {
        forall|f: int| 0 <= f < self.width() ==> (#[trigger] stats.m_n.at(i, m, f)).s_same(num(0))
    }

    /// The updated mean of feature `f` in mixture `m` of state `i`, given the new
    /// weights: the divisor is 1 where the mixture has neither weight nor sums.
    pub open spec fn updated_mean(
        &self,
        stats: &GmmStats<T>,
        weights: &Matrix<T>,
        i: int,
        m: int,
        f: int,
    ) -> T {
        stats.m_n.at(i, m, f).s_over(
            if weights.at(i, m).s_same(num(0)) && self.no_sums(stats, i, m) {
                num(1)
            } else {
                stats.post_mix_sum.at(i, m).s_plus(self.means_weight)
            },
        )
    }

    /// The deviation of a new mean from its prior.
    pub open spec fn deviation(&self, means: &Cube<T>, i: int, m: int, f: int) -> T {
        means.at(i, m, f).s_minus(self.means_prior)
    }

    /// The prior terms of the tied update for the first `n` mixtures, on top of the
    /// covariance prior.
    pub open spec fn tied_prior(&self, means: &Cube<T>, i: int, k: int, l: int) -> T {
        grown(
            self.covar_prior(),
            self.n_mix as int,
            |m: int|
                self.means_weight.s_times(self.deviation(means, i, m, k)).s_times(
                    self.deviation(means, i, m, l),
                ),
        )
    }

    /// `store` holds the updated covariances, given the new means.
    pub open spec fn updated_covars(
        &self,
        stats: &GmmStats<T>,
        means: &Cube<T>,
        store: &GmmCovars<T>,
    ) -> bool {
        let nc = self.n_components as int;
        let nm = self.n_mix as int;
        let nf = self.width();
        let cp = self.covar_prior();
        let cw = self.covar_weight();
        let two = num::<T>(2);
        &&& store.fits(nc, nm, nf)
        &&& match (&stats.c_n, store) {
            (GmmCovars::Diag(c), GmmCovars::Diag(a)) => forall|i: int, m: int, f: int|
                0 <= i < nc && 0 <= m < nm && 0 <= f < nf ==> #[trigger] a.at(i, m, f)
                    == self.means_weight.s_times(self.deviation(means, i, m, f)).s_times(
                    self.deviation(means, i, m, f),
                ).s_plus(two.s_times(cw)).s_plus(c.at(i, m, f)).s_over(
                    stats.post_mix_sum.at(i, m).s_plus(num(1)).s_plus(
                        two.s_times(cp.s_plus(num(1))),
                    ),
                ),
            (GmmCovars::Spherical(c), GmmCovars::Spherical(a)) => forall|i: int, m: int|
                0 <= i < nc && 0 <= m < nm ==> #[trigger] a.at(i, m) == self.means_weight.s_times(
                    sigma(
                        nf,
                        |f: int|
                            self.deviation(means, i, m, f).s_times(
                                self.deviation(means, i, m, f),
                            ),
                    ),
                ).s_plus(two.s_times(cw)).s_plus(c.at(i, m)).s_over(
                    num::<T>(nf).s_times(stats.post_mix_sum.at(i, m).s_plus(num(1))).s_plus(
                        two.s_times(cp.s_plus(num(1))),
                    ),
                ),
            (GmmCovars::Full(c), GmmCovars::Full(a)) => forall|i: int, m: int, k: int, l: int|
                0 <= i < nc && 0 <= m < nm && 0 <= k < nf && 0 <= l < nf ==> #[trigger] a@[i].at(
                    m,
                    k,
                    l,
                ) == cp.s_plus(
                    self.means_weight.s_times(self.deviation(means, i, m, k)).s_times(
                        self.deviation(means, i, m, l),
                    ),
                ).s_plus(c@[i].at(m, k, l)).s_over(
                    stats.post_mix_sum.at(i, m).s_plus(num(1)).s_plus(cw).s_plus(num(nf)).s_plus(
                        num(1),
                    ),
                ),
            (GmmCovars::Tied(c), GmmCovars::Tied(a)) => forall|i: int, k: int, l: int|
                0 <= i < nc && 0 <= k < nf && 0 <= l < nf ==> #[trigger] a.at(i, k, l)
                    == self.tied_prior(means, i, k, l).s_plus(c.at(i, k, l)).s_over(
                    stats.post_sum@[i].s_plus(num(nm)).s_plus(cw).s_plus(num(nf)).s_plus(num(1)),
                ),
            _ => false,
        }
    }

    fn sums_are_zero(&self, stats: &GmmStats<T>, i: usize, m: usize) -> (r: bool)
        requires
            self.n_features is Some,
            self.takes(stats),
            i < self.n_components,
            m < self.n_mix,
        ensures
            r == self.no_sums(stats, i as int, m as int),
    {
        let nf: usize = self.nf();
        let mut f: usize = 0;
        while f < nf
            invariant
                f <= nf,
                nf == self.width(),
                self.takes(stats),
                i < self.n_components,
                m < self.n_mix,
                forall|g: int|
                    0 <= g < f ==> (#[trigger] stats.m_n.at(i as int, m as int, g)).s_same(num(0)),
            decreases nf - f,
        {
            if !stats.m_n.get(i, m, f).same(zero()) {
                assert(!stats.m_n.at(i as int, m as int, f as int).s_same(num(0)));
                return false;
            }
            f += 1;
        }
        true
    }

    fn update_weights(&self, stats: &GmmStats<T>) -> (r: Matrix<T>)
        requires
            self.takes(stats),
        ensures
            r.has_dims(self.n_components as int, self.n_mix as int),
            forall|i: int, m: int|
                0 <= i < self.n_components && 0 <= m < self.n_mix ==> #[trigger] r.at(i, m)
                    == self.updated_weight(stats, i, m),
    {
        let a = self.weights_prior.minus(one());
        let shift = a.times(count(self.n_mix));
        let f = |i: usize, m: usize| -> (v: T)
            requires
                self.takes(stats),
                i < self.n_components,
                m < self.n_mix,
            ensures
                v == stats.post_mix_sum.at(i as int, m as int).s_plus(a).s_over(
                    stats.post_sum@[i as int].s_plus(shift),
                ),
        {
            stats.post_mix_sum.get(i, m).plus(a).over(stats.post_sum[i].plus(shift))
        };
        Matrix::tabulate(self.n_components, self.n_mix, f)
    }

    fn update_means(&self, stats: &GmmStats<T>, weights: &Matrix<T>) -> (r: Cube<T>)
        requires
            self.n_features is Some,
            self.takes(stats),
            weights.has_dims(self.n_components as int, self.n_mix as int),
        ensures
            r.has_dims(self.n_components as int, self.n_mix as int, self.width()),
            forall|i: int, m: int, f: int|
                0 <= i < self.n_components && 0 <= m < self.n_mix && 0 <= f < self.width()
                    ==> #[trigger] r.at(i, m, f) == self.updated_mean(stats, weights, i, m, f),
    {
        let f = |i: usize, m: usize, f: usize| -> (v: T)
            requires
                self.n_features is Some,
                self.takes(stats),
                weights.has_dims(self.n_components as int, self.n_mix as int),
                i < self.n_components,
                m < self.n_mix,
                f < self.width(),
            ensures
                v == self.updated_mean(stats, weights, i as int, m as int, f as int),
        {
            let d = if weights.get(i, m).same(zero()) && self.sums_are_zero(stats, i, m) {
                one()
            } else {
                stats.post_mix_sum.get(i, m).plus(self.means_weight)
            };
            stats.m_n.get(i, m, f).over(d)
        };
        Cube::tabulate(self.n_components, self.n_mix, self.nf(), f)
    }

    fn dev(&self, means: &Cube<T>, i: usize, m: usize, f: usize) -> (r: T)
        requires
            means.has_dims(self.n_components as int, self.n_mix as int, self.width()),
            i < self.n_components,
            m < self.n_mix,
            f < self.width(),
        ensures
            r == self.deviation(means, i as int, m as int, f as int),
    {
        means.get(i, m, f).minus(self.means_prior)
    }

    fn squared_devs(&self, means: &Cube<T>, i: usize, m: usize) -> (r: T)
        requires
            self.n_features is Some,
            means.has_dims(self.n_components as int, self.n_mix as int, self.width()),
            i < self.n_components,
            m < self.n_mix,
        ensures
            r == sigma(
                self.width(),
                |f: int|
                    self.deviation(means, i as int, m as int, f).s_times(
                        self.deviation(means, i as int, m as int, f),
                    ),
            ),
    {
        let g = |f: usize| -> (v: T)
            requires
                means.has_dims(self.n_components as int, self.n_mix as int, self.width()),
                i < self.n_components,
                m < self.n_mix,
                f < self.width(),
            ensures
                v == self.deviation(means, i as int, m as int, f as int).s_times(
                    self.deviation(means, i as int, m as int, f as int),
                ),
        {
            let d = self.dev(means, i, m, f);
            d.times(d)
        };
        sum_of(
            self.nf(),
            g,
            Ghost(
                |f: int|
                    self.deviation(means, i as int, m as int, f).s_times(
                        self.deviation(means, i as int, m as int, f),
                    ),
            ),
        )
    }

    fn tied_start(&self, means: &Cube<T>, cp: T, i: usize, k: usize, l: usize) -> (r: T)
        requires
            means.has_dims(self.n_components as int, self.n_mix as int, self.width()),
            cp == self.covar_prior(),
            i < self.n_components,
            k < self.width(),
            l < self.width(),
        ensures
            r == self.tied_prior(means, i as int, k as int, l as int),
    {
        let g = |m: usize| -> (v: T)
            requires
                means.has_dims(self.n_components as int, self.n_mix as int, self.width()),
                i < self.n_components,
                m < self.n_mix,
                k < self.width(),
                l < self.width(),
            ensures
                v == self.means_weight.s_times(
                    self.deviation(means, i as int, m as int, k as int),
                ).s_times(self.deviation(means, i as int, m as int, l as int)),
        {
            self.means_weight.times(self.dev(means, i, m, k)).times(self.dev(means, i, m, l))
        };
        grow(
            cp,
            self.n_mix,
            g,
            Ghost(
                |m: int|
                    self.means_weight.s_times(
                        self.deviation(means, i as int, m, k as int),
                    ).s_times(self.deviation(means, i as int, m, l as int)),
            ),
        )
    }

    /// Covariance update of the M-step, given the new means.
    fn update_covars(&self, stats: &GmmStats<T>, means: &Cube<T>) -> (r: GmmCovars<T>)
        requires
            self.n_features is Some,
            self.takes(stats),
            means.has_dims(self.n_components as int, self.n_mix as int, self.width()),
        ensures
            self.updated_covars(stats, means, &r),
    {
        let nc: usize = self.n_components;
        let nm: usize = self.n_mix;
        let nf: usize = self.nf();
        let (cp, cw) = self.covar_priors();
        let two = T::of_int(2);
        match &stats.c_n {
            GmmCovars::Diag(c) => {
                let f = |i: usize, m: usize, f: usize| -> (v: T)
                    requires
                        self.takes(stats),
                        means.has_dims(self.n_components as int, self.n_mix as int, self.width()),
                        c.has_dims(self.n_components as int, self.n_mix as int, self.width()),
                        i < self.n_components,
                        m < self.n_mix,
                        f < self.width(),
                    ensures
                        v == self.means_weight.s_times(
                            self.deviation(means, i as int, m as int, f as int),
                        ).s_times(self.deviation(means, i as int, m as int, f as int)).s_plus(
                            two.s_times(cw),
                        ).s_plus(c.at(i as int, m as int, f as int)).s_over(
                            stats.post_mix_sum.at(i as int, m as int).s_plus(num(1)).s_plus(
                                two.s_times(cp.s_plus(num(1))),
                            ),
                        ),
                {
                    let d = self.dev(means, i, m, f);
                    self.means_weight.times(d).times(d).plus(two.times(cw)).plus(
                        c.get(i, m, f),
                    ).over(
                        stats.post_mix_sum.get(i, m).plus(one()).plus(two.times(cp.plus(one()))),
                    )
                };
                GmmCovars::Diag(Cube::tabulate(nc, nm, nf, f))
            },
            GmmCovars::Spherical(c) => {
                let f = |i: usize, m: usize| -> (v: T)
                    requires
                        self.n_features is Some,
                        nf == self.width(),
                        self.takes(stats),
                        means.has_dims(self.n_components as int, self.n_mix as int, self.width()),
                        c.has_dims(self.n_components as int, self.n_mix as int),
                        i < self.n_components,
                        m < self.n_mix,
                    ensures
                        v == self.means_weight.s_times(
                            sigma(
                                self.width(),
                                |f: int|
                                    self.deviation(means, i as int, m as int, f).s_times(
                                        self.deviation(means, i as int, m as int, f),
                                    ),
                            ),
                        ).s_plus(two.s_times(cw)).s_plus(c.at(i as int, m as int)).s_over(
                            num::<T>(self.width()).s_times(
                                stats.post_mix_sum.at(i as int, m as int).s_plus(num(1)),
                            ).s_plus(two.s_times(cp.s_plus(num(1)))),
                        ),
                {
                    self.means_weight.times(self.squared_devs(means, i, m)).plus(
                        two.times(cw),
                    ).plus(c.get(i, m)).over(
                        count::<T>(nf).times(stats.post_mix_sum.get(i, m).plus(one())).plus(
                            two.times(cp.plus(one())),
                        ),
                    )
                };
                GmmCovars::Spherical(Matrix::tabulate(nc, nm, f))
            },
            GmmCovars::Full(c) => {
                let mut stacks: Vec<Cube<T>> = Vec::new();
                let mut i: usize = 0;
                while i < nc
                    invariant
                        i <= nc,
                        nc == self.n_components,
                        nm == self.n_mix,
                        nf == self.width(),
                        self.takes(stats),
                        means.has_dims(self.n_components as int, self.n_mix as int, self.width()),
                        c.len() == nc,
                        forall|i: int|
                            0 <= i < nc ==> (#[trigger] c@[i]).has_dims(
                                nm as int,
                                nf as int,
                                nf as int,
                            ),
                        stacks.len() == i,
                        forall|p: int|
                            0 <= p < i ==> (#[trigger] stacks@[p]).has_dims(
                                nm as int,
                                nf as int,
                                nf as int,
                            ),
                        forall|p: int, m: int, k: int, l: int|
                            0 <= p < i && 0 <= m < nm && 0 <= k < nf && 0 <= l < nf
                                ==> #[trigger] stacks@[p].at(m, k, l) == cp.s_plus(
                                self.means_weight.s_times(self.deviation(means, p, m, k)).s_times(
                                    self.deviation(means, p, m, l),
                                ),
                            ).s_plus(c@[p].at(m, k, l)).s_over(
                                stats.post_mix_sum.at(p, m).s_plus(num(1)).s_plus(cw).s_plus(
                                    num(nf as int),
                                ).s_plus(num(1)),
                            ),
                    decreases nc - i,
                {
                    let q = &c[i];
                    let f = |m: usize, k: usize, l: usize| -> (v: T)
                        requires
                            self.takes(stats),
                            nf == self.width(),
                            means.has_dims(
                                self.n_components as int,
                                self.n_mix as int,
                                self.width(),
                            ),
                            q.has_dims(self.n_mix as int, self.width(), self.width()),
                            i < self.n_components,
                            m < self.n_mix,
                            k < self.width(),
                            l < self.width(),
                        ensures
                            v == cp.s_plus(
                                self.means_weight.s_times(
                                    self.deviation(means, i as int, m as int, k as int),
                                ).s_times(self.deviation(means, i as int, m as int, l as int)),
                            ).s_plus(q.at(m as int, k as int, l as int)).s_over(
                                stats.post_mix_sum.at(i as int, m as int).s_plus(num(1)).s_plus(
                                    cw,
                                ).s_plus(num(nf as int)).s_plus(num(1)),
                            ),
                    {
                        cp.plus(
                            self.means_weight.times(self.dev(means, i, m, k)).times(
                                self.dev(means, i, m, l),
                            ),
                        ).plus(q.get(m, k, l)).over(
                            stats.post_mix_sum.get(i, m).plus(one()).plus(cw).plus(count(nf)).plus(
                                one(),
                            ),
                        )
                    };
                    stacks.push(Cube::tabulate(nm, nf, nf, f));
                    i += 1;
                }
                GmmCovars::Full(stacks)
            },
            GmmCovars::Tied(c) => {
                let f = |i: usize, k: usize, l: usize| -> (v: T)
                    requires
                        self.takes(stats),
                        nf == self.width(),
                        nm == self.n_mix,
                        cp == self.covar_prior(),
                        means.has_dims(self.n_components as int, self.n_mix as int, self.width()),
                        c.has_dims(self.n_components as int, self.width(), self.width()),
                        i < self.n_components,
                        k < self.width(),
                        l < self.width(),
                    ensures
                        v == self.tied_prior(means, i as int, k as int, l as int).s_plus(
                            c.at(i as int, k as int, l as int),
                        ).s_over(
                            stats.post_sum@[i as int].s_plus(num(nm as int)).s_plus(cw).s_plus(
                                num(nf as int),
                            ).s_plus(num(1)),
                        ),
                {
                    self.tied_start(means, cp, i, k, l).plus(c.get(i, k, l)).over(
                        stats.post_sum[i].plus(count(nm)).plus(cw).plus(count(nf)).plus(one()),
                    )
                };
                GmmCovars::Tied(Cube::tabulate(nc, nf, nf, f))
            },
        }
    }
}

/// `n` draws from one multivariate normal, one after the other.
pub open spec fn gaussian_draws<T: Dense>(mean: Seq<T>, cov: Seq<Seq<T>>, s: RngView<T>, n: int) -> (
    RngView<T>,
    Option<Seq<Seq<T>>>,
)
    decreases n,
{
    if n <= 0 {
        (s, Some(Seq::empty()))
    } else {
        match gaussian_draws(mean, cov, s, n - 1) {
            (t, None) => (t, None),
            (t, Some(v)) => match gaussian_draw(mean, cov, t) {
                (w, None) => (w, None),
                (w, Some(x)) => (w, Some(v.push(x))),
            },
        }
    }
}

proof fn gaussians_stay_none<T: Dense>(mean: Seq<T>, cov: Seq<Seq<T>>, s: RngView<T>, i: int, n: int)
    requires
        0 <= i <= n,
        gaussian_draws(mean, cov, s, i).1 is None,
    ensures
        gaussian_draws(mean, cov, s, n).1 is None,
    decreases n,
{
    if n > i {
        gaussians_stay_none(mean, cov, s, i, n - 1);
    }
}

fn draw_gaussians<T: Dense>(mean: &Vec<T>, cov: &Matrix<T>, n: usize, rng: &mut NumpyRandomState<T>) -> (r:
    Option<Matrix<T>>)
    requires
        old(rng).wf(),
        cov.has_dims(mean.len() as int, mean.len() as int),
    ensures
        final(rng).wf(),
        match r {
            Some(m) => gaussian_draws(mean@, cov@, old(rng)@, n as int) == (final(rng)@, Some(m@))
                && m.has_dims(n as int, mean.len() as int),
            None => gaussian_draws(mean@, cov@, old(rng)@, n as int).1 is None,
        },
{
    let ghost start = rng@;
    let ghost mut seen: Seq<Seq<T>> = Seq::empty();
    let mut rows: Vec<Vec<T>> = Vec::new();
    let mut i: usize = 0;
    while i < n
        invariant
            i <= n,
            rng.wf(),
            start == old(rng)@,
            cov.has_dims(mean.len() as int, mean.len() as int),
            rows.len() == i,
            seen.len() == i,
            forall|p: int|
                0 <= p < i ==> (#[trigger] rows@[p])@ == seen[p] && rows@[p].len() == mean.len(),
            gaussian_draws(mean@, cov@, start, i as int) == (rng@, Some(seen)),
        decreases n - i,
    {
        proof {
            assert forall|k: int| 0 <= k < mean.len() implies (#[trigger] cov@[k]).len() == mean.len() by {
                assert(cov.rows@[k].len() == mean.len());
            }
        }
        match draw_gaussian(mean, cov, Ghost(cov@), rng) {
            Some(row) => {
                proof {
                    seen = seen.push(row@);
                }
                rows.push(row);
            },
            None => {
                proof {
                    gaussians_stay_none(mean@, cov@, start, i as int + 1, n as int);
                }
                return None;
            },
        }
        i += 1;
    }
    let m = Matrix { rows, ncols: mean.len() };
    proof {
        assert(m@ =~= seen);
    }
    Some(m)
}

/// `sub` holds the rows of `x` that are labelled `label`, in order.
pub open spec fn is_selection<T>(x: &Matrix<T>, labels: Seq<int>, label: int, sub: &Matrix<T>) -> bool {
    sub.has_dims(member_count(labels, label, x.rows.len() as int), x.ncols as int) && sub@
        == selected(x@, labels, label, x.rows.len() as int)
}

/// The rows among the first `n` that are labelled `label`.
pub open spec fn selected<T>(rows: Seq<Seq<T>>, labels: Seq<int>, label: int, n: int) -> Seq<Seq<T>>
    decreases n,
{
    if n <= 0 {
        Seq::empty()
    } else if labels[n - 1] == label {
        selected(rows, labels, label, n - 1).push(rows[n - 1])
    } else {
        selected(rows, labels, label, n - 1)
    }
}

fn select_rows<T: Scalar>(x: &Matrix<T>, labels: &Vec<usize>, label: usize) -> (sub: Matrix<T>)
    requires
        x.wf(),
        labels.len() == x.rows.len(),
    ensures
        is_selection(x, as_labels(labels@), label as int, &sub),
{
    let ghost ls = as_labels(labels@);
    let ghost mut seen: Seq<Seq<T>> = Seq::empty();
    let mut rows: Vec<Vec<T>> = Vec::new();
    let mut t: usize = 0;
    while t < x.rows.len()
        invariant
            t <= x.rows.len(),
            x.wf(),
            labels.len() == x.rows.len(),
            ls == as_labels(labels@),
            rows.len() == member_count(ls, label as int, t as int),
            seen == selected(x@, ls, label as int, t as int),
            seen.len() == rows.len(),
            forall|p: int|
                0 <= p < rows.len() ==> (#[trigger] rows@[p])@ == seen[p] && rows@[p].len() == x.ncols,
        decreases x.rows.len() - t,
    {
        if labels[t] == label {
            assert(x.rows[t as int].len() == x.ncols);
            let row = copied(&x.rows[t]);
            proof {
                seen = seen.push(row@);
            }
            rows.push(row);
        }
        t += 1;
    }
    let sub = Matrix { rows, ncols: x.ncols };
    proof {
        assert(sub@ =~= seen);
    }
    sub
}

/// The random state before the means of state `label` are initialised: each
/// earlier state with fewer rows than mixtures has drawn its means.
pub open spec fn state_before<T: Dense>(
    labels: Seq<int>,
    nm: int,
    centroid: Seq<T>,
    cov: Seq<Seq<T>>,
    s: RngView<T>,
    label: int,
) -> RngView<T>
    decreases label,
{
    if label <= 0 {
        s
    } else {
        let t = state_before(labels, nm, centroid, cov, s, label - 1);
        if member_count(labels, label - 1, labels.len() as int) >= nm {
            t
        } else {
            gaussian_draws(centroid, cov, t, nm).0
        }
    }
}

/// The initial means of state `label`: k-means centres of its rows, or draws about
/// the centroid where it has fewer rows than mixtures.
pub open spec fn starts_state<T: Dense>(
    x: &Matrix<T>,
    labels: Seq<int>,
    nm: int,
    seed: Option<u32>,
    centroid: Seq<T>,
    cov: Seq<Seq<T>>,
    label: int,
    means: Seq<Seq<T>>,
) -> bool {
    if member_count(labels, label, x.rows.len() as int) >= nm {
        exists|sub: Matrix<T>| #[trigger]
            is_selection(x, labels, label, &sub) && means == initial_means(&sub, nm, seed)
    } else {
        gaussian_draws(
            centroid,
            cov,
            state_before(labels, nm, centroid, cov, fresh_state(seed_or_zero(seed)), label),
            nm,
        ).1 == Some(means)
    }
}

/// Some state's draws give up.
pub open spec fn start_gives_up<T: Dense>(
    labels: Seq<int>,
    nm: int,
    seed: Option<u32>,
    centroid: Seq<T>,
    cov: Seq<Seq<T>>,
    nc: int,
) -> bool {
    exists|label: int|
        0 <= label < nc && #[trigger] member_count(labels, label, labels.len() as int) < nm
            && gaussian_draws(
            centroid,
            cov,
            state_before(labels, nm, centroid, cov, fresh_state(seed_or_zero(seed)), label),
            nm,
        ).1 is None
}

/// The mean of the centres.
pub open spec fn centroid_of<T: Scalar>(centers: Seq<Seq<T>>, nf: int) -> Seq<T> {
    Seq::new(
        nf as nat,
        |f: int|
            sigma(centers.len() as int, |c: int| centers[c][f]).s_over(num(centers.len() as int)),
    )
}

/// What initialisation works from: the centres of the states, the rows they take,
/// their centroid and the floored covariance.
pub struct GmmStart<T> {
    /// The labels of the rows.
    pub labels: Seq<int>,
    /// The centroid of the state centres.
    pub centroid: Seq<T>,
}

/// The labels and the centroid of the k-means centres of `x`.
pub open spec fn gmm_start<T: Dense>(x: &Matrix<T>, nc: int, seed: Option<u32>) -> GmmStart<T> {
    let centers = initial_means(x, nc, seed);
    GmmStart { labels: labelled(x, centers), centroid: centroid_of(centers, x.ncols as int) }
}

fn centroid<T: Scalar>(centers: &Matrix<T>) -> (r: Vec<T>)
    requires
        centers.wf(),
    ensures
        r@ == centroid_of(centers@, centers.ncols as int),
{
    let k: usize = centers.rows.len();
    let f = |j: usize| -> (v: T)
        requires
            centers.wf(),
            j < centers.ncols,
            k == centers.rows.len(),
        ensures
            v == sigma(k as int, |c: int| centers@[c][j as int]).s_over(num(k as int)),
    {
        let s = col_sum(centers, j);
        proof {
            crate::scalar::sigma_ext(
                k as int,
                |c: int| centers.at(c, j as int),
                |c: int| centers@[c][j as int],
            );
        }
        s.over(count(k))
    };
    let r = tabulate(centers.ncols, f);
    proof {
        assert(r@ =~= centroid_of(centers@, centers.ncols as int));
    }
    r
}

fn assign_labels<T: Scalar>(x: &Matrix<T>, centers: &Matrix<T>) -> (r: Vec<usize>)
    requires
        x.wf(),
        centers.has_dims(centers.rows.len() as int, x.ncols as int),
        centers.rows.len() >= 1,
    ensures
        r.len() == x.rows.len(),
        as_labels(r@) == labelled(x, centers@),
{
    let f = |t: usize| -> (c: usize)
        requires
            x.wf(),
            t < x.rows.len(),
            centers.has_dims(centers.rows.len() as int, x.ncols as int),
            centers.rows.len() >= 1,
        ensures
            c == nearest(x, centers@, t as int),
    {
        nearest_center(x, centers, t)
    };
    let r = tabulate(x.rows.len(), f);
    proof {
        assert(as_labels(r@) =~= labelled(x, centers@));
    }
    r
}

/// `store` holds the template `cv` in the shape of the type: tied and full repeat
/// it, diagonal takes its diagonal, spherical its mean.
pub open spec fn broadcasts<T: Scalar>(
    cv: &Matrix<T>,
    ct: CovarianceType,
    nc: int,
    nm: int,
    store: &GmmCovars<T>,
) -> bool {
    let nf = cv.ncols as int;
    &&& store.tag() == ct
    &&& store.fits(nc, nm, nf)
    &&& forall|i: int, m: int, k: int, l: int|
        0 <= i < nc && 0 <= m < nm && 0 <= k < nf && 0 <= l < nf ==> #[trigger] store.cov_at(
            i,
            m,
            k,
            l,
        ) == match ct {
            CovarianceType::Spherical => on_diagonal(grand_mean(cv), k, l),
            CovarianceType::Diag => on_diagonal(cv.at(k, k), k, l),
            CovarianceType::Tied => cv.at(k, l),
            CovarianceType::Full => cv.at(k, l),
        }
}

/// A stack of `n` copies of `cv`.
fn repeated<T: Scalar>(cv: &Matrix<T>, n: usize) -> (r: Cube<T>)
    requires
        cv.has_dims(cv.ncols as int, cv.ncols as int),
    ensures
        r.has_dims(n as int, cv.ncols as int, cv.ncols as int),
        forall|i: int, k: int, l: int|
            0 <= i < n && 0 <= k < cv.ncols && 0 <= l < cv.ncols ==> #[trigger] r.at(i, k, l)
                == cv.at(k, l),
{
    let nf: usize = cv.ncols;
    let f = |i: usize, k: usize, l: usize| -> (v: T)
        requires
            cv.has_dims(nf as int, nf as int),
            k < nf,
            l < nf,
        ensures
            v == cv.at(k as int, l as int),
    {
        cv.get(k, l)
    };
    Cube::tabulate(n, nf, nf, f)
}

/// Broadcast a single covariance template to every state and mixture.
fn broadcast_covar<T: Scalar>(cv: &Matrix<T>, ct: CovarianceType, nc: usize, nm: usize) -> (r:
    GmmCovars<T>)
    requires
        cv.has_dims(cv.ncols as int, cv.ncols as int),
    ensures
        broadcasts(cv, ct, nc as int, nm as int, &r),
{
    let nf: usize = cv.ncols;
    match ct {
        CovarianceType::Tied => GmmCovars::Tied(repeated(cv, nc)),
        CovarianceType::Full => {
            let mut stacks: Vec<Cube<T>> = Vec::new();
            let mut i: usize = 0;
            while i < nc
                invariant
                    i <= nc,
                    nf == cv.ncols,
                    cv.has_dims(nf as int, nf as int),
                    stacks.len() == i,
                    forall|p: int|
                        0 <= p < i ==> (#[trigger] stacks@[p]).has_dims(
                            nm as int,
                            nf as int,
                            nf as int,
                        ),
                    forall|p: int, m: int, k: int, l: int|
                        0 <= p < i && 0 <= m < nm && 0 <= k < nf && 0 <= l < nf
                            ==> #[trigger] stacks@[p].at(m, k, l) == cv.at(k, l),
                decreases nc - i,
            {
                stacks.push(repeated(cv, nm));
                i += 1;
            }
            GmmCovars::Full(stacks)
        },
        CovarianceType::Diag => {
            let f = |i: usize, m: usize, k: usize| -> (v: T)
                requires
                    cv.has_dims(nf as int, nf as int),
                    k < nf,
                ensures
                    v == cv.at(k as int, k as int),
            {
                cv.get(k, k)
            };
            GmmCovars::Diag(Cube::tabulate(nc, nm, nf, f))
        },
        CovarianceType::Spherical => GmmCovars::Spherical(
            Matrix::constant(nc, nm, mean_of_all(cv)),
        ),
    }
}

/// The initial means of all states; `None` if a draw gives up.
fn initial_mixture_means<T: Dense>(
    x: &Matrix<T>,
    labels: &Vec<usize>,
    nc: usize,
    nm: usize,
    seed: Option<u32>,
    center: &Vec<T>,
    cov: &Matrix<T>,
) -> (r: Option<Cube<T>>)
    requires
        x.wf(),
        labels.len() == x.rows.len(),
        nm >= 1,
        center.len() == x.ncols,
        cov.has_dims(x.ncols as int, x.ncols as int),
    ensures
        match r {
            Some(q) => {
                &&& !start_gives_up(as_labels(labels@), nm as int, seed, center@, cov@, nc as int)
                &&& q.has_dims(nc as int, nm as int, x.ncols as int)
                &&& forall|label: int|
                    0 <= label < nc ==> starts_state(
                        x,
                        as_labels(labels@),
                        nm as int,
                        seed,
                        center@,
                        cov@,
                        label,
                        (#[trigger] q.items@[label])@,
                    )
            },
            None => start_gives_up(
                as_labels(labels@),
                nm as int,
                seed,
                center@,
                cov@,
                nc as int,
            ),
        },
{
    let ghost ls = as_labels(labels@);
    let ghost s0 = fresh_state::<T>(seed_or_zero(seed));
    let mut rng = seeded_state(seed);
    let mut items: Vec<Matrix<T>> = Vec::new();
    let mut label: usize = 0;
    while label < nc
        invariant
            label <= nc,
            nm >= 1,
            x.wf(),
            labels.len() == x.rows.len(),
            ls == as_labels(labels@),
            ls.len() == x.rows.len(),
            center.len() == x.ncols,
            cov.has_dims(x.ncols as int, x.ncols as int),
            rng.wf(),
            s0 == fresh_state::<T>(seed_or_zero(seed)),
            rng@ == state_before(ls, nm as int, center@, cov@, s0, label as int),
            items.len() == label,
            forall|p: int|
                0 <= p < label ==> (#[trigger] items@[p]).has_dims(nm as int, x.ncols as int),
            forall|p: int|
                0 <= p < label ==> starts_state(
                    x,
                    ls,
                    nm as int,
                    seed,
                    center@,
                    cov@,
                    p,
                    (#[trigger] items@[p])@,
                ),
            forall|p: int|
                0 <= p < label && #[trigger] member_count(ls, p, ls.len() as int) < nm
                    ==> gaussian_draws(
                    center@,
                    cov@,
                    state_before(ls, nm as int, center@, cov@, s0, p),
                    nm as int,
                ).1 is Some,
        decreases nc - label,
    {
        let sub = select_rows(x, labels, label);
        assert(is_selection(x, ls, label as int, &sub));
        if sub.rows.len() >= nm {
            let centers = kmeans(&sub, nm, 10, 300, seed);
            assert(starts_state(
                x,
                ls,
                nm as int,
                seed,
                center@,
                cov@,
                label as int,
                centers@,
            ));
            items.push(centers);
        } else {
            match draw_gaussians(center, cov, nm, &mut rng) {
                Some(m) => {
                    assert(starts_state(
                        x,
                        ls,
                        nm as int,
                        seed,
                        center@,
                        cov@,
                        label as int,
                        m@,
                    ));
                    items.push(m);
                },
                None => {
                    assert(member_count(ls, label as int, ls.len() as int) < nm);
                    return None;
                },
            }
        }
        label += 1;
    }
    let q = Cube { items, nrows: nm, ncols: x.ncols };
    Some(q)
}

/// The free scalars of the covariances.
pub open spec fn mix_covar_scalars(t: CovarianceType, nc: int, nm: int, nf: int) -> int {
    match t {
        CovarianceType::Spherical => nc * nm,
        CovarianceType::Diag => (nc * nm) * nf,
        CovarianceType::Full => (nc * nm) * triangle(nf),
        CovarianceType::Tied => nc * triangle(nf),
    }
}

/// `a * b * c`, clamped to the largest machine integer.
fn clamped_triple(a: usize, b: usize, c: usize) -> (r: usize)
    ensures
        r == saturated((a * b) * c),
        0 <= (a * b) * c,
        0 <= a * b,
{
    assert(0 <= a * b) by (nonlinear_arith);
    proof {
        saturated_factor(a * b, c as int);
    }
    clamped_product(clamped_product(a, b), c)
}

/// `a` times the clamped `t`, clamped.
fn clamped_by_triangle(a: usize, nf: usize, Ghost(n): Ghost<int>) -> (r: usize)
    requires
        a == saturated(n),
        0 <= n,
    ensures
        r == saturated(n * triangle(nf as int)),
        0 <= n * triangle(nf as int),
{
    let tri: usize = clamped_triangle(nf);
    proof {
        let q = triangle(nf as int);
        saturated_factor(n, q);
        saturated_factor(q, a as int);
        assert(saturated(q) * a == a * saturated(q)) by (nonlinear_arith);
        assert(q * a == a * q) by (nonlinear_arith);
    }
    clamped_product(a, tri)
}

impl<T: Dense> EmissionModel<T> for GmmEm<T> {
    type Inference = Em<T>;

    type Stats = GmmStats<T>;

    open spec fn wf(&self) -> bool {
        self.ok()
    }

    open spec fn states(&self) -> int {
        self.n_components as int
    }

    open spec fn featured(&self) -> bool {
        self.n_features is Some
    }

    open spec fn features(&self) -> int {
        self.width()
    }

    open spec fn columns(&self) -> int {
        self.width()
    }

    open spec fn fits(&self) -> bool {
        self.shaped()
    }

    open spec fn valid(&self, nc: int) -> bool {
        let nm = self.n_mix as int;
        &&& self.n_features is Some
        &&& self.weights matches Some(w) && w.dims() == (nc, nm) && rows_sum_to_one(&w)
        &&& self.means matches Some(m) && m.has_dims(nc, nm, self.width())
        &&& self.covars matches Some(c) && c.fits(nc, nm, self.width())
    }

    open spec fn readable(&self, x: &Matrix<T>) -> bool {
        true
    }

    open spec fn initable(&self, x: &Matrix<T>, init: Set<Param>) -> bool {
        x.rows.len() >= 1
    }

    open spec fn scannable(&self, x: &Matrix<T>) -> bool {
        true
    }

    open spec fn matched(&self, x: &Matrix<T>) -> bool {
        self.n_features == Some(x.ncols)
    }

    open spec fn refused_rel(&self, x: &Matrix<T>, after: &Self) -> bool {
        *after == *self
    }

    open spec fn accepts(&self, x: &Matrix<T>) -> bool {
        self.n_features matches Some(nf) ==> nf == x.ncols
    }

    open spec fn refusal(&self, x: &Matrix<T>, e: HmmError) -> bool {
        e matches HmmError::DimensionMismatch(m) && m@ == columns_message(
            x.ncols as nat,
            self.width() as nat,
        )
    }

    open spec fn flaw(&self, nc: int, e: HmmError) -> bool {
        if self.n_features is None || self.weights is None {
            e == HmmError::NotFitted
        } else if self.weights->0.dims() != (nc, self.n_mix as int) {
            e matches HmmError::DimensionMismatch(m) && m@
                == "weights_ must have shape (n_components, n_mix)"@
        } else if !rows_sum_to_one(&self.weights->0) {
            e matches HmmError::InvalidParameter(m) && m@ == "weights_ rows must sum to 1"@
        } else if self.means is None {
            e == HmmError::NotFitted
        } else if !self.means->0.has_dims(
            nc,
            self.n_mix as int,
            self.width(),
        ) {
            e matches HmmError::DimensionMismatch(m) && m@
                == "means_ must have shape (n_components, n_mix, n_features)"@
        } else if self.covars is None {
            e == HmmError::NotFitted
        } else {
            e matches HmmError::DimensionMismatch(m) && m@
                == "GMM covars have the wrong shape for the covariance type"@
        }
    }

    open spec fn init_flaw(&self, e: HmmError) -> bool {
        is_gave_up(e)
    }

    open spec fn mstep_flaw(&self, e: HmmError) -> bool {
        false
    }

    open spec fn observable(&self, x: &Matrix<T>) -> bool {
        x.ncols == self.width()
    }

    open spec fn owned_params() -> Seq<Param> {
        seq![Param::Means, Param::Covars, Param::Weights]
    }

    open spec fn scalars(&self, nc: int, params: ParamSet) -> int {
        let nm = self.n_mix as int;
        let nf = self.width();
        (if params.members().contains(Param::Means) {
            (nc * nm) * nf
        } else {
            0
        }) + (if params.members().contains(Param::Weights) {
            nc * (nm - 1)
        } else {
            0
        }) + (if params.members().contains(Param::Covars) {
            mix_covar_scalars(self.covariance_type, nc, nm, nf)
        } else {
            0
        })
    }

    open spec fn set_rel(&self, x: &Matrix<T>, after: &Self) -> bool {
        *after == (Self { n_features: Some(x.ncols), ..*self })
    }

    open spec fn init_ok(&self, x: &Matrix<T>, init: ParamSet, seed: Option<u32>) -> bool {
        let start = gmm_start(x, self.n_components as int, seed);
        exists|cv: Matrix<T>| #[trigger]
            floored_covariance(x, self.min_covar, &cv) && !start_gives_up(
                start.labels,
                self.n_mix as int,
                seed,
                start.centroid,
                cv@,
                self.n_components as int,
            )
    }

    open spec fn init_rel(
        &self,
        x: &Matrix<T>,
        init: ParamSet,
        seed: Option<u32>,
        after: &Self,
    ) -> bool {
        let nc = self.n_components as int;
        let nm = self.n_mix as int;
        let start = gmm_start(x, nc, seed);
        &&& *after == (Self {
            means: after.means,
            weights: after.weights,
            covars: after.covars,
            means_preset: true,
            weights_preset: true,
            covars_preset: true,
            ..*self
        })
        &&& if init.members().contains(Param::Weights) || !self.weights_preset {
            &&& after.weights matches Some(w)
            &&& w.has_dims(nc, nm)
            &&& forall|i: int, m: int|
                0 <= i < nc && 0 <= m < nm ==> #[trigger] w.at(i, m) == num::<T>(1).s_over(num(nm))
        } else {
            after.weights == self.weights
        }
        &&& if init.members().contains(Param::Means) || !self.means_preset {
            &&& after.means matches Some(q)
            &&& q.has_dims(nc, nm, self.width())
            &&& exists|cv: Matrix<T>| #[trigger]
                floored_covariance(x, self.min_covar, &cv) && forall|label: int|
                    0 <= label < nc ==> starts_state(
                        x,
                        start.labels,
                        nm,
                        seed,
                        start.centroid,
                        cv@,
                        label,
                        (#[trigger] q.items@[label])@,
                    )
        } else {
            after.means == self.means
        }
        &&& if init.members().contains(Param::Covars) || !self.covars_preset {
            &&& after.covars matches Some(s)
            &&& exists|cv: Matrix<T>| #[trigger]
                floored_covariance(x, self.min_covar, &cv) && broadcasts(
                    &cv,
                    self.covariance_type,
                    nc,
                    nm,
                    &s,
                )
        } else {
            after.covars == self.covars
        }
    }

    open spec fn log_like(&self, x: &Matrix<T>, t: int, c: int) -> T {
        log_sum_exp(self.weighted_row(x, c, t))
    }

    open spec fn like(&self, x: &Matrix<T>, t: int, c: int) -> T {
        log_sum_exp(self.weighted_row(x, c, t)).s_exp()
    }

    open spec fn fit_log_like(&self, x: &Matrix<T>, t: int, c: int) -> T {
        log_sum_exp(self.weighted_row(x, c, t))
    }

    open spec fn fit_like(&self, x: &Matrix<T>, t: int, c: int) -> T {
        log_sum_exp(self.weighted_row(x, c, t)).s_exp()
    }

    open spec fn stats_fit(&self, stats: &GmmStats<T>) -> bool {
        self.takes(stats)
    }

    /// The sums of the means start at the weighted prior, everything else at zero.
    open spec fn zero_stats(&self, stats: &GmmStats<T>) -> bool {
        let nc = self.n_components as int;
        let nm = self.n_mix as int;
        let nf = self.width();
        &&& self.takes(stats)
        &&& forall|i: int, m: int|
            0 <= i < nc && 0 <= m < nm ==> #[trigger] stats.post_mix_sum.at(i, m) == num::<T>(0)
        &&& forall|i: int| 0 <= i < nc ==> #[trigger] stats.post_sum@[i] == num::<T>(0)
        &&& forall|i: int, m: int, f: int|
            0 <= i < nc && 0 <= m < nm && 0 <= f < nf ==> #[trigger] stats.m_n.at(i, m, f)
                == self.means_weight.s_times(self.means_prior)
        &&& forall|i: int, m: int, k: int, l: int|
            0 <= i < nc && 0 <= m < nm && 0 <= k < nf && 0 <= l < nf ==> #[trigger] stats.c_n.cov_at(
                i,
                m,
                k,
                l,
            ) == num::<T>(0)
    }

    open spec fn accumulate_rel(
        &self,
        before: &GmmStats<T>,
        x: &Matrix<T>,
        post: &Matrix<T>,
        params: ParamSet,
        after: &GmmStats<T>,
    ) -> bool {
        let nc = self.n_components as int;
        let nm = self.n_mix as int;
        let nf = self.width();
        let ns = x.rows.len() as int;
        &&& forall|i: int, m: int|
            0 <= i < nc && 0 <= m < nm ==> #[trigger] after.post_mix_sum.at(i, m) == grown(
                before.post_mix_sum.at(i, m),
                ns,
                |t: int| self.mix_mass(x, post, i, t, m),
            )
        &&& forall|i: int|
            0 <= i < nc ==> #[trigger] after.post_sum@[i] == grown(
                before.post_sum@[i],
                ns,
                |t: int| post.at(t, i),
            )
        &&& if params.members().contains(Param::Means) {
            forall|i: int, m: int, f: int|
                0 <= i < nc && 0 <= m < nm && 0 <= f < nf ==> #[trigger] after.m_n.at(i, m, f)
                    == grown(
                    before.m_n.at(i, m, f),
                    ns,
                    |t: int| self.mix_mass(x, post, i, t, m).s_times(x.at(t, f)),
                )
        } else {
            after.m_n == before.m_n
        }
        &&& if params.members().contains(Param::Covars) {
            self.gains_scatter(&before.c_n, x, post, &after.c_n)
        } else {
            after.c_n == before.c_n
        }
    }

    open spec fn mstep_ok(&self, stats: &GmmStats<T>, params: ParamSet) -> bool {
        true
    }

    /// The weights are updated first, the means read the new weights, and the
    /// covariances the new means.
    open spec fn mstep_rel(&self, stats: &GmmStats<T>, params: ParamSet, after: &Self) -> bool {
        let nc = self.n_components as int;
        let nm = self.n_mix as int;
        &&& *after == (Self {
            means: after.means,
            weights: after.weights,
            covars: after.covars,
            ..*self
        })
        &&& after.weights is Some && after.means is Some
        &&& if params.members().contains(Param::Weights) {
            forall|i: int, m: int|
                0 <= i < nc && 0 <= m < nm ==> (#[trigger] after.weights->0.at(i, m))
                    == self.updated_weight(stats, i, m)
        } else {
            after.weights == self.weights
        }
        &&& if params.members().contains(Param::Means) {
            forall|i: int, m: int, f: int|
                0 <= i < nc && 0 <= m < nm && 0 <= f < self.width() ==> (
                #[trigger] after.means->0.at(i, m, f)) == self.updated_mean(
                    stats,
                    &after.weights->0,
                    i,
                    m,
                    f,
                )
        } else {
            after.means == self.means
        }
        &&& if params.members().contains(Param::Covars) {
            after.covars matches Some(s) && self.updated_covars(stats, &after.means->0, &s)
        } else {
            after.covars == self.covars
        }
    }

    open spec fn samplable(&self) -> bool {
        true
    }

    /// A mixture is picked by its weight, then its Gaussian is drawn from.
    open spec fn draw(&self, state: int, s: RngView<T>) -> (RngView<T>, Option<Seq<T>>) {
        let g = picked(self.weights->0.row_view(state), sample_of::<T>(s.mt));
        gaussian_draw(
            self.means->0.items@[state].row_view(g),
            self.covars->0.mix_covariance(state, g, self.width()),
            s.sampled(),
        )
    }

    open spec fn contribution(&self) -> Option<T> {
        Some(num(0))
    }

    open spec fn begin_rel(&self, after: &Self) -> bool {
        *after == *self
    }

    proof fn slices_observable(&self, x: &Matrix<T>, begin: int, end: int, sub: &Matrix<T>) {
    }

    proof fn likelihoods_of_row(&self, x: &Matrix<T>, t: int, y: &Matrix<T>, u: int, c: int) {
        let means = self.means->0.items@[c];
        assert forall|m: int| 0 <= m < self.n_mix implies #[trigger] self.weighted_at(x, c, t, m)
            == self.weighted_at(y, c, u, m) by {
            match self.covars->0 {
                GmmCovars::Spherical(q) => {
                    diag_density_of_row(x, t, y, u, &means, |f: int| q.at(c, m), m);
                },
                GmmCovars::Diag(q) => {
                    diag_density_of_row(x, t, y, u, &means, |f: int| q.at(c, m, f), m);
                },
                GmmCovars::Full(q) => {
                    full_density_of_row(x, t, y, u, &means, q@[c].items@[m]@, m);
                },
                GmmCovars::Tied(q) => {
                    full_density_of_row(x, t, y, u, &means, q.items@[c]@, m);
                },
            }
        }
        assert(self.weighted_row(x, c, t) =~= self.weighted_row(y, c, u));
    }

    proof fn fits_featured(&self) {
    }

    fn emission_params() -> (r: Vec<Param>) {
        let mut v: Vec<Param> = Vec::new();
        v.push(Param::Means);
        v.push(Param::Covars);
        v.push(Param::Weights);
        proof {
            assert(v@ =~= seq![Param::Means, Param::Covars, Param::Weights]);
        }
        v
    }

    fn n_features(&self) -> (n: usize) {
        self.nf()
    }

    fn check_and_set_n_features(&mut self, x: &Matrix<T>) -> (r: Result<(), HmmError>) {
        match confirm_features(self.n_features, x) {
            Ok(nf) => {
                self.n_features = Some(nf);
                Ok(())
            },
            Err(e) => Err(e),
        }
    }

    /// Two levels of k-means: the states' centres, then the mixtures within each.
    fn init(&mut self, x: &Matrix<T>, init: ParamSet, seed: Option<u32>) -> (r: Result<
        (),
        HmmError,
    >) {
        let nc: usize = self.n_components;
        let nm: usize = self.n_mix;
        let cv = covariance_with_floor(x, self.min_covar);
        let main_centers = kmeans(x, nc, 10, 300, seed);
        let labels = assign_labels(x, &main_centers);
        let center = centroid(&main_centers);
        let ghost start = gmm_start(x, nc as int, seed);
        assert(as_labels(labels@) == start.labels);
        assert(center@ == start.centroid);
        assert(floored_covariance(x, old(self).min_covar, &cv));
        let means = match initial_mixture_means(x, &labels, nc, nm, seed, &center, &cv) {
            Some(q) => q,
            None => {
                proof {
                    assert forall|other: Matrix<T>| #[trigger]
                        floored_covariance(x, old(self).min_covar, &other) implies start_gives_up(
                        start.labels,
                        nm as int,
                        seed,
                        start.centroid,
                        other@,
                        nc as int,
                    ) by {
                        same_covariance(x, old(self).min_covar, &cv, &other);
                    }
                }
                return Err(gave_up());
            },
        };
        if init.contains(Param::Weights) || !self.weights_preset {
            self.weights = Some(Matrix::constant(nc, nm, one::<T>().over(count(nm))));
        }
        if init.contains(Param::Means) || !self.means_preset {
            self.means = Some(means);
        }
        if init.contains(Param::Covars) || !self.covars_preset {
            self.covars = Some(broadcast_covar(&cv, self.covariance_type, nc, nm));
        }
        self.weights_preset = true;
        self.means_preset = true;
        self.covars_preset = true;
        Ok(())
    }

    fn check(&self, n_components: usize) -> (r: Result<(), HmmError>) {
        let nm: usize = self.n_mix;
        let nf: usize = match self.n_features {
            Some(nf) => nf,
            None => {
                return Err(HmmError::NotFitted);
            },
        };
        match &self.weights {
            None => {
                return Err(HmmError::NotFitted);
            },
            Some(w) => {
                if w.rows.len() != n_components || w.ncols != nm {
                    return Err(
                        HmmError::DimensionMismatch(
                            "weights_ must have shape (n_components, n_mix)".to_owned(),
                        ),
                    );
                }
                let mut i: usize = 0;
                while i < w.rows.len()
                    invariant
                        i <= w.rows.len(),
                        w.wf(),
                        w.dims() == (n_components as int, self.n_mix as int),
                        self.n_features is Some,
                        self.weights == Some(*w),
                        forall|k: int| 0 <= k < i ==> !off_one(#[trigger] row_total(w, k)),
                    decreases w.rows.len() - i,
                {
                    if is_off_one(row_sum(w, i)) {
                        assert(off_one(row_total(w, i as int)));
                        return Err(
                            HmmError::InvalidParameter("weights_ rows must sum to 1".to_owned()),
                        );
                    }
                    i += 1;
                }
            },
        }
        match &self.means {
            None => {
                return Err(HmmError::NotFitted);
            },
            Some(m) => {
                if m.items.len() != n_components || m.nrows != nm || m.ncols != nf {
                    return Err(
                        HmmError::DimensionMismatch(
                            "means_ must have shape (n_components, n_mix, n_features)".to_owned(),
                        ),
                    );
                }
            },
        }
        match &self.covars {
            None => Err(HmmError::NotFitted),
            Some(c) => {
                if !c.has_shape(n_components, nm, nf) {
                    return Err(
                        HmmError::DimensionMismatch(
                            "GMM covars have the wrong shape for the covariance type".to_owned(),
                        ),
                    );
                }
                Ok(())
            },
        }
    }

    fn n_fit_scalars(&self, n_components: usize, params: ParamSet) -> (n: usize) {
        let nf: usize = self.nf();
        let nm: usize = self.n_mix;
        let a: usize = clamped_triple(n_components, nm, nf);
        let pair: usize = clamped_product(n_components, nm);
        let full: usize = clamped_by_triangle(pair, nf, Ghost(n_components * nm));
        let tied: usize = clamped_by_triangle(n_components, nf, Ghost(n_components as int));
        let mut n: usize = 0;
        if params.contains(Param::Means) {
            n = a;
        }
        if params.contains(Param::Weights) {
            assert(0 <= n_components * (nm - 1)) by (nonlinear_arith)
                requires
                    nm >= 1,
            ;
            n = clamped_sum(n, clamped_product(n_components, nm - 1));
        }
        if params.contains(Param::Covars) {
            let k: usize = match self.covariance_type {
                CovarianceType::Spherical => pair,
                CovarianceType::Diag => a,
                CovarianceType::Full => full,
                CovarianceType::Tied => tied,
            };
            n = clamped_sum(n, k);
        }
        n
    }

    fn log_likelihood(&self, x: &Matrix<T>) -> (r: Matrix<T>) {
        self.mixture_log_likelihood(x)
    }

    fn likelihood(&self, x: &Matrix<T>) -> (r: Matrix<T>) {
        exp_matrix(&self.mixture_log_likelihood(x))
    }

    fn fit_log_likelihood(&self, x: &Matrix<T>) -> (r: Matrix<T>) {
        self.mixture_log_likelihood(x)
    }

    fn fit_likelihood(&self, x: &Matrix<T>) -> (r: Matrix<T>) {
        exp_matrix(&self.mixture_log_likelihood(x))
    }

    fn init_stats(&self) -> (r: GmmStats<T>) {
        let nc: usize = self.n_components;
        let nm: usize = self.n_mix;
        let nf: usize = self.nf();
        let seed = self.means_weight.times(self.means_prior);
        let f = |i: usize, m: usize, f: usize| -> (v: T)
            ensures
                v == seed,
        {
            seed
        };
        let m_n = Cube::tabulate(nc, nm, nf, f);
        let zeros = Matrix::constant(nf, nf, zero::<T>());
        let c_n = match self.covariance_type {
            CovarianceType::Spherical => GmmCovars::Spherical(Matrix::constant(nc, nm, zero())),
            CovarianceType::Diag => {
                let g = |i: usize, m: usize, f: usize| -> (v: T)
                    ensures
                        v == num::<T>(0),
                {
                    zero()
                };
                GmmCovars::Diag(Cube::tabulate(nc, nm, nf, g))
            },
            CovarianceType::Full => broadcast_covar(&zeros, CovarianceType::Full, nc, nm),
            CovarianceType::Tied => broadcast_covar(&zeros, CovarianceType::Tied, nc, nm),
        };
        GmmStats {
            post_mix_sum: Matrix::constant(nc, nm, zero()),
            post_sum: filled(nc, zero()),
            m_n,
            c_n,
        }
    }

    fn accumulate(
        &self,
        stats: &mut GmmStats<T>,
        x: &Matrix<T>,
        posteriors: &Matrix<T>,
        params: ParamSet,
    ) {
        let nc: usize = self.n_components;
        let nm: usize = self.n_mix;
        let nf: usize = self.nf();
        let ns: usize = x.rows.len();
        let mut masses: Vec<Matrix<T>> = Vec::new();
        let mut i: usize = 0;
        while i < nc
            invariant
                i <= nc,
                nc == self.n_components,
                nm == self.n_mix,
                ns == x.rows.len(),
                self.shaped(),
                x.has_dims(ns as int, self.width()),
                posteriors.has_dims(ns as int, nc as int),
                masses.len() == i,
                forall|p: int|
                    0 <= p < i ==> (#[trigger] masses@[p]).has_dims(ns as int, nm as int),
                forall|p: int, t: int, m: int|
                    0 <= p < i && 0 <= t < ns && 0 <= m < nm ==> #[trigger] masses@[p].at(t, m)
                        == self.mix_mass(x, posteriors, p, t, m),
            decreases nc - i,
        {
            masses.push(self.mix_masses(x, posteriors, i));
            i += 1;
        }
        assert(self.are_masses(x, posteriors, masses@));
        let mixed = self.grow_mix(&stats.post_mix_sum, x, Ghost(posteriors), &masses);
        let occupied = self.grow_post(&stats.post_sum, x, posteriors);
        if params.contains(Param::Means) {
            let sums = self.grow_sums(&stats.m_n, x, Ghost(posteriors), &masses);
            stats.m_n = sums;
        }
        if params.contains(Param::Covars) {
            let scatter = self.accumulate_covar(&stats.c_n, x, Ghost(posteriors), &masses);
            stats.c_n = scatter;
        }
        stats.post_mix_sum = mixed;
        stats.post_sum = occupied;
    }

    fn mstep(&mut self, stats: &GmmStats<T>, params: ParamSet) -> (r: Result<(), HmmError>) {
        let weighed = if params.contains(Param::Weights) {
            Some(self.update_weights(stats))
        } else {
            None
        };
        let moved = if params.contains(Param::Means) {
            let weights = match &weighed {
                Some(w) => w,
                None => self.weights(),
            };
            Some(self.update_means(stats, weights))
        } else {
            None
        };
        let spread = if params.contains(Param::Covars) {
            let means = match &moved {
                Some(m) => m,
                None => self.means(),
            };
            Some(self.update_covars(stats, means))
        } else {
            None
        };
        if weighed.is_some() {
            self.weights = weighed;
        }
        if moved.is_some() {
            self.means = moved;
        }
        if spread.is_some() {
            self.covars = spread;
        }
        Ok(())
    }

    fn sample_state(&self, state: usize, rng: &mut NumpyRandomState<T>) -> (r: Option<Vec<T>>) {
        let nf: usize = self.nf();
        let w = self.weights();
        assert(w.rows[state as int].len() == w.ncols);
        let g: usize = rng.choice_weighted(&w.rows[state]);
        let store = self.covars();
        let cov = store.mix_cov(
            state,
            g,
            nf,
            Ghost(self.n_components as int),
            Ghost(self.n_mix as int),
        );
        let means = self.means();
        assert(means.items@[state as int].has_dims(self.n_mix as int, nf as int));
        assert(means.items@[state as int].rows[g as int].len() == nf);
        draw_gaussian(
            &means.items[state].rows[g],
            &cov,
            Ghost(store.mix_covariance(state as int, g as int, nf as int)),
            rng,
        )
    }

    fn lower_bound_contribution(&self) -> (r: Option<T>) {
        Some(zero())
    }

    fn estep_begin(&mut self) {
    }
}

proof fn same_covariance<T: Scalar>(x: &Matrix<T>, floor: T, a: &Matrix<T>, b: &Matrix<T>)
    requires
        floored_covariance(x, floor, a),
        floored_covariance(x, floor, b),
    ensures
        a@ == b@,
{
    assert forall|i: int| 0 <= i < a.rows.len() implies #[trigger] a@[i] == b@[i] by {
        assert(a.rows@[i].len() == x.ncols);
        assert(b.rows@[i].len() == x.ncols);
        assert forall|j: int| 0 <= j < x.ncols implies #[trigger] a@[i][j] == b@[i][j] by {
            assert(a.at(i, j) == b.at(i, j));
        }
        assert(a@[i] =~= b@[i]);
    }
    assert(a@ =~= b@);
}

impl<T: Dense> GmmEm<T> {
    fn mixture_log_likelihood(&self, x: &Matrix<T>) -> (r: Matrix<T>)
        requires
            self.shaped(),
            x.has_dims(x.rows.len() as int, self.width()),
        ensures
            r.has_dims(x.rows.len() as int, self.n_components as int),
            forall|t: int, c: int|
                0 <= t < x.rows.len() && 0 <= c < self.n_components ==> #[trigger] r.at(t, c)
                    == log_sum_exp(self.weighted_row(x, c, t)),
    {
        let nc: usize = self.n_components;
        let nm: usize = self.n_mix;
        let ns: usize = x.rows.len();
        let mut cols: Vec<Vec<T>> = Vec::new();
        let mut i: usize = 0;
        while i < nc
            invariant
                i <= nc,
                nc == self.n_components,
                nm == self.n_mix,
                ns == x.rows.len(),
                self.shaped(),
                x.has_dims(ns as int, self.width()),
                cols.len() == i,
                forall|k: int| 0 <= k < i ==> (#[trigger] cols@[k])@.len() == ns,
                forall|k: int, t: int|
                    0 <= k < i && 0 <= t < ns ==> #[trigger] cols@[k]@[t] == log_sum_exp(
                        self.weighted_row(x, k, t),
                    ),
            decreases nc - i,
        {
            let d = self.log_weighted_densities(x, i);
            let mut col: Vec<T> = Vec::new();
            let mut t: usize = 0;
            while t < ns
                invariant
                    t <= ns,
                    nm == self.n_mix,
                    d.has_dims(ns as int, nm as int),
                    forall|t: int, m: int|
                        0 <= t < ns && 0 <= m < nm ==> #[trigger] d.at(t, m) == self.weighted_at(
                            x,
                            i as int,
                            t,
                            m,
                        ),
                    col.len() == t,
                    forall|p: int|
                        0 <= p < t ==> #[trigger] col@[p] == log_sum_exp(
                            self.weighted_row(x, i as int, p),
                        ),
                decreases ns - t,
            {
                proof {
                    assert(d.rows[t as int].len() == nm);
                    assert forall|m: int| 0 <= m < nm implies #[trigger] d.rows@[t as int]@[m]
                        == self.weighted_row(x, i as int, t as int)[m] by {
                        assert(d.at(t as int, m) == self.weighted_at(x, i as int, t as int, m));
                    }
                    assert(d.rows@[t as int]@ =~= self.weighted_row(x, i as int, t as int));
                }
                col.push(logsumexp(&d.rows[t]));
                t += 1;
            }
            cols.push(col);
            i += 1;
        }
        let f = |t: usize, c: usize| -> (v: T)
            requires
                t < ns,
                c < nc,
                cols.len() == nc,
                forall|k: int| 0 <= k < nc ==> (#[trigger] cols@[k])@.len() == ns,
            ensures
                v == cols@[c as int]@[t as int],
        {
            cols[c][t]
        };
        Matrix::tabulate(ns, nc, f)
    }

    fn grow_mix(
        &self,
        before: &Matrix<T>,
        x: &Matrix<T>,
        Ghost(post): Ghost<&Matrix<T>>,
        masses: &Vec<Matrix<T>>,
    ) -> (after: Matrix<T>)
        requires
            before.has_dims(self.n_components as int, self.n_mix as int),
            self.are_masses(x, post, masses@),
        ensures
            after.has_dims(self.n_components as int, self.n_mix as int),
            forall|i: int, m: int|
                0 <= i < self.n_components && 0 <= m < self.n_mix ==> #[trigger] after.at(i, m)
                    == grown(
                    before.at(i, m),
                    x.rows.len() as int,
                    |t: int| self.mix_mass(x, post, i, t, m),
                ),
    {
        let f = |i: usize, m: usize| -> (v: T)
            requires
                before.has_dims(self.n_components as int, self.n_mix as int),
                self.are_masses(x, post, masses@),
                i < self.n_components,
                m < self.n_mix,
            ensures
                v == grown(
                    before.at(i as int, m as int),
                    x.rows.len() as int,
                    |t: int| self.mix_mass(x, post, i as int, t, m as int),
                ),
        {
            let ns: usize = x.rows.len();
            let own = &masses[i];
            let mut acc = before.get(i, m);
            let ghost g = |t: int| self.mix_mass(x, post, i as int, t, m as int);
            let mut t: usize = 0;
            while t < ns
                invariant
                    t <= ns,
                    ns == x.rows.len(),
                    i < self.n_components,
                    m < self.n_mix,
                    self.are_masses(x, post, masses@),
                    *own == masses@[i as int],
                    g == (|t: int| self.mix_mass(x, post, i as int, t, m as int)),
                    acc == grown(before.at(i as int, m as int), t as int, g),
                decreases ns - t,
            {
                assert(masses@[i as int].at(t as int, m as int) == g(t as int));
                acc = acc.plus(own.get(t, m));
                t += 1;
            }
            acc
        };
        Matrix::tabulate(self.n_components, self.n_mix, f)
    }

    fn grow_post(&self, before: &Vec<T>, x: &Matrix<T>, post: &Matrix<T>) -> (after: Vec<T>)
        requires
            before.len() == self.n_components,
            post.has_dims(x.rows.len() as int, self.n_components as int),
        ensures
            after.len() == self.n_components,
            forall|i: int|
                0 <= i < self.n_components ==> #[trigger] after@[i] == grown(
                    before@[i],
                    x.rows.len() as int,
                    |t: int| post.at(t, i),
                ),
    {
        let mut after: Vec<T> = Vec::new();
        let mut i: usize = 0;
        while i < self.n_components
            invariant
                i <= self.n_components,
                before.len() == self.n_components,
                post.has_dims(x.rows.len() as int, self.n_components as int),
                after.len() == i,
                forall|p: int|
                    0 <= p < i ==> #[trigger] after@[p] == grown(
                        before@[p],
                        x.rows.len() as int,
                        |t: int| post.at(t, p),
                    ),
            decreases self.n_components - i,
        {
            let f = |t: usize| -> (v: T)
                requires
                    t < post.rows.len(),
                    i < post.ncols,
                    post.wf(),
                ensures
                    v == post.at(t as int, i as int),
            {
                post.get(t, i)
            };
            after.push(grow(before[i], x.rows.len(), f, Ghost(|t: int| post.at(t, i as int))));
            i += 1;
        }
        after
    }

    fn grow_sums(
        &self,
        before: &Cube<T>,
        x: &Matrix<T>,
        Ghost(post): Ghost<&Matrix<T>>,
        masses: &Vec<Matrix<T>>,
    ) -> (after: Cube<T>)
        requires
            self.n_features is Some,
            x.has_dims(x.rows.len() as int, self.width()),
            before.has_dims(self.n_components as int, self.n_mix as int, self.width()),
            self.are_masses(x, post, masses@),
        ensures
            after.has_dims(self.n_components as int, self.n_mix as int, self.width()),
            forall|i: int, m: int, f: int|
                0 <= i < self.n_components && 0 <= m < self.n_mix && 0 <= f < self.width()
                    ==> #[trigger] after.at(i, m, f) == grown(
                    before.at(i, m, f),
                    x.rows.len() as int,
                    |t: int| self.mix_mass(x, post, i, t, m).s_times(x.at(t, f)),
                ),
    {
        let f = |i: usize, m: usize, f: usize| -> (v: T)
            requires
                x.has_dims(x.rows.len() as int, self.width()),
                before.has_dims(self.n_components as int, self.n_mix as int, self.width()),
                self.are_masses(x, post, masses@),
                i < self.n_components,
                m < self.n_mix,
                f < self.width(),
            ensures
                v == grown(
                    before.at(i as int, m as int, f as int),
                    x.rows.len() as int,
                    |t: int|
                        self.mix_mass(x, post, i as int, t, m as int).s_times(x.at(t, f as int)),
                ),
        {
            let ns: usize = x.rows.len();
            let own = &masses[i];
            let mut acc = before.get(i, m, f);
            let ghost g = |t: int|
                self.mix_mass(x, post, i as int, t, m as int).s_times(x.at(t, f as int));
            let mut t: usize = 0;
            while t < ns
                invariant
                    t <= ns,
                    ns == x.rows.len(),
                    i < self.n_components,
                    m < self.n_mix,
                    f < x.ncols,
                    x.wf(),
                    self.are_masses(x, post, masses@),
                    *own == masses@[i as int],
                    g == (|t: int|
                        self.mix_mass(x, post, i as int, t, m as int).s_times(
                            x.at(t, f as int),
                        )),
                    acc == grown(before.at(i as int, m as int, f as int), t as int, g),
                decreases ns - t,
            {
                assert(masses@[i as int].at(t as int, m as int) == self.mix_mass(
                    x,
                    post,
                    i as int,
                    t as int,
                    m as int,
                ));
                acc = acc.plus(own.get(t, m).times(x.get(t, f)));
                t += 1;
            }
            acc
        };
        Cube::tabulate(self.n_components, self.n_mix, self.nf(), f)
    }
}

/// Builder for Gaussian-mixture models.
#[derive(Clone)]
pub struct GmmHmm<T> {
    /// Number of hidden states.
    pub n_components: usize,
    /// Number of mixtures per state.
    pub n_mix: usize,
    /// Covariance parameterisation.
    pub covariance_type: CovarianceType,
    /// Floor added to the covariance diagonal at initialisation.
    pub min_covar: T,
    /// Decoding algorithm.
    pub algorithm: DecoderAlgorithm,
    /// Forward-backward implementation.
    pub implementation: Implementation,
    /// Which parameters are updated.
    pub params: ParamSet,
    /// Which parameters are initialised before fitting.
    pub init_params: ParamSet,
    /// Maximum number of iterations.
    pub n_iter: usize,
    /// Convergence threshold on the per-iteration gain.
    pub tol: T,
    /// Whether each iteration is reported.
    pub verbose: bool,
    /// Seed for initialisation and sampling.
    pub random_state: Option<u32>,
    /// Dirichlet concentration prior on the initial-state distribution.
    pub startprob_prior: T,
    /// Dirichlet concentration prior on each transition row.
    pub transmat_prior: T,
    /// Dirichlet prior on the mixture weights.
    pub weights_prior: T,
    /// Prior mean of the means.
    pub means_prior: T,
    /// Prior weight of the means.
    pub means_weight: T,
    /// Prior of the covariances; `None` for the default of the type.
    pub covars_prior: Option<T>,
    /// Prior weight of the covariances; `None` for the default of the type.
    pub covars_weight: Option<T>,
    /// Optional preset initial-state distribution.
    pub start_prob: Option<Vec<T>>,
    /// Optional preset transition matrix.
    pub trans_mat: Option<Matrix<T>>,
    /// Optional preset means.
    pub means: Option<Cube<T>>,
    /// Optional preset mixture weights.
    pub weights: Option<Matrix<T>>,
    /// Optional preset covariances.
    pub covars: Option<GmmCovars<T>>,
}

impl<T: Dense> GmmHmm<T> {
    /// The emission model that the builder describes.
    pub open spec fn emission(&self) -> GmmEm<T> {
        GmmEm {
            n_components: self.n_components,
            n_mix: self.n_mix,
            n_features: match self.means {
                Some(m) => Some(m.ncols),
                None => None,
            },
            covariance_type: self.covariance_type,
            means: self.means,
            weights: self.weights,
            covars: self.covars,
            means_preset: self.means is Some,
            weights_preset: self.weights is Some,
            covars_preset: self.covars is Some,
            min_covar: self.min_covar,
            weights_prior: self.weights_prior,
            means_prior: self.means_prior,
            means_weight: self.means_weight,
            covars_prior: self.covars_prior,
            covars_weight: self.covars_weight,
        }
    }

    /// There is a state and a mixture; preset arrays are rectangular.
    pub open spec fn wf(&self) -> bool {
        &&& self.n_components >= 1
        &&& self.trans_mat matches Some(m) ==> m.wf()
        &&& self.emission().ok()
    }

    /// The groups that are initialised before fitting: those of `init_params` that
    /// nothing is preset for.
    pub open spec fn initialised(&self) -> Set<Param> {
        let s = self.init_params.members();
        let s = less(s, Param::Start, self.start_prob is Some);
        let s = less(s, Param::Trans, self.trans_mat is Some);
        let s = less(s, Param::Means, self.means is Some);
        let s = less(s, Param::Covars, self.covars is Some);
        let s = less(s, Param::Weights, self.weights is Some);
        s
    }

    /// `h` is the model that the builder describes.
    pub open spec fn builds(&self, h: &Hmm<T, GmmEm<T>>) -> bool {
        &&& em_built(
            &h.inference,
            self.n_components,
            self.startprob_prior,
            self.transmat_prior,
            self.start_prob,
            self.trans_mat,
        )
        &&& h.emission == self.emission()
        &&& has_settings(
            h,
            self.algorithm,
            self.implementation,
            self.params,
            self.initialised(),
            self.n_iter,
            self.tol,
            self.verbose,
            self.random_state,
        )
        &&& h.wf()
    }

    /// A model with `n_components` states of `n_mix` mixtures and the defaults:
    /// diagonal covariances with floor `1e-3`, Viterbi decoding in log space,
    /// everything initialised and updated, at most 10 iterations with tolerance
    /// `1e-2`, flat priors and nothing preset.
    pub fn new(n_components: usize, n_mix: usize) -> (r: Self)
        ensures
            r.n_components == n_components,
            r.n_mix == n_mix,
            r.covariance_type == CovarianceType::Diag,
            r.min_covar == dec::<T>(1, -3),
            r.algorithm == DecoderAlgorithm::Viterbi,
            r.implementation == Implementation::Log,
            forall|p: Param| r.params.members().contains(p) <==> "stmcw"@.contains(p.letter()),
            r.init_params == r.params,
            r.n_iter == 10,
            r.tol == dec::<T>(1, -2),
            !r.verbose,
            r.random_state is None,
            r.startprob_prior == num::<T>(1),
            r.transmat_prior == num::<T>(1),
            r.weights_prior == num::<T>(1),
            r.means_prior == num::<T>(0),
            r.means_weight == num::<T>(0),
            r.covars_prior is None,
            r.covars_weight is None,
            r.start_prob is None,
            r.trans_mat is None,
            r.means is None,
            r.weights is None,
            r.covars is None,
    {
        let params = ParamSet::from_codes("stmcw");
        GmmHmm {
            n_components,
            n_mix,
            covariance_type: CovarianceType::Diag,
            min_covar: T::decimal(1, -3),
            algorithm: DecoderAlgorithm::Viterbi,
            implementation: Implementation::Log,
            params,
            init_params: params,
            n_iter: 10,
            tol: T::decimal(1, -2),
            verbose: false,
            random_state: None,
            startprob_prior: one(),
            transmat_prior: one(),
            weights_prior: one(),
            means_prior: zero(),
            means_weight: zero(),
            covars_prior: None,
            covars_weight: None,
            start_prob: None,
            trans_mat: None,
            means: None,
            weights: None,
            covars: None,
        }
    }

    /// Sets the covariance parameterisation.
    pub fn covariance_type(self, ct: CovarianceType) -> (r: Self)
        ensures
            r == (Self { covariance_type: ct, ..self }),
    {
        let mut s = self;
        s.covariance_type = ct;
        s
    }

    /// Sets the maximum number of iterations.
    pub fn n_iter(self, n: usize) -> (r: Self)
        ensures
            r == (Self { n_iter: n, ..self }),
    {
        let mut s = self;
        s.n_iter = n;
        s
    }

    /// Sets the convergence threshold on the per-iteration gain.
    pub fn tol(self, tol: T) -> (r: Self)
        ensures
            r == (Self { tol: tol, ..self }),
    {
        let mut s = self;
        s.tol = tol;
        s
    }

    /// Sets the forward-backward implementation.
    pub fn implementation(self, i: Implementation) -> (r: Self)
        ensures
            r == (Self { implementation: i, ..self }),
    {
        let mut s = self;
        s.implementation = i;
        s
    }

    /// Sets which parameters are updated, from letter codes (`s`, `t`, `m`, `c`, `w`).
    pub fn params(self, codes: &str) -> (r: Self)
        ensures
            r == (Self { params: r.params, ..self }),
            r.params.wf(),
            forall|p: Param| r.params.members().contains(p) <==> codes@.contains(p.letter()),
    {
        let mut s = self;
        s.params = ParamSet::from_codes(codes);
        s
    }

    /// Sets which parameters are initialised before fitting, from letter codes (`s`, `t`, `m`, `c`, `w`).
    pub fn init_params(self, codes: &str) -> (r: Self)
        ensures
            r == (Self { init_params: r.init_params, ..self }),
            r.init_params.wf(),
            forall|p: Param| r.init_params.members().contains(p) <==> codes@.contains(p.letter()),
    {
        let mut s = self;
        s.init_params = ParamSet::from_codes(codes);
        s
    }

    /// Sets the seed for initialisation and sampling.
    pub fn random_state(self, seed: u32) -> (r: Self)
        ensures
            r == (Self { random_state: Some(seed), ..self }),
    {
        let mut s = self;
        s.random_state = Some(seed);
        s
    }

    /// Presets the initial-state distribution.
    pub fn start_prob(self, sp: Vec<T>) -> (r: Self)
        ensures
            r == (Self { start_prob: Some(sp), ..self }),
    {
        let mut s = self;
        s.start_prob = Some(sp);
        s
    }

    /// Presets the transition matrix.
    pub fn trans_mat(self, tm: Matrix<T>) -> (r: Self)
        ensures
            r == (Self { trans_mat: Some(tm), ..self }),
    {
        let mut s = self;
        s.trans_mat = Some(tm);
        s
    }

    /// Presets the mixture means.
    pub fn means(self, m: Cube<T>) -> (r: Self)
        ensures
            r == (Self { means: Some(m), ..self }),
    {
        let mut s = self;
        s.means = Some(m);
        s
    }

    /// Presets the mixture weights.
    pub fn weights(self, w: Matrix<T>) -> (r: Self)
        ensures
            r == (Self { weights: Some(w), ..self }),
    {
        let mut s = self;
        s.weights = Some(w);
        s
    }

    /// Presets the mixture covariances.
    pub fn covars(self, c: GmmCovars<T>) -> (r: Self)
        ensures
            r == (Self { covars: Some(c), ..self }),
    {
        let mut s = self;
        s.covars = Some(c);
        s
    }

    /// The unfitted model that the builder describes.
    pub fn build(self) -> (h: Hmm<T, GmmEm<T>>)
        requires
            self.wf(),
        ensures
            self.builds(&h),
    {
        let n_features: Option<usize> = match &self.means {
            Some(m) => Some(m.ncols),
            None => None,
        };
        let init_params = self.init_params
            .without(Param::Start, self.start_prob.is_some())
            .without(Param::Trans, self.trans_mat.is_some())
            .without(Param::Means, self.means.is_some())
            .without(Param::Covars, self.covars.is_some())
            .without(Param::Weights, self.weights.is_some());
        let inference = Em::new(
            self.n_components,
            self.startprob_prior,
            self.transmat_prior,
            self.start_prob,
            self.trans_mat,
        );
        let means_preset = self.means.is_some();
        let weights_preset = self.weights.is_some();
        let covars_preset = self.covars.is_some();
        let emission = GmmEm {
            n_components: self.n_components,
            n_mix: self.n_mix,
            n_features,
            covariance_type: self.covariance_type,
            means: self.means,
            weights: self.weights,
            covars: self.covars,
            means_preset,
            weights_preset,
            covars_preset,
            min_covar: self.min_covar,
            weights_prior: self.weights_prior,
            means_prior: self.means_prior,
            means_weight: self.means_weight,
            covars_prior: self.covars_prior,
            covars_weight: self.covars_weight,
        };
        Hmm {
            emission,
            inference,
            algorithm: self.algorithm,
            implementation: self.implementation,
            params: self.params,
            init_params,
            n_iter: self.n_iter,
            random_state: self.random_state,
            monitor: ConvergenceMonitor::new(self.tol, self.n_iter, self.verbose),
            notes: Vec::new(),
        }
    }

    /// Fit the model.
    pub fn fit(self, x: &Matrix<T>, lengths: Option<&[usize]>) -> (r: Result<
        Fitted<T, GmmEm<T>>,
        HmmError,
    >)
        requires
            self.wf(),
            x.wf(),
            fit_ready(&self.emission(), self.initialised(), self.n_iter, x, lengths),
        ensures
            exists|h: Hmm<T, GmmEm<T>>| #[trigger]
                self.builds(&h) && fit_result(&h, x, lengths, r),
    {
        self.build().fit(x, lengths)
    }

    /// Treat the preset parameters as fitted, after validation.
    pub fn into_fitted(self) -> (r: Result<Fitted<T, GmmEm<T>>, HmmError>)
        requires
            self.wf(),
        ensures
            exists|h: Hmm<T, GmmEm<T>>| #[trigger] self.builds(&h) && taken_as_fitted(&h, r),
    {
        self.build().into_fitted()
    }
}

} // verus!
