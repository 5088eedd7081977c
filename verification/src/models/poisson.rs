//! Poisson model.
//!
//! Emissions are independent Poisson counts per feature. Rates are initialised
//! from the data's moments by gamma draws and updated under a gamma prior.

use crate::counting::{clamped_product, clamped_sum, saturated};
use crate::covariance::store::{grand_mean, mean_of_all};
use crate::engine::emission::EmissionModel;
use crate::engine::fit::{fit_ready, fit_result, taken_as_fitted};
use crate::engine::fitted::Fitted;
use crate::engine::hmm::Hmm;
use crate::engine::inference::{gave_up, is_gave_up, seed_or_zero, seeded_state, Em, Inference};
use crate::engine::monitor::ConvergenceMonitor;
use crate::engine::params::{less, DecoderAlgorithm, Implementation, Param, ParamSet};
use crate::error::HmmError;
use crate::linalg::Dense;
use crate::matrix::{col_sum, col_total, filled, tabulate, Matrix};
use crate::models::shared::{
    add_products, columns_message, confirm_features, em_built, exp_matrix, gains_products,
    has_settings,
};
use crate::rng::discrete::poisson_draw;
use crate::rng::gamma::gamma_draw;
use crate::rng::state::{fresh_state, NumpyRandomState, RngView};
use crate::scalar::{count, dec, num, one, sigma, sigma_ext, sum, sum_of, total, zero, Scalar};
use vstd::prelude::*;

verus! {

/// What a pass over some numbers has gathered.
pub struct Moments<T> {
    /// How many there were.
    pub count: int,
    /// Their mean.
    pub mean: T,
    /// The sum of their squared deviations from the mean.
    pub spread: T,
}

impl<T: Scalar> Moments<T> {
    /// Nothing gathered yet.
    pub open spec fn none() -> Moments<T> {
        Moments { count: 0, mean: num(0), spread: num(0) }
    }

    /// With one number more: the mean moves towards it, and the spread grows by the
    /// product of its deviations from the mean before and after.
    pub open spec fn with(self, v: T) -> Moments<T> {
        let count = self.count + 1;
        let delta = v.s_minus(self.mean);
        let mean = self.mean.s_plus(delta.s_over(num(saturated(count))));
        Moments { count, mean, spread: v.s_minus(mean).s_mul_add(delta, self.spread) }
    }

    /// With the first `n` numbers of `row` more.
    pub open spec fn with_row(self, row: Seq<T>, n: int) -> Moments<T>
        decreases n,
    {
        if n <= 0 {
            self
        } else {
            self.with_row(row, n - 1).with(row[n - 1])
        }
    }
}

/// The moments of the first `n` rows, taken row by row.
pub open spec fn moments_of<T: Scalar>(x: &Matrix<T>, n: int) -> Moments<T>
    decreases n,
{
    if n <= 0 {
        Moments::none()
    } else {
        moments_of(x, n - 1).with_row(x.row_view(n - 1), x.ncols as int)
    }
}

/// The population variance of all entries, in one pass.
pub open spec fn grand_variance<T: Scalar>(x: &Matrix<T>) -> T {
    let m = moments_of(x, x.rows.len() as int);
    m.spread.s_over(num(saturated(m.count)))
}

fn variance_of_all<T: Scalar>(x: &Matrix<T>) -> (r: T)
    requires
        x.wf(),
    ensures
        r == grand_variance(x),
{
    let mut n: usize = 0;
    let mut mean: T = zero();
    let mut spread: T = zero();
    let mut t: usize = 0;
    while t < x.rows.len()
        invariant
            t <= x.rows.len(),
            x.wf(),
            moments_of(x, t as int).count >= 0,
            n == saturated(moments_of(x, t as int).count),
            mean == moments_of(x, t as int).mean,
            spread == moments_of(x, t as int).spread,
        decreases x.rows.len() - t,
    {
        let ghost before = moments_of(x, t as int);
        let row = &x.rows[t];
        let mut j: usize = 0;
        while j < x.ncols
            invariant
                j <= x.ncols,
                row.len() == x.ncols,
                before.with_row(row@, j as int).count >= 0,
                n == saturated(before.with_row(row@, j as int).count),
                mean == before.with_row(row@, j as int).mean,
                spread == before.with_row(row@, j as int).spread,
            decreases x.ncols - j,
        {
            let v = row[j];
            n = clamped_sum(n, 1);
            let delta = v.minus(mean);
            mean = mean.plus(delta.over(count(n)));
            spread = v.minus(mean).mul_add(delta, spread);
            j += 1;
        }
        t += 1;
    }
    spread.over(count(n))
}

/// `n` gamma variates of one shape and scale.
pub open spec fn gamma_row<T: Scalar>(s: RngView<T>, shape: T, scale: T, n: int) -> (
    RngView<T>,
    Option<Seq<T>>,
)
    decreases n,
{
    if n <= 0 {
        (s, Some(Seq::empty()))
    } else {
        match gamma_row(s, shape, scale, n - 1) {
            (t, None) => (t, None),
            (t, Some(v)) => match gamma_draw(t, shape) {
                (w, None) => (w, None),
                (w, Some(g)) => (w, Some(v.push(scale.s_times(g)))),
            },
        }
    }
}

/// `n` rows of `k` gamma variates, row by row.
pub open spec fn gamma_rows<T: Scalar>(s: RngView<T>, shape: T, scale: T, k: int, n: int) -> (
    RngView<T>,
    Option<Seq<Seq<T>>>,
)
    decreases n,
{
    if n <= 0 {
        (s, Some(Seq::empty()))
    } else {
        match gamma_rows(s, shape, scale, k, n - 1) {
            (t, None) => (t, None),
            (t, Some(v)) => match gamma_row(t, shape, scale, k) {
                (w, None) => (w, None),
                (w, Some(row)) => (w, Some(v.push(row))),
            },
        }
    }
}

proof fn gamma_row_stays_none<T: Scalar>(s: RngView<T>, shape: T, scale: T, i: int, n: int)
    requires
        0 <= i <= n,
        gamma_row(s, shape, scale, i).1 is None,
    ensures
        gamma_row(s, shape, scale, n).1 is None,
    decreases n,
{
    if n > i {
        gamma_row_stays_none(s, shape, scale, i, n - 1);
    }
}

proof fn gamma_rows_stay_none<T: Scalar>(s: RngView<T>, shape: T, scale: T, k: int, i: int, n: int)
    requires
        0 <= i <= n,
        gamma_rows(s, shape, scale, k, i).1 is None,
    ensures
        gamma_rows(s, shape, scale, k, n).1 is None,
    decreases n,
{
    if n > i {
        gamma_rows_stay_none(s, shape, scale, k, i, n - 1);
    }
}

fn draw_gamma_row<T: Scalar>(rng: &mut NumpyRandomState<T>, shape: T, scale: T, n: usize) -> (r:
    Option<Vec<T>>)
    requires
        old(rng).wf(),
    ensures
        final(rng).wf(),
        match r {
            Some(v) => gamma_row(old(rng)@, shape, scale, n as int) == (final(rng)@, Some(v@))
                && v.len() == n,
            None => gamma_row(old(rng)@, shape, scale, n as int).1 is None,
        },
{
    let ghost start = rng@;
    let mut v: Vec<T> = Vec::new();
    let mut i: usize = 0;
    while i < n
        invariant
            i <= n,
            rng.wf(),
            start == old(rng)@,
            v.len() == i,
            gamma_row(start, shape, scale, i as int) == (rng@, Some(v@)),
        decreases n - i,
    {
        match rng.gamma(shape, scale) {
            Some(g) => {
                v.push(g);
            },
            None => {
                proof {
                    gamma_row_stays_none(start, shape, scale, i as int + 1, n as int);
                }
                return None;
            },
        }
        i += 1;
    }
    Some(v)
}

fn draw_gamma_rows<T: Scalar>(rng: &mut NumpyRandomState<T>, shape: T, scale: T, k: usize, n: usize) -> (r:
    Option<Matrix<T>>)
    requires
        old(rng).wf(),
    ensures
        final(rng).wf(),
        match r {
            Some(m) => gamma_rows(old(rng)@, shape, scale, k as int, n as int).1 == Some(m@)
                && m.has_dims(n as int, k as int),
            None => gamma_rows(old(rng)@, shape, scale, k as int, n as int).1 is None,
        },
{
    let ghost start = rng@;
    let ghost mut seen: Seq<Seq<T>> = Seq::empty();
    let mut rows: Vec<Vec<T>> = Vec::new();
    let mut i: usize = 0;
    while i < n
        invariant
            i <= n,
            rng.wf(),
            start == old(rng)@,
            rows.len() == i,
            seen.len() == i,
            forall|p: int| 0 <= p < i ==> (#[trigger] rows@[p])@ == seen[p] && rows@[p].len() == k,
            gamma_rows(start, shape, scale, k as int, i as int) == (rng@, Some(seen)),
        decreases n - i,
    {
        match draw_gamma_row(rng, shape, scale, k) {
            Some(row) => {
                proof {
                    seen = seen.push(row@);
                }
                rows.push(row);
            },
            None => {
                proof {
                    gamma_rows_stay_none(start, shape, scale, k as int, i as int + 1, n as int);
                }
                return None;
            },
        }
        i += 1;
    }
    let m = Matrix { rows, ncols: k };
    proof {
        assert(m@ =~= seen);
    }
    Some(m)
}

/// Emission statistics.
pub struct PoissonStats<T> {
    /// Accumulated posterior mass per state.
    pub post: Vec<T>,
    /// Accumulated posterior-weighted counts, `(n_components, n_features)`.
    pub obs: Matrix<T>,
}

/// Poisson emission model.
#[derive(Clone)]
pub struct PoissonEm<T> {
    /// Number of hidden states.
    pub n_components: usize,
    /// Number of features; `None` until inferred from data or set.
    pub n_features: Option<usize>,
    /// Rates, `(n_components, n_features)`; `None` until initialised.
    pub lambdas: Option<Matrix<T>>,
    /// Whether `lambdas` is set and must not be drawn again.
    pub lambdas_preset: bool,
    /// Shape of the gamma prior on the rates.
    pub lambdas_prior: T,
    /// Rate of the gamma prior on the rates.
    pub lambdas_weight: T,
}

/// One Poisson count per rate, one after the other.
pub open spec fn poisson_draws<T: Scalar>(s: RngView<T>, lams: Seq<T>, n: int) -> (
    RngView<T>,
    Option<Seq<T>>,
)
    decreases n,
{
    if n <= 0 {
        (s, Some(Seq::empty()))
    } else {
        match poisson_draws(s, lams, n - 1) {
            (t, None) => (t, None),
            (t, Some(v)) => match poisson_draw(t, lams[n - 1]) {
                (w, None) => (w, None),
                (w, Some(k)) => (w, Some(v.push(num::<T>(k as int)))),
            },
        }
    }
}

proof fn poissons_stay_none<T: Scalar>(s: RngView<T>, lams: Seq<T>, i: int, n: int)
    requires
        0 <= i <= n,
        poisson_draws(s, lams, i).1 is None,
    ensures
        poisson_draws(s, lams, n).1 is None,
    decreases n,
{
    if n > i {
        poissons_stay_none(s, lams, i, n - 1);
    }
}

/// The rate that the statistics of a state and feature lead to under the gamma
/// prior, with `n` the total posterior mass.
pub open spec fn updated_rate<T: Scalar>(alpha: T, beta: T, n: T, obs: T, post: T) -> T {
    alpha.s_plus(n.s_times(obs.s_over(post))).s_over(beta.s_plus(n))
}

impl<T: Scalar> PoissonEm<T> {
    /// Stored rates are rectangular and come with a number of features.
    pub open spec fn ok(&self) -> bool {
        self.lambdas matches Some(l) ==> l.wf() && self.n_features is Some
    }

    /// The number of features, where it is known.
    pub open spec fn width(&self) -> int {
        self.n_features->0 as int
    }

    /// The rates are set and have the right shape.
    pub open spec fn has_rates(&self) -> bool {
        &&& self.n_features is Some
        &&& self.lambdas matches Some(l)
        &&& l.has_dims(self.n_components as int, self.width())
    }

    /// The rates, `(n_components, n_features)`.
    pub fn lambdas(&self) -> (r: &Matrix<T>)
        requires
            self.lambdas is Some,
        ensures
            Some(*r) == self.lambdas,
    {
        match &self.lambdas {
            Some(l) => l,
            None => vstd::pervasive::unreached(),
        }
    }

    fn nf(&self) -> (n: usize)
        requires
            self.n_features is Some,
        ensures
            Some(n) == self.n_features,
    {
        match self.n_features {
            Some(n) => n,
            None => 0,
        }
    }

    /// The Poisson log-probability of row `t` in state `c`: the sum over the
    /// features of `k ln(lambda) - lambda - ln k!`.
    pub open spec fn log_prob_at(&self, x: &Matrix<T>, t: int, c: int) -> T {
        let l = self.lambdas->0;
        sigma(
            self.width(),
            |f: int|
                x.at(t, f).s_times(l.at(c, f).s_ln()).s_minus(l.at(c, f)).s_minus(
                    x.at(t, f).s_plus(num(1)).s_ln_gamma(),
                ),
        )
    }

    fn log_prob(&self, x: &Matrix<T>, t: usize, c: usize) -> (r: T)
        requires
            self.has_rates(),
            x.has_dims(x.rows.len() as int, self.width()),
            t < x.rows.len(),
            c < self.n_components,
        ensures
            r == self.log_prob_at(x, t as int, c as int),
    {
        let l = self.lambdas();
        let nf: usize = self.nf();
        let g = |f: usize| -> (v: T)
            requires
                f < nf,
                t < x.rows.len(),
                c < l.rows.len(),
                x.has_dims(x.rows.len() as int, nf as int),
                l.has_dims(l.rows.len() as int, nf as int),
            ensures
                v == x.at(t as int, f as int).s_times(l.at(c as int, f as int).s_ln()).s_minus(
                    l.at(c as int, f as int),
                ).s_minus(x.at(t as int, f as int).s_plus(num(1)).s_ln_gamma()),
        {
            let k = x.get(t, f);
            let lam = l.get(c, f);
            k.times(lam.ln()).minus(lam).minus(k.plus(one()).ln_gamma())
        };
        sum_of(
            nf,
            g,
            Ghost(
                |f: int|
                    x.at(t as int, f).s_times(l.at(c as int, f).s_ln()).s_minus(
                        l.at(c as int, f),
                    ).s_minus(x.at(t as int, f).s_plus(num(1)).s_ln_gamma()),
            ),
        )
    }

    fn log_probs(&self, x: &Matrix<T>) -> (r: Matrix<T>)
        requires
            self.has_rates(),
            x.has_dims(x.rows.len() as int, self.width()),
        ensures
            r.has_dims(x.rows.len() as int, self.n_components as int),
            forall|t: int, c: int|
                0 <= t < x.rows.len() && 0 <= c < self.n_components ==> #[trigger] r.at(t, c)
                    == self.log_prob_at(x, t, c),
    {
        let f = |t: usize, c: usize| -> (v: T)
            requires
                self.has_rates(),
                x.has_dims(x.rows.len() as int, self.width()),
                t < x.rows.len(),
                c < self.n_components,
            ensures
                v == self.log_prob_at(x, t as int, c as int),
        {
            self.log_prob(x, t, c)
        };
        Matrix::tabulate(x.rows.len(), self.n_components, f)
    }

    /// The rates are drawn anew.
    pub open spec fn draws_rates(&self, init: ParamSet) -> bool {
        init.members().contains(Param::Lambdas) || !self.lambdas_preset
    }

    /// The rates that initialisation draws: gamma variates whose mean and variance
    /// are those of all entries of `x`.
    pub open spec fn drawn_rates(&self, x: &Matrix<T>, seed: Option<u32>) -> Option<Seq<Seq<T>>> {
        let mean = grand_mean(x);
        let var = grand_variance(x);
        gamma_rows(
            fresh_state::<T>(seed_or_zero(seed)),
            mean.s_times(mean).s_over(var),
            var.s_over(mean),
            self.width(),
            self.n_components as int,
        ).1
    }
}

impl<T: Dense> EmissionModel<T> for PoissonEm<T> {
    type Inference = Em<T>;

    type Stats = PoissonStats<T>;

    open spec fn wf(&self) -> bool {
        self.ok()
    }

    open spec fn states(&self) -> int {
        self.n_components as int
    }

    open spec fn featured(&self) -> bool {
        self.n_features is Some
    }

    open spec fn features(&self) -> int {
        self.width()
    }

    open spec fn columns(&self) -> int {
        self.width()
    }

    open spec fn fits(&self) -> bool {
        self.has_rates()
    }

    open spec fn valid(&self, nc: int) -> bool {
        self.lambdas matches Some(l) && l.dims() == (nc, self.width())
    }

    open spec fn readable(&self, x: &Matrix<T>) -> bool {
        true
    }

    open spec fn initable(&self, x: &Matrix<T>, init: Set<Param>) -> bool {
        true
    }

    open spec fn scannable(&self, x: &Matrix<T>) -> bool {
        true
    }

    open spec fn matched(&self, x: &Matrix<T>) -> bool {
        self.n_features == Some(x.ncols)
    }

    open spec fn refused_rel(&self, x: &Matrix<T>, after: &Self) -> bool {
        *after == *self
    }

    open spec fn accepts(&self, x: &Matrix<T>) -> bool {
        self.n_features matches Some(nf) ==> nf == x.ncols
    }

    open spec fn refusal(&self, x: &Matrix<T>, e: HmmError) -> bool {
        e matches HmmError::DimensionMismatch(m) && m@ == columns_message(
            x.ncols as nat,
            self.width() as nat,
        )
    }

    open spec fn flaw(&self, nc: int, e: HmmError) -> bool {
        match self.lambdas {
            None => e == HmmError::NotFitted,
            Some(_) => e matches HmmError::DimensionMismatch(m) && m@
                == "lambdas_ must have shape (n_components, n_features)"@,
        }
    }

    open spec fn init_flaw(&self, e: HmmError) -> bool {
        is_gave_up(e)
    }

    open spec fn mstep_flaw(&self, e: HmmError) -> bool {
        false
    }

    open spec fn observable(&self, x: &Matrix<T>) -> bool {
        x.ncols == self.width()
    }

    open spec fn owned_params() -> Seq<Param> {
        seq![Param::Lambdas]
    }

    open spec fn scalars(&self, nc: int, params: ParamSet) -> int {
        if params.members().contains(Param::Lambdas) {
            nc * self.width()
        } else {
            0
        }
    }

    open spec fn set_rel(&self, x: &Matrix<T>, after: &Self) -> bool {
        *after == (Self { n_features: Some(x.ncols), ..*self })
    }

    open spec fn init_ok(&self, x: &Matrix<T>, init: ParamSet, seed: Option<u32>) -> bool {
        self.draws_rates(init) ==> self.drawn_rates(x, seed) is Some
    }

    open spec fn init_rel(
        &self,
        x: &Matrix<T>,
        init: ParamSet,
        seed: Option<u32>,
        after: &Self,
    ) -> bool {
        &&& after.n_components == self.n_components
        &&& after.n_features == self.n_features
        &&& after.lambdas_preset
        &&& after.lambdas_prior == self.lambdas_prior
        &&& after.lambdas_weight == self.lambdas_weight
        &&& if self.draws_rates(init) {
            &&& after.has_rates()
            &&& self.drawn_rates(x, seed) == Some(after.lambdas->0@)
        } else {
            after.lambdas == self.lambdas
        }
    }

    open spec fn log_like(&self, x: &Matrix<T>, t: int, c: int) -> T {
        self.log_prob_at(x, t, c)
    }

    open spec fn like(&self, x: &Matrix<T>, t: int, c: int) -> T {
        self.log_prob_at(x, t, c).s_exp()
    }

    open spec fn fit_log_like(&self, x: &Matrix<T>, t: int, c: int) -> T {
        self.log_prob_at(x, t, c)
    }

    open spec fn fit_like(&self, x: &Matrix<T>, t: int, c: int) -> T {
        self.log_prob_at(x, t, c).s_exp()
    }

    open spec fn stats_fit(&self, stats: &PoissonStats<T>) -> bool {
        stats.post.len() == self.n_components && stats.obs.has_dims(
            self.n_components as int,
            self.width(),
        )
    }

    open spec fn zero_stats(&self, stats: &PoissonStats<T>) -> bool {
        &&& self.stats_fit(stats)
        &&& forall|c: int| 0 <= c < self.n_components ==> #[trigger] stats.post@[c] == num::<T>(0)
        &&& forall|c: int, f: int|
            0 <= c < self.n_components && 0 <= f < self.width() ==> #[trigger] stats.obs.at(c, f)
                == num::<T>(0)
    }

    open spec fn accumulate_rel(
        &self,
        before: &PoissonStats<T>,
        x: &Matrix<T>,
        post: &Matrix<T>,
        params: ParamSet,
        after: &PoissonStats<T>,
    ) -> bool {
        if params.members().contains(Param::Lambdas) {
            &&& after.post.len() == before.post.len()
            &&& forall|c: int|
                0 <= c < self.n_components ==> #[trigger] after.post@[c] == before.post@[c].s_plus(
                    col_total(post, c),
                )
            &&& gains_products(&before.obs, post, x, &after.obs)
        } else {
            *after == *before
        }
    }

    open spec fn mstep_ok(&self, stats: &PoissonStats<T>, params: ParamSet) -> bool {
        true
    }

    open spec fn mstep_rel(&self, stats: &PoissonStats<T>, params: ParamSet, after: &Self) -> bool {
        &&& after.n_components == self.n_components
        &&& after.n_features == self.n_features
        &&& after.lambdas_preset == self.lambdas_preset
        &&& after.lambdas_prior == self.lambdas_prior
        &&& after.lambdas_weight == self.lambdas_weight
        &&& if params.members().contains(Param::Lambdas) {
            after.lambdas matches Some(l) && forall|c: int, f: int|
                0 <= c < self.n_components && 0 <= f < self.width() ==> #[trigger] l.at(c, f)
                    == updated_rate(
                    self.lambdas_prior,
                    self.lambdas_weight,
                    total(stats.post@),
                    stats.obs.at(c, f),
                    stats.post@[c],
                )
        } else {
            after.lambdas == self.lambdas
        }
    }

    open spec fn samplable(&self) -> bool {
        true
    }

    open spec fn draw(&self, state: int, s: RngView<T>) -> (RngView<T>, Option<Seq<T>>) {
        poisson_draws(s, self.lambdas->0.row_view(state), self.width())
    }

    open spec fn contribution(&self) -> Option<T> {
        Some(num(0))
    }

    open spec fn begin_rel(&self, after: &Self) -> bool {
        *after == *self
    }

    proof fn slices_observable(&self, x: &Matrix<T>, begin: int, end: int, sub: &Matrix<T>) {
    }

    proof fn likelihoods_of_row(&self, x: &Matrix<T>, t: int, y: &Matrix<T>, u: int, c: int) {
        let l = self.lambdas->0;
        sigma_ext(
            self.width(),
            |f: int|
                x.at(t, f).s_times(l.at(c, f).s_ln()).s_minus(l.at(c, f)).s_minus(
                    x.at(t, f).s_plus(num(1)).s_ln_gamma(),
                ),
            |f: int|
                y.at(u, f).s_times(l.at(c, f).s_ln()).s_minus(l.at(c, f)).s_minus(
                    y.at(u, f).s_plus(num(1)).s_ln_gamma(),
                ),
        );
    }

    proof fn fits_featured(&self) {
    }

    fn emission_params() -> (r: Vec<Param>) {
        let mut v: Vec<Param> = Vec::new();
        v.push(Param::Lambdas);
        proof {
            assert(v@ =~= seq![Param::Lambdas]);
        }
        v
    }

    fn n_features(&self) -> (n: usize) {
        self.nf()
    }

    fn check_and_set_n_features(&mut self, x: &Matrix<T>) -> (r: Result<(), HmmError>) {
        match confirm_features(self.n_features, x) {
            Ok(nf) => {
                self.n_features = Some(nf);
                Ok(())
            },
            Err(e) => Err(e),
        }
    }

    fn init(&mut self, x: &Matrix<T>, init: ParamSet, seed: Option<u32>) -> (r: Result<
        (),
        HmmError,
    >) {
        if init.contains(Param::Lambdas) || !self.lambdas_preset {
            let nc: usize = self.n_components;
            let nf: usize = self.nf();
            let mean_x = mean_of_all(x);
            let var_x = variance_of_all(x);
            let shape = mean_x.times(mean_x).over(var_x);
            let scale = var_x.over(mean_x);
            let mut rng = seeded_state(seed);
            match draw_gamma_rows(&mut rng, shape, scale, nf, nc) {
                Some(l) => {
                    self.lambdas = Some(l);
                },
                None => {
                    return Err(gave_up());
                },
            }
        }
        self.lambdas_preset = true;
        Ok(())
    }

    fn check(&self, n_components: usize) -> (r: Result<(), HmmError>) {
        match &self.lambdas {
            None => Err(HmmError::NotFitted),
            Some(l) => {
                if l.rows.len() != n_components || l.ncols != self.nf() {
                    return Err(
                        HmmError::DimensionMismatch(
                            "lambdas_ must have shape (n_components, n_features)".to_owned(),
                        ),
                    );
                }
                Ok(())
            },
        }
    }

    fn n_fit_scalars(&self, n_components: usize, params: ParamSet) -> (n: usize) {
        let nf: usize = self.nf();
        assert(0 <= n_components * nf) by (nonlinear_arith);
        if params.contains(Param::Lambdas) {
            clamped_product(n_components, nf)
        } else {
            0
        }
    }

    fn log_likelihood(&self, x: &Matrix<T>) -> (r: Matrix<T>) {
        self.log_probs(x)
    }

    fn likelihood(&self, x: &Matrix<T>) -> (r: Matrix<T>) {
        exp_matrix(&self.log_probs(x))
    }

    fn fit_log_likelihood(&self, x: &Matrix<T>) -> (r: Matrix<T>) {
        self.log_probs(x)
    }

    fn fit_likelihood(&self, x: &Matrix<T>) -> (r: Matrix<T>) {
        exp_matrix(&self.log_probs(x))
    }

    fn init_stats(&self) -> (r: PoissonStats<T>) {
        PoissonStats {
            post: filled(self.n_components, zero()),
            obs: Matrix::constant(self.n_components, self.nf(), zero()),
        }
    }

    fn accumulate(
        &self,
        stats: &mut PoissonStats<T>,
        x: &Matrix<T>,
        posteriors: &Matrix<T>,
        params: ParamSet,
    ) {
        if params.contains(Param::Lambdas) {
            let current = &stats.post;
            let f = |c: usize| -> (v: T)
                requires
                    c < current.len(),
                    posteriors.wf(),
                    posteriors.ncols == current.len(),
                ensures
                    v == current@[c as int].s_plus(col_total(posteriors, c as int)),
            {
                current[c].plus(col_sum(posteriors, c))
            };
            let post = tabulate(self.n_components, f);
            let obs = add_products(&stats.obs, posteriors, x);
            stats.post = post;
            stats.obs = obs;
        }
    }

    fn mstep(&mut self, stats: &PoissonStats<T>, params: ParamSet) -> (r: Result<(), HmmError>) {
        if params.contains(Param::Lambdas) {
            let nc: usize = self.n_components;
            let nf: usize = self.nf();
            let alphas = self.lambdas_prior;
            let betas = self.lambdas_weight;
            let n = sum(&stats.post);
            let f = |c: usize, f: usize| -> (v: T)
                requires
                    c < nc,
                    f < nf,
                    stats.post.len() == nc,
                    stats.obs.has_dims(nc as int, nf as int),
                ensures
                    v == updated_rate(
                        alphas,
                        betas,
                        n,
                        stats.obs.at(c as int, f as int),
                        stats.post@[c as int],
                    ),
            {
                let y_bar = stats.obs.get(c, f).over(stats.post[c]);
                alphas.plus(n.times(y_bar)).over(betas.plus(n))
            };
            self.lambdas = Some(Matrix::tabulate(nc, nf, f));
        }
        Ok(())
    }

    fn sample_state(&self, state: usize, rng: &mut NumpyRandomState<T>) -> (r: Option<Vec<T>>) {
        let l = self.lambdas();
        let nf: usize = self.nf();
        assert(l.rows[state as int].len() == l.ncols);
        let lams = &l.rows[state];
        let ghost start = rng@;
        let mut v: Vec<T> = Vec::new();
        let mut i: usize = 0;
        while i < nf
            invariant
                i <= nf,
                lams.len() == nf,
                lams@ == self.lambdas->0.row_view(state as int),
                nf == self.width(),
                rng.wf(),
                start == old(rng)@,
                v.len() == i,
                poisson_draws(start, lams@, i as int) == (rng@, Some(v@)),
            decreases nf - i,
        {
            match rng.poisson(lams[i]) {
                Some(k) => {
                    v.push(T::of_int(k as i128));
                },
                None => {
                    proof {
                        poissons_stay_none(start, lams@, i as int + 1, nf as int);
                    }
                    return None;
                },
            }
            i += 1;
        }
        Some(v)
    }

    fn lower_bound_contribution(&self) -> (r: Option<T>) {
        Some(zero())
    }

    fn estep_begin(&mut self) {
    }
}

/// Builder for Poisson models.
#[derive(Clone)]
pub struct PoissonHmm<T> {
    /// Number of hidden states.
    pub n_components: usize,
    /// Decoding algorithm.
    pub algorithm: DecoderAlgorithm,
    /// Forward-backward implementation.
    pub implementation: Implementation,
    /// Which parameters are updated.
    pub params: ParamSet,
    /// Which parameters are initialised before fitting.
    pub init_params: ParamSet,
    /// Maximum number of iterations.
    pub n_iter: usize,
    /// Convergence threshold on the per-iteration gain.
    pub tol: T,
    /// Whether each iteration is reported.
    pub verbose: bool,
    /// Seed for initialisation and sampling.
    pub random_state: Option<u32>,
    /// Dirichlet concentration prior on the initial-state distribution.
    pub startprob_prior: T,
    /// Dirichlet concentration prior on each transition row.
    pub transmat_prior: T,
    /// Shape of the gamma prior on the rates.
    pub lambdas_prior: T,
    /// Rate of the gamma prior on the rates.
    pub lambdas_weight: T,
    /// Optional preset initial-state distribution.
    pub start_prob: Option<Vec<T>>,
    /// Optional preset transition matrix.
    pub trans_mat: Option<Matrix<T>>,
    /// Optional preset rates.
    pub lambdas: Option<Matrix<T>>,
}

impl<T: Dense> PoissonHmm<T> {
    /// There is a state; preset matrices are rectangular.
    pub open spec fn wf(&self) -> bool {
        &&& self.n_components >= 1
        &&& self.trans_mat matches Some(m) ==> m.wf()
        &&& self.lambdas matches Some(l) ==> l.wf()
    }

    /// The emission model that the builder describes.
    pub open spec fn emission(&self) -> PoissonEm<T> {
        PoissonEm {
            n_components: self.n_components,
            n_features: match self.lambdas {
                Some(l) => Some(l.ncols),
                None => None,
            },
            lambdas: self.lambdas,
            lambdas_preset: self.lambdas is Some,
            lambdas_prior: self.lambdas_prior,
            lambdas_weight: self.lambdas_weight,
        }
    }

    /// The groups that are initialised before fitting: those of `init_params` that
    /// nothing is preset for.
    pub open spec fn initialised(&self) -> Set<Param> {
        let s = self.init_params.members();
        let s = less(s, Param::Start, self.start_prob is Some);
        let s = less(s, Param::Trans, self.trans_mat is Some);
        let s = less(s, Param::Lambdas, self.lambdas is Some);
        s
    }

    /// `h` is the model that the builder describes.
    pub open spec fn builds(&self, h: &Hmm<T, PoissonEm<T>>) -> bool {
        &&& em_built(
            &h.inference,
            self.n_components,
            self.startprob_prior,
            self.transmat_prior,
            self.start_prob,
            self.trans_mat,
        )
        &&& h.emission == self.emission()
        &&& has_settings(
            h,
            self.algorithm,
            self.implementation,
            self.params,
            self.initialised(),
            self.n_iter,
            self.tol,
            self.verbose,
            self.random_state,
        )
        &&& h.wf()
    }

    /// A model with `n_components` states and the defaults: Viterbi decoding in
    /// log space, everything initialised and updated, at most 10 iterations with
    /// tolerance `1e-2`, no prior on the rates and nothing preset.
    pub fn new(n_components: usize) -> (r: Self)
        ensures
            r.n_components == n_components,
            r.algorithm == DecoderAlgorithm::Viterbi,
            r.implementation == Implementation::Log,
            forall|p: Param| r.params.members().contains(p) <==> "stl"@.contains(p.letter()),
            r.init_params == r.params,
            r.n_iter == 10,
            r.tol == dec::<T>(1, -2),
            !r.verbose,
            r.random_state is None,
            r.startprob_prior == num::<T>(1),
            r.transmat_prior == num::<T>(1),
            r.lambdas_prior == num::<T>(0),
            r.lambdas_weight == num::<T>(0),
            r.start_prob is None,
            r.trans_mat is None,
            r.lambdas is None,
    {
        let params = ParamSet::from_codes("stl");
        PoissonHmm {
            n_components,
            algorithm: DecoderAlgorithm::Viterbi,
            implementation: Implementation::Log,
            params,
            init_params: params,
            n_iter: 10,
            tol: T::decimal(1, -2),
            verbose: false,
            random_state: None,
            startprob_prior: one(),
            transmat_prior: one(),
            lambdas_prior: zero(),
            lambdas_weight: zero(),
            start_prob: None,
            trans_mat: None,
            lambdas: None,
        }
    }

    /// Sets the maximum number of iterations.
    pub fn n_iter(self, n: usize) -> (r: Self)
        ensures
            r == (Self { n_iter: n, ..self }),
    {
        let mut s = self;
        s.n_iter = n;
        s
    }

    /// Sets the convergence threshold on the per-iteration gain.
    pub fn tol(self, tol: T) -> (r: Self)
        ensures
            r == (Self { tol: tol, ..self }),
    {
        let mut s = self;
        s.tol = tol;
        s
    }

    /// Sets the decoding algorithm.
    pub fn algorithm(self, a: DecoderAlgorithm) -> (r: Self)
        ensures
            r == (Self { algorithm: a, ..self }),
    {
        let mut s = self;
        s.algorithm = a;
        s
    }

    /// Sets the forward-backward implementation.
    pub fn implementation(self, i: Implementation) -> (r: Self)
        ensures
            r == (Self { implementation: i, ..self }),
    {
        let mut s = self;
        s.implementation = i;
        s
    }

    /// Sets which parameters are updated, from letter codes (`s`, `t`, `l`).
    pub fn params(self, codes: &str) -> (r: Self)
        ensures
            r == (Self { params: r.params, ..self }),
            r.params.wf(),
            forall|p: Param| r.params.members().contains(p) <==> codes@.contains(p.letter()),
    {
        let mut s = self;
        s.params = ParamSet::from_codes(codes);
        s
    }

    /// Sets which parameters are initialised before fitting, from letter codes (`s`, `t`, `l`).
    pub fn init_params(self, codes: &str) -> (r: Self)
        ensures
            r == (Self { init_params: r.init_params, ..self }),
            r.init_params.wf(),
            forall|p: Param| r.init_params.members().contains(p) <==> codes@.contains(p.letter()),
    {
        let mut s = self;
        s.init_params = ParamSet::from_codes(codes);
        s
    }

    /// Sets the seed for initialisation and sampling.
    pub fn random_state(self, seed: u32) -> (r: Self)
        ensures
            r == (Self { random_state: Some(seed), ..self }),
    {
        let mut s = self;
        s.random_state = Some(seed);
        s
    }

    /// Sets whether each iteration is reported.
    pub fn verbose(self, v: bool) -> (r: Self)
        ensures
            r == (Self { verbose: v, ..self }),
    {
        let mut s = self;
        s.verbose = v;
        s
    }

    /// Sets the shape of the gamma prior on the rates.
    pub fn lambdas_prior(self, p: T) -> (r: Self)
        ensures
            r == (Self { lambdas_prior: p, ..self }),
    {
        let mut s = self;
        s.lambdas_prior = p;
        s
    }

    /// Sets the rate of the gamma prior on the rates.
    pub fn lambdas_weight(self, w: T) -> (r: Self)
        ensures
            r == (Self { lambdas_weight: w, ..self }),
    {
        let mut s = self;
        s.lambdas_weight = w;
        s
    }

    /// Presets the initial-state distribution.
    pub fn start_prob(self, sp: Vec<T>) -> (r: Self)
        ensures
            r == (Self { start_prob: Some(sp), ..self }),
    {
        let mut s = self;
        s.start_prob = Some(sp);
        s
    }

    /// Presets the transition matrix.
    pub fn trans_mat(self, tm: Matrix<T>) -> (r: Self)
        ensures
            r == (Self { trans_mat: Some(tm), ..self }),
    {
        let mut s = self;
        s.trans_mat = Some(tm);
        s
    }

    /// Presets the rates.
    pub fn lambdas(self, l: Matrix<T>) -> (r: Self)
        ensures
            r == (Self { lambdas: Some(l), ..self }),
    {
        let mut s = self;
        s.lambdas = Some(l);
        s
    }

    /// The unfitted model that the builder describes.
    pub fn build(self) -> (h: Hmm<T, PoissonEm<T>>)
        requires
            self.wf(),
        ensures
            self.builds(&h),
    {
        let n_features: Option<usize> = match &self.lambdas {
            Some(l) => Some(l.ncols),
            None => None,
        };
        let init_params = self.init_params
            .without(Param::Start, self.start_prob.is_some())
            .without(Param::Trans, self.trans_mat.is_some())
            .without(Param::Lambdas, self.lambdas.is_some());
        let inference = Em::new(
            self.n_components,
            self.startprob_prior,
            self.transmat_prior,
            self.start_prob,
            self.trans_mat,
        );
        let preset = self.lambdas.is_some();
        let emission = PoissonEm {
            n_components: self.n_components,
            n_features,
            lambdas: self.lambdas,
            lambdas_preset: preset,
            lambdas_prior: self.lambdas_prior,
            lambdas_weight: self.lambdas_weight,
        };
        Hmm {
            emission,
            inference,
            algorithm: self.algorithm,
            implementation: self.implementation,
            params: self.params,
            init_params,
            n_iter: self.n_iter,
            random_state: self.random_state,
            monitor: ConvergenceMonitor::new(self.tol, self.n_iter, self.verbose),
            notes: Vec::new(),
        }
    }

    /// Fit the model.
    pub fn fit(self, x: &Matrix<T>, lengths: Option<&[usize]>) -> (r: Result<
        Fitted<T, PoissonEm<T>>,
        HmmError,
    >)
        requires
            self.wf(),
            x.wf(),
            fit_ready(&self.emission(), self.initialised(), self.n_iter, x, lengths),
        ensures
            exists|h: Hmm<T, PoissonEm<T>>| #[trigger]
                self.builds(&h) && fit_result(&h, x, lengths, r),
    {
        self.build().fit(x, lengths)
    }

    /// Treat the preset parameters as fitted, after validation.
    pub fn into_fitted(self) -> (r: Result<Fitted<T, PoissonEm<T>>, HmmError>)
        requires
            self.wf(),
        ensures
            exists|h: Hmm<T, PoissonEm<T>>| #[trigger] self.builds(&h) && taken_as_fitted(&h, r),
    {
        self.build().into_fitted()
    }
}

} // verus!
