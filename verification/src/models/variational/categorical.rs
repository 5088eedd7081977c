//! Variational categorical model.
//!
//! Emission probabilities are Dirichlet distributions with a prior and a
//! posterior. The E-step uses the sub-normalised log-likelihood, from the digamma
//! of the posterior; scoring uses the normalised posterior.

use crate::counting::clamped_product;
use crate::engine::algorithms::ln_matrix;
use crate::engine::emission::EmissionModel;
use crate::engine::fit::{fit_ready, fit_result};
use crate::engine::fitted::{cumsum, first_above, first_gt, running_sums, Fitted};
use crate::engine::hmm::Hmm;
use crate::engine::inference::{
    gave_up, is_gave_up, normalized_rows, seed_or_zero, seeded_state, Inference,
};
use crate::engine::monitor::ConvergenceMonitor;
use crate::engine::params::{DecoderAlgorithm, Implementation, Param, ParamSet};
use crate::engine::variational::{
    prior_value, scaled_rows, times_all_rows, variational_built, Variational,
};
use crate::error::HmmError;
use crate::kl::{dirichlet_divergence, kl_dirichlet};
use crate::linalg::Dense;
use crate::matrix::{filled, row_sum, row_total, Matrix};
use crate::models::categorical::{
    add_symbols, check_symbols, is_max_symbol, look_up, max_symbol, symbol_mass, symbol_of,
    symbols_at_most, symbols_below, symbols_fit, symbols_flaw, whole_entries, CategoricalEm,
};
use crate::models::shared::{exp_matrix, has_settings, row_normalized};
use crate::rng::gamma::dirichlet_draws;
use crate::rng::state::{fresh_state, NumpyRandomState, RngView};
use crate::rng::uniform::sample_of;
use crate::scalar::{count, dec, num, one, zero, Scalar};
use crate::special::{digamma, digamma_of};
use crate::text::{decimal, digits, joined};
use vstd::prelude::*;
use vstd::string::StringExecFns;

verus! {

/// Emission statistics: per-state, per-symbol posterior mass.
pub struct VCatStats<T> {
    /// Accumulated posterior mass, `(n_components, n_features)`.
    pub obs: Matrix<T>,
}

/// Variational categorical emission model.
#[derive(Clone)]
pub struct VariationalCategoricalEm<T> {
    /// Number of hidden states.
    pub n_components: usize,
    /// Number of distinct symbols; `None` until inferred from data or set.
    pub n_features: Option<usize>,
    /// Normalised posterior, for scoring and sampling.
    pub emissionprob: Option<Matrix<T>>,
    /// Dirichlet prior concentrations.
    pub prior: Option<Matrix<T>>,
    /// Dirichlet posterior concentrations.
    pub posterior: Option<Matrix<T>>,
    /// Sub-normalised log-probabilities, for fitting.
    pub log_subnorm: Option<Matrix<T>>,
    /// Scalar prior; `None` is `1 / n_features`.
    pub emissionprob_prior_scalar: Option<T>,
    /// Whether the posterior is set and must not be drawn again.
    pub posterior_preset: bool,
}

/// `table` holds `digamma(a) - digamma(sum a)` for the entries of each row of
/// `post`.
pub open spec fn is_log_subnormal<T: Scalar>(post: &Matrix<T>, table: &Matrix<T>) -> bool {
    table.has_dims(post.rows.len() as int, post.ncols as int) && forall|c: int, f: int|
        0 <= c < post.rows.len() && 0 <= f < post.ncols ==> #[trigger] table.at(c, f) == digamma_of(
            post.at(c, f),
        ).s_minus(digamma_of(row_total(post, c)))
}

/// The sub-normalised log-probabilities of a posterior.
fn log_subnormal<T: Scalar>(post: &Matrix<T>) -> (table: Matrix<T>)
    requires
        post.wf(),
    ensures
        is_log_subnormal(post, &table),
{
    let mut sums: Vec<T> = Vec::new();
    let mut c: usize = 0;
    while c < post.rows.len()
        invariant
            c <= post.rows.len(),
            post.wf(),
            sums.len() == c,
            forall|k: int| 0 <= k < c ==> #[trigger] sums@[k] == digamma_of(row_total(post, k)),
        decreases post.rows.len() - c,
    {
        sums.push(digamma(row_sum(post, c)));
        c += 1;
    }
    let f = |c: usize, f: usize| -> (v: T)
        requires
            post.wf(),
            c < post.rows.len(),
            f < post.ncols,
            sums.len() == post.rows.len(),
        ensures
            v == digamma_of(post.at(c as int, f as int)).s_minus(sums@[c as int]),
    {
        digamma(post.get(c, f)).minus(sums[c])
    };
    Matrix::tabulate(post.rows.len(), post.ncols, f)
}

/// `a + b`, entry by entry.
pub open spec fn is_sum<T: Scalar>(a: &Matrix<T>, b: &Matrix<T>, r: &Matrix<T>) -> bool {
    r.has_dims(a.rows.len() as int, a.ncols as int) && forall|c: int, f: int|
        0 <= c < a.rows.len() && 0 <= f < a.ncols ==> #[trigger] r.at(c, f) == a.at(c, f).s_plus(
            b.at(c, f),
        )
}

fn sum_matrices<T: Scalar>(a: &Matrix<T>, b: &Matrix<T>) -> (r: Matrix<T>)
    requires
        a.wf(),
        b.has_dims(a.rows.len() as int, a.ncols as int),
    ensures
        is_sum(a, b, &r),
{
    let f = |c: usize, f: usize| -> (v: T)
        requires
            a.wf(),
            b.has_dims(a.rows.len() as int, a.ncols as int),
            c < a.rows.len(),
            f < a.ncols,
        ensures
            v == a.at(c as int, f as int).s_plus(b.at(c as int, f as int)),
    {
        a.get(c, f).plus(b.get(c, f))
    };
    Matrix::tabulate(a.rows.len(), a.ncols, f)
}

/// The error text for a symbol that the model does not emit.
pub open spec fn symbol_limit_message(k: int, nf: int) -> Seq<char> {
    "Largest symbol is "@ + digits(k as nat) + " but the model only emits up to "@ + digits(
        (nf - 1) as nat,
    )
}

impl<T: Scalar> VariationalCategoricalEm<T> {
    /// The number of symbols, where it is known.
    pub open spec fn symbols(&self) -> int {
        self.n_features->0 as int
    }

    /// There is a symbol where their number is known. Once there is a posterior
    /// there is a prior, and the derived tables have the posterior's shape.
    pub open spec fn ok(&self) -> bool {
        &&& self.n_features matches Some(nf) ==> nf >= 1
        &&& self.posterior_preset ==> self.posterior is Some
        &&& self.prior matches Some(p) ==> p.wf()
        &&& self.posterior matches Some(q) ==> {
            &&& q.wf()
            &&& self.n_features is Some
            &&& self.emissionprob matches Some(ep) && ep.has_dims(
                q.rows.len() as int,
                q.ncols as int,
            )
            &&& self.log_subnorm matches Some(ls) && ls.has_dims(
                q.rows.len() as int,
                q.ncols as int,
            )
        }
    }

    /// Everything is set and has the right shape.
    pub open spec fn shaped(&self) -> bool {
        let nc = self.n_components as int;
        let nf = self.symbols();
        &&& self.n_features is Some
        &&& self.prior matches Some(p) && p.has_dims(nc, nf)
        &&& self.posterior matches Some(q) && q.has_dims(nc, nf)
        &&& self.emissionprob matches Some(ep) && ep.has_dims(nc, nf)
        &&& self.log_subnorm matches Some(ls) && ls.has_dims(nc, nf)
    }

    fn nf(&self) -> (n: usize)
        requires
            self.n_features is Some,
        ensures
            Some(n) == self.n_features,
    {
        match self.n_features {
            Some(n) => n,
            None => 0,
        }
    }

    /// The normalised emission probabilities.
    pub fn emissionprob(&self) -> (r: &Matrix<T>)
        requires
            self.emissionprob is Some,
        ensures
            Some(*r) == self.emissionprob,
    {
        match &self.emissionprob {
            Some(ep) => ep,
            None => vstd::pervasive::unreached(),
        }
    }

    /// The Dirichlet posterior over emission probabilities.
    pub fn emissionprob_posterior(&self) -> (r: &Matrix<T>)
        requires
            self.posterior is Some,
        ensures
            Some(*r) == self.posterior,
    {
        match &self.posterior {
            Some(q) => q,
            None => vstd::pervasive::unreached(),
        }
    }

    fn prior(&self) -> (r: &Matrix<T>)
        requires
            self.prior is Some,
        ensures
            Some(*r) == self.prior,
    {
        match &self.prior {
            Some(p) => p,
            None => vstd::pervasive::unreached(),
        }
    }

    fn log_subnorm(&self) -> (r: &Matrix<T>)
        requires
            self.log_subnorm is Some,
        ensures
            Some(*r) == self.log_subnorm,
    {
        match &self.log_subnorm {
            Some(ls) => ls,
            None => vstd::pervasive::unreached(),
        }
    }

    /// The posterior is drawn anew.
    pub open spec fn draws(&self, init: ParamSet) -> bool {
        init.members().contains(Param::Emit) || !self.posterior_preset
    }

    /// The rows that the posterior is drawn from: Dirichlet draws under the scalar
    /// prior.
    pub open spec fn drawn(&self, seed: Option<u32>) -> Option<Seq<Seq<T>>> {
        dirichlet_draws(
            fresh_state::<T>(seed_or_zero(seed)),
            Seq::new(
                self.symbols() as nat,
                |i: int| prior_value(self.emissionprob_prior_scalar, self.symbols()),
            ),
            self.n_components as int,
        ).1
    }

    /// The bound after the first `n` states: less the divergence of each posterior
    /// row from its prior.
    pub open spec fn bound_upto(&self, n: int) -> T
        decreases n,
    {
        if n <= 0 {
            num(0)
        } else {
            self.bound_upto(n - 1).s_minus(
                dirichlet_divergence(
                    self.posterior->0.rows@[n - 1]@,
                    self.prior->0.rows@[n - 1]@,
                ),
            )
        }
    }
}

impl<T: Dense> EmissionModel<T> for VariationalCategoricalEm<T> {
    type Inference = Variational<T>;

    type Stats = VCatStats<T>;

    open spec fn wf(&self) -> bool {
        self.ok()
    }

    open spec fn states(&self) -> int {
        self.n_components as int
    }

    open spec fn featured(&self) -> bool {
        self.n_features is Some
    }

    open spec fn features(&self) -> int {
        self.symbols()
    }

    open spec fn columns(&self) -> int {
        1
    }

    open spec fn fits(&self) -> bool {
        self.shaped()
    }

    open spec fn valid(&self, nc: int) -> bool {
        &&& self.posterior matches Some(q) && q.dims() == (nc, self.symbols())
        &&& self.prior matches Some(p) && p.dims() == (nc, self.symbols())
    }

    open spec fn readable(&self, x: &Matrix<T>) -> bool {
        symbols_fit(x)
    }

    open spec fn initable(&self, x: &Matrix<T>, init: Set<Param>) -> bool {
        true
    }

    open spec fn scannable(&self, x: &Matrix<T>) -> bool {
        x.ncols >= 1
    }

    open spec fn matched(&self, x: &Matrix<T>) -> bool {
        true
    }

    open spec fn refused_rel(&self, x: &Matrix<T>, after: &Self) -> bool {
        *after == *self
    }

    open spec fn accepts(&self, x: &Matrix<T>) -> bool {
        whole_entries(x) && (self.n_features matches Some(nf) ==> symbols_at_most(x, nf - 1))
    }

    open spec fn refusal(&self, x: &Matrix<T>, e: HmmError) -> bool {
        e matches HmmError::InvalidParameter(m) && if whole_entries(x) {
            exists|k: int|
                is_max_symbol(x, k) && self.symbols() <= k && m@ == #[trigger]
                symbol_limit_message(k, self.symbols())
        } else {
            symbols_flaw(x, m@)
        }
    }

    open spec fn flaw(&self, nc: int, e: HmmError) -> bool {
        if self.posterior is None || self.prior is None {
            e == HmmError::NotFitted
        } else if self.posterior->0.dims() != self.prior->0.dims() {
            e matches HmmError::DimensionMismatch(m) && m@
                == "emissionprob prior/posterior must have the same shape"@
        } else {
            e matches HmmError::DimensionMismatch(m) && m@
                == "emissionprob_ must have shape (n_components, n_features)"@
        }
    }

    open spec fn init_flaw(&self, e: HmmError) -> bool {
        is_gave_up(e)
    }

    open spec fn mstep_flaw(&self, e: HmmError) -> bool {
        false
    }

    open spec fn observable(&self, x: &Matrix<T>) -> bool {
        symbols_below(x, self.symbols())
    }

    open spec fn owned_params() -> Seq<Param> {
        seq![Param::Emit]
    }

    open spec fn scalars(&self, nc: int, params: ParamSet) -> int {
        if params.members().contains(Param::Emit) {
            nc * (self.symbols() - 1)
        } else {
            0
        }
    }

    open spec fn set_rel(&self, x: &Matrix<T>, after: &Self) -> bool {
        &&& *after == (Self { n_features: after.n_features, ..*self })
        &&& after.n_features is Some
        &&& match self.n_features {
            Some(nf) => after.n_features == Some(nf),
            None => is_max_symbol(x, after.symbols() - 1),
        }
    }

    open spec fn init_ok(&self, x: &Matrix<T>, init: ParamSet, seed: Option<u32>) -> bool {
        self.draws(init) ==> self.drawn(seed) is Some
    }

    /// The prior is that of the scalar; each posterior row is its draw times the
    /// samples per state.
    open spec fn init_rel(
        &self,
        x: &Matrix<T>,
        init: ParamSet,
        seed: Option<u32>,
        after: &Self,
    ) -> bool {
        let nc = self.n_components as int;
        let nf = self.symbols();
        &&& *after == (Self {
            emissionprob: after.emissionprob,
            prior: after.prior,
            posterior: after.posterior,
            log_subnorm: after.log_subnorm,
            posterior_preset: true,
            ..*self
        })
        &&& after.posterior matches Some(q)
        &&& after.emissionprob matches Some(ep)
        &&& normalized_rows(&q, &ep)
        &&& if self.draws(init) {
            &&& after.prior matches Some(p)
            &&& p.has_dims(nc, nf)
            &&& forall|c: int, f: int|
                0 <= c < nc && 0 <= f < nf ==> #[trigger] p.at(c, f) == prior_value(
                    self.emissionprob_prior_scalar,
                    nf,
                )
            &&& q.has_dims(nc, nf)
            &&& self.drawn(seed) matches Some(d)
            &&& q@ == times_all_rows(d, num::<T>(x.rows.len() as int).s_over(num(nc)))
            &&& after.log_subnorm matches Some(ls)
            &&& is_log_subnormal(&q, &ls)
        } else {
            &&& after.prior == self.prior
            &&& after.posterior == self.posterior
            &&& after.log_subnorm == self.log_subnorm
        }
    }

    open spec fn log_like(&self, x: &Matrix<T>, t: int, c: int) -> T {
        self.emissionprob->0.at(c, symbol_of(x.at(t, 0))).s_ln()
    }

    open spec fn like(&self, x: &Matrix<T>, t: int, c: int) -> T {
        self.emissionprob->0.at(c, symbol_of(x.at(t, 0))).s_ln().s_exp()
    }

    open spec fn fit_log_like(&self, x: &Matrix<T>, t: int, c: int) -> T {
        self.log_subnorm->0.at(c, symbol_of(x.at(t, 0)))
    }

    open spec fn fit_like(&self, x: &Matrix<T>, t: int, c: int) -> T {
        self.log_subnorm->0.at(c, symbol_of(x.at(t, 0))).s_exp()
    }

    open spec fn stats_fit(&self, stats: &VCatStats<T>) -> bool {
        stats.obs.has_dims(self.n_components as int, self.symbols())
    }

    open spec fn zero_stats(&self, stats: &VCatStats<T>) -> bool {
        self.stats_fit(stats) && forall|c: int, s: int|
            0 <= c < self.n_components && 0 <= s < self.symbols() ==> #[trigger] stats.obs.at(c, s)
                == num::<T>(0)
    }

    open spec fn accumulate_rel(
        &self,
        before: &VCatStats<T>,
        x: &Matrix<T>,
        post: &Matrix<T>,
        params: ParamSet,
        after: &VCatStats<T>,
    ) -> bool {
        if params.members().contains(Param::Emit) {
            self.stats_fit(after) && forall|c: int, s: int|
                0 <= c < self.n_components && 0 <= s < self.symbols() ==> #[trigger] after.obs.at(
                    c,
                    s,
                ) == symbol_mass(before.obs.at(c, s), x, post, c, s, x.rows.len() as int)
        } else {
            *after == *before
        }
    }

    open spec fn mstep_ok(&self, stats: &VCatStats<T>, params: ParamSet) -> bool {
        true
    }

    /// The posterior is the prior plus the posterior mass.
    open spec fn mstep_rel(&self, stats: &VCatStats<T>, params: ParamSet, after: &Self) -> bool {
        if params.members().contains(Param::Emit) {
            &&& *after == (Self {
                emissionprob: after.emissionprob,
                posterior: after.posterior,
                ..*self
            })
            &&& after.posterior matches Some(q)
            &&& is_sum(&self.prior->0, &stats.obs, &q)
            &&& after.emissionprob matches Some(ep)
            &&& normalized_rows(&q, &ep)
        } else {
            *after == *self
        }
    }

    open spec fn samplable(&self) -> bool {
        true
    }

    open spec fn draw(&self, state: int, s: RngView<T>) -> (RngView<T>, Option<Seq<T>>) {
        let cdf = running_sums(self.emissionprob->0.row_view(state));
        (s.sampled(), Some(seq![num::<T>(first_above(cdf, sample_of::<T>(s.mt), 0))]))
    }

    open spec fn contribution(&self) -> Option<T> {
        Some(self.bound_upto(self.n_components as int))
    }

    /// The sub-normalised log-probabilities are those of the current posterior.
    open spec fn begin_rel(&self, after: &Self) -> bool {
        &&& *after == (Self { log_subnorm: after.log_subnorm, ..*self })
        &&& after.log_subnorm matches Some(ls)
        &&& is_log_subnormal(&self.posterior->0, &ls)
    }

    proof fn slices_observable(&self, x: &Matrix<T>, begin: int, end: int, sub: &Matrix<T>) {
        assert forall|t: int| 0 <= t < sub.rows.len() implies symbol_of(#[trigger] sub.at(t, 0))
            < self.symbols() by {
            assert(sub@[t] == x@[begin + t]);
            assert(sub.at(t, 0) == x.at(begin + t, 0));
        }
    }

    proof fn likelihoods_of_row(&self, x: &Matrix<T>, t: int, y: &Matrix<T>, u: int, c: int) {
        assert(x.at(t, 0) == y.at(u, 0));
    }

    proof fn fits_featured(&self) {
    }

    fn emission_params() -> (r: Vec<Param>) {
        let mut v: Vec<Param> = Vec::new();
        v.push(Param::Emit);
        proof {
            assert(v@ =~= seq![Param::Emit]);
        }
        v
    }

    fn n_features(&self) -> (n: usize) {
        self.nf()
    }

    fn check_and_set_n_features(&mut self, x: &Matrix<T>) -> (r: Result<(), HmmError>) {
        match check_symbols(x) {
            Ok(_) => {},
            Err(e) => {
                return Err(e);
            },
        }
        let k: usize = max_symbol(x);
        match self.n_features {
            Some(nf) => {
                if nf <= k {
                    let mut m = joined("Largest symbol is ", decimal(k).as_str());
                    m.append(" but the model only emits up to ");
                    m.append(decimal(nf - 1).as_str());
                    proof {
                        assert(old(self).symbols() == nf);
                        assert(is_max_symbol(x, k as int));
                        assert(m@ =~= symbol_limit_message(k as int, old(self).symbols()));
                        if symbols_at_most(x, nf - 1) {
                            assert(k == 0);
                        }
                    }
                    return Err(HmmError::InvalidParameter(m));
                }
            },
            None => {
                self.n_features = Some(k + 1);
            },
        }
        Ok(())
    }

    fn init(&mut self, x: &Matrix<T>, init: ParamSet, seed: Option<u32>) -> (r: Result<
        (),
        HmmError,
    >) {
        if init.contains(Param::Emit) || !self.posterior_preset {
            let nc: usize = self.n_components;
            let nf: usize = self.nf();
            let p = match self.emissionprob_prior_scalar {
                Some(p) => p,
                None => one::<T>().over(count(nf)),
            };
            let alpha = filled(nf, p);
            proof {
                assert(alpha@ =~= Seq::new(
                    self.symbols() as nat,
                    |i: int| prior_value(self.emissionprob_prior_scalar, self.symbols()),
                ));
            }
            let mut rng: NumpyRandomState<T> = seeded_state(seed);
            match rng.dirichlet_rows(&alpha, nc) {
                Some(rows) => {
                    let q = scaled_rows(&rows, count::<T>(x.rows.len()).over(count(nc)));
                    self.prior = Some(Matrix::constant(nc, nf, p));
                    self.log_subnorm = Some(log_subnormal(&q));
                    self.posterior = Some(q);
                },
                None => {
                    return Err(gave_up());
                },
            }
        }
        self.posterior_preset = true;
        let ep = row_normalized(self.emissionprob_posterior());
        self.emissionprob = Some(ep);
        Ok(())
    }

    fn check(&self, n_components: usize) -> (r: Result<(), HmmError>) {
        match (&self.posterior, &self.prior) {
            (Some(q), Some(p)) => {
                if q.rows.len() != p.rows.len() || q.ncols != p.ncols {
                    return Err(
                        HmmError::DimensionMismatch(
                            "emissionprob prior/posterior must have the same shape".to_owned(),
                        ),
                    );
                }
                if q.rows.len() != n_components || q.ncols != self.nf() {
                    return Err(
                        HmmError::DimensionMismatch(
                            "emissionprob_ must have shape (n_components, n_features)".to_owned(),
                        ),
                    );
                }
                Ok(())
            },
            _ => Err(HmmError::NotFitted),
        }
    }

    fn n_fit_scalars(&self, n_components: usize, params: ParamSet) -> (n: usize) {
        let nf: usize = self.nf();
        assert(0 <= n_components * (nf - 1)) by (nonlinear_arith)
            requires
                nf >= 1,
        ;
        if params.contains(Param::Emit) {
            clamped_product(n_components, nf - 1)
        } else {
            0
        }
    }

    fn log_likelihood(&self, x: &Matrix<T>) -> (r: Matrix<T>) {
        ln_matrix(&look_up(self.emissionprob(), x))
    }

    fn likelihood(&self, x: &Matrix<T>) -> (r: Matrix<T>) {
        exp_matrix(&ln_matrix(&look_up(self.emissionprob(), x)))
    }

    fn fit_log_likelihood(&self, x: &Matrix<T>) -> (r: Matrix<T>) {
        look_up(self.log_subnorm(), x)
    }

    fn fit_likelihood(&self, x: &Matrix<T>) -> (r: Matrix<T>) {
        exp_matrix(&look_up(self.log_subnorm(), x))
    }

    fn init_stats(&self) -> (r: VCatStats<T>) {
        VCatStats { obs: Matrix::constant(self.n_components, self.nf(), zero()) }
    }

    fn accumulate(
        &self,
        stats: &mut VCatStats<T>,
        x: &Matrix<T>,
        posteriors: &Matrix<T>,
        params: ParamSet,
    ) {
        if !params.contains(Param::Emit) {
            return;
        }
        add_symbols(&mut stats.obs, x, posteriors);
    }

    fn mstep(&mut self, stats: &VCatStats<T>, params: ParamSet) -> (r: Result<(), HmmError>) {
        if params.contains(Param::Emit) {
            let q = sum_matrices(self.prior(), &stats.obs);
            self.emissionprob = Some(row_normalized(&q));
            self.posterior = Some(q);
        }
        Ok(())
    }

    fn sample_state(&self, state: usize, rng: &mut NumpyRandomState<T>) -> (r: Option<Vec<T>>) {
        let ep = self.emissionprob();
        assert(ep.rows[state as int].len() == ep.ncols);
        let cdf = cumsum(&ep.rows[state]);
        let symbol: usize = first_gt(&cdf, rng.random_sample());
        let mut v: Vec<T> = Vec::new();
        v.push(count(symbol));
        proof {
            assert(v@ =~= seq![num::<T>(symbol as int)]);
        }
        Some(v)
    }

    fn lower_bound_contribution(&self) -> (r: Option<T>) {
        let nc: usize = self.n_components;
        let q = self.emissionprob_posterior();
        let p = self.prior();
        let mut lb = zero::<T>();
        let mut i: usize = 0;
        while i < nc
            invariant
                i <= nc,
                nc == self.n_components,
                self.shaped(),
                self.posterior == Some(*q),
                self.prior == Some(*p),
                lb == self.bound_upto(i as int),
            decreases nc - i,
        {
            assert(q.rows[i as int].len() == q.ncols);
            assert(p.rows[i as int].len() == p.ncols);
            lb = lb.minus(kl_dirichlet(&q.rows[i], &p.rows[i]));
            i += 1;
        }
        Some(lb)
    }

    fn estep_begin(&mut self) {
        let ls = log_subnormal(self.emissionprob_posterior());
        self.log_subnorm = Some(ls);
    }
}

/// A variational model scores and draws as the categorical model whose emission
/// probabilities are the normalised posterior.
pub proof fn scores_as_point_estimate<T: Dense>(
    v: &VariationalCategoricalEm<T>,
    em: &CategoricalEm<T>,
    x: &Matrix<T>,
    t: int,
    c: int,
    s: RngView<T>,
)
    requires
        v.emissionprob == em.emissionprob,
    ensures
        v.log_like(x, t, c) == em.log_like(x, t, c),
        v.draw(c, s) == em.draw(c, s),
{
}

/// Builder for variational categorical models.
///
/// A variational model is always obtained by fitting.
#[derive(Clone)]
pub struct VariationalCategoricalHmm<T> {
    /// Number of hidden states.
    pub n_components: usize,
    /// Number of distinct symbols; `None` lets fitting infer it from the data.
    pub n_features: Option<usize>,
    /// Decoding algorithm.
    pub algorithm: DecoderAlgorithm,
    /// Forward-backward implementation.
    pub implementation: Implementation,
    /// Which parameters are updated.
    pub params: ParamSet,
    /// Which parameters are initialised before fitting.
    pub init_params: ParamSet,
    /// Maximum number of iterations.
    pub n_iter: usize,
    /// Convergence threshold on the per-iteration gain of the bound.
    pub tol: T,
    /// Whether each iteration is reported.
    pub verbose: bool,
    /// Seed for initialisation.
    pub random_state: Option<u32>,
    /// Optional Dirichlet prior on the initial-state distribution.
    pub startprob_prior: Option<Vec<T>>,
    /// Optional preset Dirichlet posterior over the initial-state distribution.
    pub startprob_posterior: Option<Vec<T>>,
    /// Optional Dirichlet prior on the transition rows.
    pub transmat_prior: Option<Matrix<T>>,
    /// Optional preset Dirichlet posterior over the transition rows.
    pub transmat_posterior: Option<Matrix<T>>,
}

impl<T: Dense> VariationalCategoricalHmm<T> {
    /// The emission model that the builder describes.
    pub open spec fn emission(&self) -> VariationalCategoricalEm<T> {
        VariationalCategoricalEm {
            n_components: self.n_components,
            n_features: self.n_features,
            emissionprob: None,
            prior: None,
            posterior: None,
            log_subnorm: None,
            emissionprob_prior_scalar: None,
            posterior_preset: false,
        }
    }

    /// There is a state and, where their number is given, a symbol; given matrices
    /// are rectangular.
    pub open spec fn wf(&self) -> bool {
        &&& self.n_components >= 1
        &&& self.n_features matches Some(nf) ==> nf >= 1
        &&& self.transmat_prior matches Some(m) ==> m.wf()
        &&& self.transmat_posterior matches Some(m) ==> m.wf()
    }

    /// `h` is the model that the builder describes.
    pub open spec fn builds(&self, h: &Hmm<T, VariationalCategoricalEm<T>>) -> bool {
        &&& variational_built(
            &h.inference,
            self.n_components,
            None,
            None,
            self.startprob_prior,
            self.startprob_posterior,
            self.transmat_prior,
            self.transmat_posterior,
        )
        &&& h.emission == self.emission()
        &&& has_settings(
            h,
            self.algorithm,
            self.implementation,
            self.params,
            self.init_params.members(),
            self.n_iter,
            self.tol,
            self.verbose,
            self.random_state,
        )
        &&& h.wf()
    }

    /// A model with `n_components` states and the defaults: Viterbi decoding in
    /// log space, everything initialised and updated, at most 100 iterations with
    /// tolerance `1e-6`, priors of one over the number of outcomes.
    pub fn new(n_components: usize) -> (r: Self)
        ensures
            r.n_components == n_components,
            r.n_features is None,
            r.algorithm == DecoderAlgorithm::Viterbi,
            r.implementation == Implementation::Log,
            forall|p: Param| r.params.members().contains(p) <==> "ste"@.contains(p.letter()),
            r.init_params == r.params,
            r.n_iter == 100,
            r.tol == dec::<T>(1, -6),
            !r.verbose,
            r.random_state is None,
            r.startprob_prior is None,
            r.startprob_posterior is None,
            r.transmat_prior is None,
            r.transmat_posterior is None,
    {
        let params = ParamSet::from_codes("ste");
        VariationalCategoricalHmm {
            n_components,
            n_features: None,
            algorithm: DecoderAlgorithm::Viterbi,
            implementation: Implementation::Log,
            params,
            init_params: params,
            n_iter: 100,
            tol: T::decimal(1, -6),
            verbose: false,
            random_state: None,
            startprob_prior: None,
            startprob_posterior: None,
            transmat_prior: None,
            transmat_posterior: None,
        }
    }

    /// Sets the number of distinct symbols the model emits.
    pub fn n_features(self, nf: usize) -> (r: Self)
        ensures
            r == (Self { n_features: Some(nf), ..self }),
    {
        let mut s = self;
        s.n_features = Some(nf);
        s
    }

    /// Sets the maximum number of iterations.
    pub fn n_iter(self, n: usize) -> (r: Self)
        ensures
            r == (Self { n_iter: n, ..self }),
    {
        let mut s = self;
        s.n_iter = n;
        s
    }

    /// Sets the convergence threshold on the per-iteration gain.
    pub fn tol(self, tol: T) -> (r: Self)
        ensures
            r == (Self { tol: tol, ..self }),
    {
        let mut s = self;
        s.tol = tol;
        s
    }

    /// Sets the forward-backward implementation.
    pub fn implementation(self, i: Implementation) -> (r: Self)
        ensures
            r == (Self { implementation: i, ..self }),
    {
        let mut s = self;
        s.implementation = i;
        s
    }

    /// Sets which parameters are updated, from letter codes (`s`, `t`, `e`).
    pub fn params(self, codes: &str) -> (r: Self)
        ensures
            r == (Self { params: r.params, ..self }),
            r.params.wf(),
            forall|p: Param| r.params.members().contains(p) <==> codes@.contains(p.letter()),
    {
        let mut s = self;
        s.params = ParamSet::from_codes(codes);
        s
    }

    /// Sets which parameters are initialised before fitting, from letter codes (`s`, `t`, `e`).
    pub fn init_params(self, codes: &str) -> (r: Self)
        ensures
            r == (Self { init_params: r.init_params, ..self }),
            r.init_params.wf(),
            forall|p: Param| r.init_params.members().contains(p) <==> codes@.contains(p.letter()),
    {
        let mut s = self;
        s.init_params = ParamSet::from_codes(codes);
        s
    }

    /// Sets the seed for initialisation and sampling.
    pub fn random_state(self, seed: u32) -> (r: Self)
        ensures
            r == (Self { random_state: Some(seed), ..self }),
    {
        let mut s = self;
        s.random_state = Some(seed);
        s
    }

    /// Sets the Dirichlet prior on the initial-state distribution.
    pub fn startprob_prior(self, p: Vec<T>) -> (r: Self)
        ensures
            r == (Self { startprob_prior: Some(p), ..self }),
    {
        let mut s = self;
        s.startprob_prior = Some(p);
        s
    }

    /// Presets the Dirichlet posterior over the initial-state distribution.
    pub fn startprob_posterior(self, p: Vec<T>) -> (r: Self)
        ensures
            r == (Self { startprob_posterior: Some(p), ..self }),
    {
        let mut s = self;
        s.startprob_posterior = Some(p);
        s
    }

    /// Sets the Dirichlet prior on the transition rows.
    pub fn transmat_prior(self, p: Matrix<T>) -> (r: Self)
        ensures
            r == (Self { transmat_prior: Some(p), ..self }),
    {
        let mut s = self;
        s.transmat_prior = Some(p);
        s
    }

    /// Presets the Dirichlet posterior over the transition rows.
    pub fn transmat_posterior(self, p: Matrix<T>) -> (r: Self)
        ensures
            r == (Self { transmat_posterior: Some(p), ..self }),
    {
        let mut s = self;
        s.transmat_posterior = Some(p);
        s
    }

    /// The unfitted model that the builder describes.
    pub fn build(self) -> (h: Hmm<T, VariationalCategoricalEm<T>>)
        requires
            self.wf(),
        ensures
            self.builds(&h),
    {
        let inference = Variational::new(
            self.n_components,
            None,
            None,
            self.startprob_prior,
            self.startprob_posterior,
            self.transmat_prior,
            self.transmat_posterior,
        );
        let emission = VariationalCategoricalEm {
            n_components: self.n_components,
            n_features: self.n_features,
            emissionprob: None,
            prior: None,
            posterior: None,
            log_subnorm: None,
            emissionprob_prior_scalar: None,
            posterior_preset: false,
        };
        Hmm {
            emission,
            inference,
            algorithm: self.algorithm,
            implementation: self.implementation,
            params: self.params,
            init_params: self.init_params,
            n_iter: self.n_iter,
            random_state: self.random_state,
            monitor: ConvergenceMonitor::new(self.tol, self.n_iter, self.verbose),
            notes: Vec::new(),
        }
    }

    /// Fit the model.
    pub fn fit(self, x: &Matrix<T>, lengths: Option<&[usize]>) -> (r: Result<
        Fitted<T, VariationalCategoricalEm<T>>,
        HmmError,
    >)
        requires
            self.wf(),
            x.wf(),
            fit_ready(&self.emission(), self.init_params.members(), self.n_iter, x, lengths),
        ensures
            exists|h: Hmm<T, VariationalCategoricalEm<T>>| #[trigger]
                self.builds(&h) && fit_result(&h, x, lengths, r),
    {
        self.build().fit(x, lengths)
    }
}

} // verus!
