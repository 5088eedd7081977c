//! Multinomial model.
//!
//! Each observation is a vector of counts. With one trial per observation
//! (one-hot rows) it reduces to the categorical model.

use crate::counting::clamped_product;
use crate::engine::emission::EmissionModel;
use crate::engine::fit::{fit_ready, fit_result, taken_as_fitted};
use crate::engine::fitted::Fitted;
use crate::engine::hmm::Hmm;
use crate::engine::inference::{normalized_rows, Em, Inference};
use crate::engine::monitor::ConvergenceMonitor;
use crate::engine::params::{less, DecoderAlgorithm, Implementation, Param, ParamSet};
use crate::error::HmmError;
use crate::linalg::Dense;
use crate::matrix::{tabulate, Matrix};
use crate::models::categorical::{
    entries_before_whole, is_whole, symbol_of, whole_entries, CategoricalEm,
};
use crate::models::shared::{
    add_products, columns_message, confirm_features, em_built, exp_matrix, gains_products,
    has_settings, is_random_matrix, random_matrix, row_normalized,
};
use crate::rng::discrete::{allotted, multinomial_counts};
use crate::rng::state::{NumpyRandomState, RngView};
use crate::scalar::{dec, num, one, sigma, sigma_ext, sum_of, zero, Scalar};
use crate::util::normalize_axis;
use vstd::prelude::*;

verus! {

/// `x ln(y)`, zero where `x` is zero.
pub open spec fn x_log_y<T: Scalar>(x: T, y: T) -> T {
    if x.s_same(num(0)) {
        num(0)
    } else {
        x.s_times(y.s_ln())
    }
}

/// `x ln(y)`, zero where `x` is zero.
fn xlogy<T: Scalar>(x: T, y: T) -> (r: T)
    ensures
        r == x_log_y(x, y),
{
    if x.same(zero()) {
        zero()
    } else {
        x.times(y.ln())
    }
}

/// Emission statistics: per-state posterior-weighted counts.
pub struct MultinomialStats<T> {
    /// Accumulated counts, `(n_components, n_features)`.
    pub obs: Matrix<T>,
}

/// Multinomial emission model.
#[derive(Clone)]
pub struct MultinomialEm<T> {
    /// Number of hidden states.
    pub n_components: usize,
    /// Number of categories; `None` until inferred from data or set.
    pub n_features: Option<usize>,
    /// Emission matrix, `(n_components, n_features)`; `None` until initialised.
    pub emissionprob: Option<Matrix<T>>,
    /// Whether `emissionprob` is set and must not be drawn again.
    pub emissionprob_preset: bool,
    /// Number of trials per observation; `None` takes it from each row.
    pub n_trials: Option<i64>,
    /// Whether the number of trials was taken from data.
    pub n_trials_inferred: bool,
}

/// The number of trials of row `t`: its counts, added from the left.
pub open spec fn trials_of<T: Scalar>(x: &Matrix<T>, t: int) -> T {
    sigma(x.ncols as int, |f: int| x.at(t, f))
}

/// The number of trials of row `t`.
fn trials<T: Scalar>(x: &Matrix<T>, t: usize) -> (r: T)
    requires
        x.wf(),
        t < x.rows.len(),
    ensures
        r == trials_of(x, t as int),
{
    let f = |f: usize| -> (v: T)
        requires
            x.wf(),
            t < x.rows.len(),
            f < x.ncols,
        ensures
            v == x.at(t as int, f as int),
    {
        x.get(t, f)
    };
    sum_of(x.ncols, f, Ghost(|f: int| x.at(t as int, f)))
}

/// Every row adds up to `nt`.
pub open spec fn rows_total<T: Scalar>(x: &Matrix<T>, nt: i64) -> bool {
    forall|t: int| 0 <= t < x.rows.len() ==> (#[trigger] trials_of(x, t)).s_to_int() == nt
}

/// The number that every row adds up to, where there is a row and they agree.
pub open spec fn shared_total<T: Scalar>(x: &Matrix<T>) -> Option<i64> {
    if x.rows.len() >= 1 && rows_total(x, trials_of(x, 0).s_to_int()) {
        Some(trials_of(x, 0).s_to_int())
    } else {
        None
    }
}

impl<T: Scalar> MultinomialEm<T> {
    /// Stored arrays are rectangular, come with a number of categories, and there
    /// is at least one category.
    pub open spec fn ok(&self) -> bool {
        &&& self.emissionprob matches Some(ep) ==> ep.wf() && self.n_features is Some
        &&& self.n_features matches Some(nf) ==> nf >= 1
    }

    /// The number of categories, where it is known.
    pub open spec fn categories(&self) -> int {
        self.n_features->0 as int
    }

    /// The emission matrix is set and has the right shape.
    pub open spec fn has_probs(&self) -> bool {
        &&& self.n_features is Some
        &&& self.emissionprob matches Some(ep)
        &&& ep.has_dims(self.n_components as int, self.categories())
    }

    /// The emission probabilities, `(n_components, n_features)`.
    pub fn emissionprob(&self) -> (r: &Matrix<T>)
        requires
            self.emissionprob is Some,
        ensures
            Some(*r) == self.emissionprob,
    {
        match &self.emissionprob {
            Some(ep) => ep,
            None => vstd::pervasive::unreached(),
        }
    }

    fn nf(&self) -> (n: usize)
        requires
            self.n_features is Some,
        ensures
            Some(n) == self.n_features,
    {
        match self.n_features {
            Some(n) => n,
            None => 0,
        }
    }

    /// The multinomial log-probability of row `t` in state `c`: `ln n! - sum ln
    /// x! + sum x ln p`, with `n` the row's total.
    pub open spec fn log_prob_at(&self, x: &Matrix<T>, t: int, c: int) -> T {
        let nf = self.categories();
        let ep = self.emissionprob->0;
        trials_of(x, t).s_plus(num(1)).s_ln_gamma().s_minus(
            sigma(nf, |f: int| x.at(t, f).s_plus(num(1)).s_ln_gamma()),
        ).s_plus(sigma(nf, |f: int| x_log_y(x.at(t, f), ep.at(c, f))))
    }

    fn log_prob(&self, x: &Matrix<T>, t: usize, c: usize) -> (r: T)
        requires
            self.has_probs(),
            x.has_dims(x.rows.len() as int, self.categories()),
            t < x.rows.len(),
            c < self.n_components,
        ensures
            r == self.log_prob_at(x, t as int, c as int),
    {
        let ep = self.emissionprob();
        let nf: usize = self.nf();
        let lead = trials(x, t).plus(one()).ln_gamma();
        let f = |f: usize| -> (v: T)
            requires
                f < nf,
                t < x.rows.len(),
                x.has_dims(x.rows.len() as int, nf as int),
            ensures
                v == x.at(t as int, f as int).s_plus(num(1)).s_ln_gamma(),
        {
            x.get(t, f).plus(one()).ln_gamma()
        };
        let facs = sum_of(nf, f, Ghost(|f: int| x.at(t as int, f).s_plus(num(1)).s_ln_gamma()));
        let g = |f: usize| -> (v: T)
            requires
                f < nf,
                t < x.rows.len(),
                c < ep.rows.len(),
                x.has_dims(x.rows.len() as int, nf as int),
                ep.has_dims(ep.rows.len() as int, nf as int),
            ensures
                v == x_log_y(x.at(t as int, f as int), ep.at(c as int, f as int)),
        {
            xlogy(x.get(t, f), ep.get(c, f))
        };
        let dot = sum_of(nf, g, Ghost(|f: int| x_log_y(x.at(t as int, f), ep.at(c as int, f))));
        lead.minus(facs).plus(dot)
    }

    fn log_probs(&self, x: &Matrix<T>) -> (r: Matrix<T>)
        requires
            self.has_probs(),
            x.has_dims(x.rows.len() as int, self.categories()),
        ensures
            r.has_dims(x.rows.len() as int, self.n_components as int),
            forall|t: int, c: int|
                0 <= t < x.rows.len() && 0 <= c < self.n_components ==> #[trigger] r.at(t, c)
                    == self.log_prob_at(x, t, c),
    {
        let f = |t: usize, c: usize| -> (v: T)
            requires
                self.has_probs(),
                x.has_dims(x.rows.len() as int, self.categories()),
                t < x.rows.len(),
                c < self.n_components,
            ensures
                v == self.log_prob_at(x, t as int, c as int),
        {
            self.log_prob(x, t, c)
        };
        Matrix::tabulate(x.rows.len(), self.n_components, f)
    }
}

fn counts_whole<T: Scalar>(x: &Matrix<T>) -> (r: bool)
    requires
        x.wf(),
    ensures
        r == whole_entries(x),
{
    let mut t: usize = 0;
    while t < x.rows.len()
        invariant
            t <= x.rows.len(),
            x.wf(),
            entries_before_whole(x, t as int, 0),
        decreases x.rows.len() - t,
    {
        let mut j: usize = 0;
        while j < x.ncols
            invariant
                t < x.rows.len(),
                j <= x.ncols,
                x.wf(),
                entries_before_whole(x, t as int, j as int),
            decreases x.ncols - j,
        {
            let v = x.get(t, j);
            if !v.fract().same(zero()) || v.below(zero()) {
                assert(!is_whole(x.at(t as int, j as int)));
                return false;
            }
            j += 1;
        }
        t += 1;
    }
    true
}

fn totals_match<T: Scalar>(x: &Matrix<T>, nt: i64) -> (r: bool)
    requires
        x.wf(),
    ensures
        r == rows_total(x, nt),
{
    let mut t: usize = 0;
    while t < x.rows.len()
        invariant
            t <= x.rows.len(),
            x.wf(),
            forall|k: int| 0 <= k < t ==> (#[trigger] trials_of(x, k)).s_to_int() == nt,
        decreases x.rows.len() - t,
    {
        if trials(x, t).to_int() != nt {
            assert(trials_of(x, t as int).s_to_int() != nt);
            return false;
        }
        t += 1;
    }
    true
}

fn infer_trials<T: Scalar>(x: &Matrix<T>) -> (r: Option<i64>)
    requires
        x.wf(),
    ensures
        r == shared_total(x),
{
    if x.rows.len() == 0 {
        return None;
    }
    let nt: i64 = trials(x, 0).to_int();
    if totals_match(x, nt) {
        Some(nt)
    } else {
        None
    }
}

impl<T: Dense> EmissionModel<T> for MultinomialEm<T> {
    type Inference = Em<T>;

    type Stats = MultinomialStats<T>;

    open spec fn wf(&self) -> bool {
        self.ok()
    }

    open spec fn states(&self) -> int {
        self.n_components as int
    }

    open spec fn featured(&self) -> bool {
        self.n_features is Some
    }

    open spec fn features(&self) -> int {
        self.categories()
    }

    open spec fn columns(&self) -> int {
        self.categories()
    }

    open spec fn fits(&self) -> bool {
        self.has_probs()
    }

    open spec fn valid(&self, nc: int) -> bool {
        &&& self.emissionprob matches Some(ep)
        &&& ep.dims() == (nc, self.categories())
        &&& self.n_trials is Some || self.n_trials_inferred
    }

    open spec fn readable(&self, x: &Matrix<T>) -> bool {
        x.ncols >= 1
    }

    open spec fn initable(&self, x: &Matrix<T>, init: Set<Param>) -> bool {
        true
    }

    open spec fn scannable(&self, x: &Matrix<T>) -> bool {
        true
    }

    open spec fn matched(&self, x: &Matrix<T>) -> bool {
        self.n_features == Some(x.ncols)
    }

    open spec fn refused_rel(&self, x: &Matrix<T>, after: &Self) -> bool {
        if self.n_features is Some && self.categories() != x.ncols {
            *after == *self
        } else {
            *after == (Self { n_features: Some(x.ncols), ..*self })
        }
    }

    open spec fn accepts(&self, x: &Matrix<T>) -> bool {
        &&& self.n_features matches Some(nf) ==> nf == x.ncols
        &&& whole_entries(x)
        &&& !self.n_trials_inferred ==> (self.n_trials matches Some(nt) ==> rows_total(x, nt))
    }

    open spec fn refusal(&self, x: &Matrix<T>, e: HmmError) -> bool {
        if self.n_features is Some && self.categories() != x.ncols {
            e matches HmmError::DimensionMismatch(m) && m@ == columns_message(
                x.ncols as nat,
                self.categories() as nat,
            )
        } else if !whole_entries(x) {
            e matches HmmError::InvalidParameter(m) && m@
                == "Symbol counts should be nonnegative integers"@
        } else {
            e matches HmmError::InvalidParameter(m) && m@
                == "Total count for each sample should add up to the number of trials"@
        }
    }

    open spec fn flaw(&self, nc: int, e: HmmError) -> bool {
        match self.emissionprob {
            None => e == HmmError::NotFitted,
            Some(ep) => if ep.dims() != (nc, self.categories()) {
                e matches HmmError::DimensionMismatch(m) && m@
                    == "emissionprob_ must have shape (n_components, n_features)"@
            } else {
                e matches HmmError::InvalidParameter(m) && m@ == "n_trials must be set"@
            },
        }
    }

    open spec fn init_flaw(&self, e: HmmError) -> bool {
        false
    }

    open spec fn mstep_flaw(&self, e: HmmError) -> bool {
        false
    }

    open spec fn observable(&self, x: &Matrix<T>) -> bool {
        x.ncols == self.categories()
    }

    open spec fn owned_params() -> Seq<Param> {
        seq![Param::Emit]
    }

    open spec fn scalars(&self, nc: int, params: ParamSet) -> int {
        if params.members().contains(Param::Emit) {
            nc * (self.categories() - 1)
        } else {
            0
        }
    }

    open spec fn set_rel(&self, x: &Matrix<T>, after: &Self) -> bool {
        if self.n_trials is Some && !self.n_trials_inferred {
            *after == (Self { n_features: Some(x.ncols), ..*self })
        } else {
            *after == (Self {
                n_features: Some(x.ncols),
                n_trials: shared_total(x),
                n_trials_inferred: true,
                ..*self
            })
        }
    }

    open spec fn init_ok(&self, x: &Matrix<T>, init: ParamSet, seed: Option<u32>) -> bool {
        true
    }

    open spec fn init_rel(
        &self,
        x: &Matrix<T>,
        init: ParamSet,
        seed: Option<u32>,
        after: &Self,
    ) -> bool {
        &&& after.n_components == self.n_components
        &&& after.n_features == self.n_features
        &&& after.emissionprob_preset
        &&& after.n_trials == self.n_trials
        &&& after.n_trials_inferred == self.n_trials_inferred
        &&& if init.members().contains(Param::Emit) || !self.emissionprob_preset {
            &&& after.emissionprob matches Some(ep)
            &&& exists|raw: Matrix<T>| #[trigger]
                is_random_matrix(&raw, seed, self.n_components as int, self.categories())
                    && normalized_rows(&raw, &ep)
        } else {
            after.emissionprob == self.emissionprob
        }
    }

    open spec fn log_like(&self, x: &Matrix<T>, t: int, c: int) -> T {
        self.log_prob_at(x, t, c)
    }

    open spec fn like(&self, x: &Matrix<T>, t: int, c: int) -> T {
        self.log_prob_at(x, t, c).s_exp()
    }

    open spec fn fit_log_like(&self, x: &Matrix<T>, t: int, c: int) -> T {
        self.log_prob_at(x, t, c)
    }

    open spec fn fit_like(&self, x: &Matrix<T>, t: int, c: int) -> T {
        self.log_prob_at(x, t, c).s_exp()
    }

    open spec fn stats_fit(&self, stats: &MultinomialStats<T>) -> bool {
        stats.obs.has_dims(self.n_components as int, self.categories())
    }

    open spec fn zero_stats(&self, stats: &MultinomialStats<T>) -> bool {
        self.stats_fit(stats) && forall|c: int, f: int|
            0 <= c < self.n_components && 0 <= f < self.categories() ==> #[trigger] stats.obs.at(
                c,
                f,
            ) == num::<T>(0)
    }

    open spec fn accumulate_rel(
        &self,
        before: &MultinomialStats<T>,
        x: &Matrix<T>,
        post: &Matrix<T>,
        params: ParamSet,
        after: &MultinomialStats<T>,
    ) -> bool {
        if params.members().contains(Param::Emit) {
            gains_products(&before.obs, post, x, &after.obs)
        } else {
            *after == *before
        }
    }

    open spec fn mstep_ok(&self, stats: &MultinomialStats<T>, params: ParamSet) -> bool {
        true
    }

    open spec fn mstep_rel(
        &self,
        stats: &MultinomialStats<T>,
        params: ParamSet,
        after: &Self,
    ) -> bool {
        &&& after.n_components == self.n_components
        &&& after.n_features == self.n_features
        &&& after.emissionprob_preset == self.emissionprob_preset
        &&& after.n_trials == self.n_trials
        &&& after.n_trials_inferred == self.n_trials_inferred
        &&& if params.members().contains(Param::Emit) {
            after.emissionprob matches Some(ep) && normalized_rows(&stats.obs, &ep)
        } else {
            after.emissionprob == self.emissionprob
        }
    }

    open spec fn samplable(&self) -> bool {
        self.n_trials matches Some(n) && n >= 0
    }

    open spec fn draw(&self, state: int, s: RngView<T>) -> (RngView<T>, Option<Seq<T>>) {
        let row = self.emissionprob->0.row_view(state);
        let n = self.n_trials->0;
        let a = allotted(s, n, row, row.len() - 1);
        if a.failed {
            (a.state, None)
        } else {
            (a.state, Some(multinomial_counts(s, n, row).map_values(|k: i64| num::<T>(k as int))))
        }
    }

    open spec fn contribution(&self) -> Option<T> {
        Some(num(0))
    }

    open spec fn begin_rel(&self, after: &Self) -> bool {
        *after == *self
    }

    proof fn slices_observable(&self, x: &Matrix<T>, begin: int, end: int, sub: &Matrix<T>) {
    }

    proof fn likelihoods_of_row(&self, x: &Matrix<T>, t: int, y: &Matrix<T>, u: int, c: int) {
        let nf = self.categories();
        assert forall|f: int| #[trigger] x.at(t, f) == y.at(u, f) by {
        }
        sigma_ext(x.ncols as int, |f: int| x.at(t, f), |f: int| y.at(u, f));
        sigma_ext(
            nf,
            |f: int| x.at(t, f).s_plus(num(1)).s_ln_gamma(),
            |f: int| y.at(u, f).s_plus(num(1)).s_ln_gamma(),
        );
        sigma_ext(
            nf,
            |f: int| x_log_y(x.at(t, f), self.emissionprob->0.at(c, f)),
            |f: int| x_log_y(y.at(u, f), self.emissionprob->0.at(c, f)),
        );
    }

    proof fn fits_featured(&self) {
    }

    fn emission_params() -> (r: Vec<Param>) {
        let mut v: Vec<Param> = Vec::new();
        v.push(Param::Emit);
        proof {
            assert(v@ =~= seq![Param::Emit]);
        }
        v
    }

    fn n_features(&self) -> (n: usize) {
        self.nf()
    }

    fn check_and_set_n_features(&mut self, x: &Matrix<T>) -> (r: Result<(), HmmError>) {
        match confirm_features(self.n_features, x) {
            Ok(nf) => {
                self.n_features = Some(nf);
            },
            Err(e) => {
                return Err(e);
            },
        }
        if !counts_whole(x) {
            return Err(
                HmmError::InvalidParameter(
                    "Symbol counts should be nonnegative integers".to_owned(),
                ),
            );
        }
        match self.n_trials {
            Some(nt) if !self.n_trials_inferred => {
                if !totals_match(x, nt) {
                    return Err(
                        HmmError::InvalidParameter(
                            "Total count for each sample should add up to the number of trials".to_owned(),
                        ),
                    );
                }
            },
            _ => {
                self.n_trials = infer_trials(x);
                self.n_trials_inferred = true;
            },
        }
        Ok(())
    }

    fn init(&mut self, x: &Matrix<T>, init: ParamSet, seed: Option<u32>) -> (r: Result<
        (),
        HmmError,
    >) {
        if init.contains(Param::Emit) || !self.emissionprob_preset {
            let nc: usize = self.n_components;
            let nf: usize = self.nf();
            let mut ep = random_matrix(seed, nc, nf);
            let ghost raw = ep;
            normalize_axis(&mut ep, 1);
            proof {
                assert(is_random_matrix(
                    &raw,
                    seed,
                    old(self).n_components as int,
                    old(self).categories(),
                ));
                assert(normalized_rows(&raw, &ep));
            }
            self.emissionprob = Some(ep);
        }
        self.emissionprob_preset = true;
        Ok(())
    }

    fn check(&self, n_components: usize) -> (r: Result<(), HmmError>) {
        match &self.emissionprob {
            None => Err(HmmError::NotFitted),
            Some(ep) => {
                if ep.rows.len() != n_components || ep.ncols != self.nf() {
                    return Err(
                        HmmError::DimensionMismatch(
                            "emissionprob_ must have shape (n_components, n_features)".to_owned(),
                        ),
                    );
                }
                if self.n_trials.is_none() && !self.n_trials_inferred {
                    return Err(HmmError::InvalidParameter("n_trials must be set".to_owned()));
                }
                Ok(())
            },
        }
    }

    fn n_fit_scalars(&self, n_components: usize, params: ParamSet) -> (n: usize) {
        let nf: usize = self.nf();
        assert(0 <= n_components * (nf - 1)) by (nonlinear_arith)
            requires
                nf >= 1,
        ;
        if params.contains(Param::Emit) {
            clamped_product(n_components, nf - 1)
        } else {
            0
        }
    }

    fn log_likelihood(&self, x: &Matrix<T>) -> (r: Matrix<T>) {
        self.log_probs(x)
    }

    fn likelihood(&self, x: &Matrix<T>) -> (r: Matrix<T>) {
        exp_matrix(&self.log_probs(x))
    }

    fn fit_log_likelihood(&self, x: &Matrix<T>) -> (r: Matrix<T>) {
        self.log_probs(x)
    }

    fn fit_likelihood(&self, x: &Matrix<T>) -> (r: Matrix<T>) {
        exp_matrix(&self.log_probs(x))
    }

    fn init_stats(&self) -> (r: MultinomialStats<T>) {
        MultinomialStats { obs: Matrix::constant(self.n_components, self.nf(), zero()) }
    }

    fn accumulate(
        &self,
        stats: &mut MultinomialStats<T>,
        x: &Matrix<T>,
        posteriors: &Matrix<T>,
        params: ParamSet,
    ) {
        if params.contains(Param::Emit) {
            let obs = add_products(&stats.obs, posteriors, x);
            stats.obs = obs;
        }
    }

    fn mstep(&mut self, stats: &MultinomialStats<T>, params: ParamSet) -> (r: Result<(), HmmError>) {
        if params.contains(Param::Emit) {
            self.emissionprob = Some(row_normalized(&stats.obs));
        }
        Ok(())
    }

    fn sample_state(&self, state: usize, rng: &mut NumpyRandomState<T>) -> (r: Option<Vec<T>>) {
        let n: i64 = match self.n_trials {
            Some(n) => n,
            None => 0,
        };
        let ep = self.emissionprob();
        assert(ep.rows[state as int].len() == ep.ncols);
        match rng.multinomial(n, &ep.rows[state]) {
            None => None,
            Some(counts) => {
                let f = |i: usize| -> (v: T)
                    requires
                        i < counts.len(),
                    ensures
                        v == num::<T>(counts@[i as int] as int),
                {
                    T::of_int(counts[i] as i128)
                };
                let v = tabulate(counts.len(), f);
                proof {
                    assert(v@ =~= counts@.map_values(|k: i64| num::<T>(k as int)));
                }
                Some(v)
            },
        }
    }

    fn lower_bound_contribution(&self) -> (r: Option<T>) {
        Some(zero())
    }

    fn estep_begin(&mut self) {
    }
}

/// Zero and one add and multiply as they should with each other and with `a`, and
/// the logarithm of the gamma function is zero at one and at two.
pub open spec fn small_counts<T: Scalar>(a: T) -> bool {
    let zero = num::<T>(0);
    let one = num::<T>(1);
    &&& zero.s_same(zero) && !one.s_same(zero)
    &&& zero.s_plus(zero) == zero && zero.s_minus(zero) == zero
    &&& zero.s_plus(one) == one && one.s_plus(zero) == one && one.s_plus(one) == num::<T>(2)
    &&& one.s_ln_gamma() == zero && num::<T>(2).s_ln_gamma() == zero
    &&& zero.s_plus(a) == a && a.s_plus(zero) == a && one.s_times(a) == a
}

/// A sum whose terms are zero but for `a` in place `k`.
proof fn sum_of_one<T: Scalar>(n: int, f: spec_fn(int) -> T, k: int, a: T)
    requires
        num::<T>(0).s_plus(num(0)) == num::<T>(0),
        num::<T>(0).s_plus(a) == a,
        a.s_plus(num(0)) == a,
        0 <= k,
        forall|j: int| 0 <= j < n ==> #[trigger] f(j) == if j == k {
            a
        } else {
            num(0)
        },
    ensures
        sigma(n, f) == if k < n {
            a
        } else {
            num(0)
        },
    decreases n,
{
    if n > 0 {
        sum_of_one(n - 1, f, k, a);
        assert(f(n - 1) == if n - 1 == k {
            a
        } else {
            num(0)
        });
    }
}

/// With a single trial the model is the categorical one: a row whose only count is
/// one, in category `k`, is as likely as the symbol `k`.
pub proof fn single_trial_is_categorical<T: Dense>(
    m: &MultinomialEm<T>,
    x: &Matrix<T>,
    cat: &CategoricalEm<T>,
    y: &Matrix<T>,
    t: int,
    c: int,
)
    requires
        m.has_probs(),
        cat.emissionprob == m.emissionprob,
        x.has_dims(x.rows.len() as int, m.categories()),
        0 <= symbol_of(y.at(t, 0)) < m.categories(),
        forall|f: int|
            0 <= f < m.categories() ==> #[trigger] x.at(t, f) == num::<T>(
                if f == symbol_of(y.at(t, 0)) {
                    1
                } else {
                    0
                },
            ),
        small_counts(cat.prob_at(y, t, c).s_ln()),
    ensures
        m.log_like(x, t, c) == cat.log_like(y, t, c),
{
    let nf = m.categories();
    let k = symbol_of(y.at(t, 0));
    let a = cat.prob_at(y, t, c).s_ln();
    let ep = m.emissionprob->0;
    let zero = num::<T>(0);
    sum_of_one(nf, |f: int| x.at(t, f), k, num::<T>(1));
    let g = |f: int| x.at(t, f).s_plus(num(1)).s_ln_gamma();
    assert forall|f: int| 0 <= f < nf implies #[trigger] g(f) == if f == k {
        zero
    } else {
        zero
    } by {
        assert(x.at(t, f) == num::<T>(
            if f == k {
                1
            } else {
                0
            },
        ));
    }
    sum_of_one(nf, g, k, zero);
    let h = |f: int| x_log_y(x.at(t, f), ep.at(c, f));
    assert forall|f: int| 0 <= f < nf implies #[trigger] h(f) == if f == k {
        a
    } else {
        zero
    } by {
        assert(x.at(t, f) == num::<T>(
            if f == k {
                1
            } else {
                0
            },
        ));
    }
    sum_of_one(nf, h, k, a);
}

/// Builder for multinomial models.
#[derive(Clone)]
pub struct MultinomialHmm<T> {
    /// Number of hidden states.
    pub n_components: usize,
    /// Number of categories; `None` lets fitting infer it from the data.
    pub n_features: Option<usize>,
    /// Number of trials per observation; `None` takes it from each row.
    pub n_trials: Option<i64>,
    /// Decoding algorithm.
    pub algorithm: DecoderAlgorithm,
    /// Forward-backward implementation.
    pub implementation: Implementation,
    /// Which parameters are updated.
    pub params: ParamSet,
    /// Which parameters are initialised before fitting.
    pub init_params: ParamSet,
    /// Maximum number of iterations.
    pub n_iter: usize,
    /// Convergence threshold on the per-iteration gain.
    pub tol: T,
    /// Whether each iteration is reported.
    pub verbose: bool,
    /// Seed for initialisation and sampling.
    pub random_state: Option<u32>,
    /// Dirichlet concentration prior on the initial-state distribution.
    pub startprob_prior: T,
    /// Dirichlet concentration prior on each transition row.
    pub transmat_prior: T,
    /// Optional preset initial-state distribution.
    pub start_prob: Option<Vec<T>>,
    /// Optional preset transition matrix.
    pub trans_mat: Option<Matrix<T>>,
    /// Optional preset emission matrix.
    pub emissionprob: Option<Matrix<T>>,
}

impl<T: Dense> MultinomialHmm<T> {
    /// There is a state and, where the number of categories is given or preset, a
    /// category; preset matrices are rectangular.
    pub open spec fn wf(&self) -> bool {
        &&& self.n_components >= 1
        &&& self.trans_mat matches Some(m) ==> m.wf()
        &&& self.n_features matches Some(nf) ==> nf >= 1
        &&& self.emissionprob matches Some(ep) ==> ep.wf() && (self.n_features is None ==> ep.ncols
            >= 1)
    }

    /// The emission model that the builder describes.
    pub open spec fn emission(&self) -> MultinomialEm<T> {
        MultinomialEm {
            n_components: self.n_components,
            n_features: match self.n_features {
                Some(nf) => Some(nf),
                None => match self.emissionprob {
                    Some(ep) => Some(ep.ncols),
                    None => None,
                },
            },
            emissionprob: self.emissionprob,
            emissionprob_preset: self.emissionprob is Some,
            n_trials: self.n_trials,
            n_trials_inferred: false,
        }
    }

    /// The groups that are initialised before fitting: those of `init_params` that
    /// nothing is preset for.
    pub open spec fn initialised(&self) -> Set<Param> {
        let s = self.init_params.members();
        let s = less(s, Param::Start, self.start_prob is Some);
        let s = less(s, Param::Trans, self.trans_mat is Some);
        let s = less(s, Param::Emit, self.emissionprob is Some);
        s
    }

    /// `h` is the model that the builder describes.
    pub open spec fn builds(&self, h: &Hmm<T, MultinomialEm<T>>) -> bool {
        &&& em_built(
            &h.inference,
            self.n_components,
            self.startprob_prior,
            self.transmat_prior,
            self.start_prob,
            self.trans_mat,
        )
        &&& h.emission == self.emission()
        &&& has_settings(
            h,
            self.algorithm,
            self.implementation,
            self.params,
            self.initialised(),
            self.n_iter,
            self.tol,
            self.verbose,
            self.random_state,
        )
        &&& h.wf()
    }

    /// A model with `n_components` states and the defaults: Viterbi decoding in
    /// log space, everything initialised and updated, at most 10 iterations with
    /// tolerance `1e-2`, flat priors and nothing preset.
    pub fn new(n_components: usize) -> (r: Self)
        ensures
            r.n_components == n_components,
            r.n_features is None,
            r.n_trials is None,
            r.algorithm == DecoderAlgorithm::Viterbi,
            r.implementation == Implementation::Log,
            forall|p: Param| r.params.members().contains(p) <==> "ste"@.contains(p.letter()),
            r.init_params == r.params,
            r.n_iter == 10,
            r.tol == dec::<T>(1, -2),
            !r.verbose,
            r.random_state is None,
            r.startprob_prior == num::<T>(1),
            r.transmat_prior == num::<T>(1),
            r.start_prob is None,
            r.trans_mat is None,
            r.emissionprob is None,
    {
        let params = ParamSet::from_codes("ste");
        MultinomialHmm {
            n_components,
            n_features: None,
            n_trials: None,
            algorithm: DecoderAlgorithm::Viterbi,
            implementation: Implementation::Log,
            params,
            init_params: params,
            n_iter: 10,
            tol: T::decimal(1, -2),
            verbose: false,
            random_state: None,
            startprob_prior: one(),
            transmat_prior: one(),
            start_prob: None,
            trans_mat: None,
            emissionprob: None,
        }
    }

    /// Sets the number of categories.
    pub fn n_features(self, nf: usize) -> (r: Self)
        ensures
            r == (Self { n_features: Some(nf), ..self }),
    {
        let mut s = self;
        s.n_features = Some(nf);
        s
    }

    /// Sets the number of trials per observation.
    pub fn n_trials(self, n: i64) -> (r: Self)
        ensures
            r == (Self { n_trials: Some(n), ..self }),
    {
        let mut s = self;
        s.n_trials = Some(n);
        s
    }

    /// Sets the maximum number of iterations.
    pub fn n_iter(self, n: usize) -> (r: Self)
        ensures
            r == (Self { n_iter: n, ..self }),
    {
        let mut s = self;
        s.n_iter = n;
        s
    }

    /// Sets the convergence threshold on the per-iteration gain.
    pub fn tol(self, tol: T) -> (r: Self)
        ensures
            r == (Self { tol: tol, ..self }),
    {
        let mut s = self;
        s.tol = tol;
        s
    }

    /// Sets the decoding algorithm.
    pub fn algorithm(self, a: DecoderAlgorithm) -> (r: Self)
        ensures
            r == (Self { algorithm: a, ..self }),
    {
        let mut s = self;
        s.algorithm = a;
        s
    }

    /// Sets the forward-backward implementation.
    pub fn implementation(self, i: Implementation) -> (r: Self)
        ensures
            r == (Self { implementation: i, ..self }),
    {
        let mut s = self;
        s.implementation = i;
        s
    }

    /// Sets which parameters are updated, from letter codes (`s`, `t`, `e`).
    pub fn params(self, codes: &str) -> (r: Self)
        ensures
            r == (Self { params: r.params, ..self }),
            r.params.wf(),
            forall|p: Param| r.params.members().contains(p) <==> codes@.contains(p.letter()),
    {
        let mut s = self;
        s.params = ParamSet::from_codes(codes);
        s
    }

    /// Sets which parameters are initialised before fitting, from letter codes (`s`, `t`, `e`).
    pub fn init_params(self, codes: &str) -> (r: Self)
        ensures
            r == (Self { init_params: r.init_params, ..self }),
            r.init_params.wf(),
            forall|p: Param| r.init_params.members().contains(p) <==> codes@.contains(p.letter()),
    {
        let mut s = self;
        s.init_params = ParamSet::from_codes(codes);
        s
    }

    /// Sets the seed for initialisation and sampling.
    pub fn random_state(self, seed: u32) -> (r: Self)
        ensures
            r == (Self { random_state: Some(seed), ..self }),
    {
        let mut s = self;
        s.random_state = Some(seed);
        s
    }

    /// Sets whether each iteration is reported.
    pub fn verbose(self, v: bool) -> (r: Self)
        ensures
            r == (Self { verbose: v, ..self }),
    {
        let mut s = self;
        s.verbose = v;
        s
    }

    /// Presets the initial-state distribution.
    pub fn start_prob(self, sp: Vec<T>) -> (r: Self)
        ensures
            r == (Self { start_prob: Some(sp), ..self }),
    {
        let mut s = self;
        s.start_prob = Some(sp);
        s
    }

    /// Presets the transition matrix.
    pub fn trans_mat(self, tm: Matrix<T>) -> (r: Self)
        ensures
            r == (Self { trans_mat: Some(tm), ..self }),
    {
        let mut s = self;
        s.trans_mat = Some(tm);
        s
    }

    /// Presets the emission probabilities.
    pub fn emissionprob(self, ep: Matrix<T>) -> (r: Self)
        ensures
            r == (Self { emissionprob: Some(ep), ..self }),
    {
        let mut s = self;
        s.emissionprob = Some(ep);
        s
    }

    /// The unfitted model that the builder describes.
    pub fn build(self) -> (h: Hmm<T, MultinomialEm<T>>)
        requires
            self.wf(),
        ensures
            self.builds(&h),
    {
        let n_features: Option<usize> = match self.n_features {
            Some(nf) => Some(nf),
            None => match &self.emissionprob {
                Some(ep) => Some(ep.ncols),
                None => None,
            },
        };
        let init_params = self.init_params
            .without(Param::Start, self.start_prob.is_some())
            .without(Param::Trans, self.trans_mat.is_some())
            .without(Param::Emit, self.emissionprob.is_some());
        let inference = Em::new(
            self.n_components,
            self.startprob_prior,
            self.transmat_prior,
            self.start_prob,
            self.trans_mat,
        );
        let preset = self.emissionprob.is_some();
        let emission = MultinomialEm {
            n_components: self.n_components,
            n_features,
            emissionprob: self.emissionprob,
            emissionprob_preset: preset,
            n_trials: self.n_trials,
            n_trials_inferred: false,
        };
        Hmm {
            emission,
            inference,
            algorithm: self.algorithm,
            implementation: self.implementation,
            params: self.params,
            init_params,
            n_iter: self.n_iter,
            random_state: self.random_state,
            monitor: ConvergenceMonitor::new(self.tol, self.n_iter, self.verbose),
            notes: Vec::new(),
        }
    }

    /// Fit the model.
    pub fn fit(self, x: &Matrix<T>, lengths: Option<&[usize]>) -> (r: Result<
        Fitted<T, MultinomialEm<T>>,
        HmmError,
    >)
        requires
            self.wf(),
            x.wf(),
            fit_ready(&self.emission(), self.initialised(), self.n_iter, x, lengths),
        ensures
            exists|h: Hmm<T, MultinomialEm<T>>| #[trigger]
                self.builds(&h) && fit_result(&h, x, lengths, r),
    {
        self.build().fit(x, lengths)
    }

    /// Treat the preset parameters as fitted, after validation.
    pub fn into_fitted(self) -> (r: Result<Fitted<T, MultinomialEm<T>>, HmmError>)
        requires
            self.wf(),
        ensures
            exists|h: Hmm<T, MultinomialEm<T>>| #[trigger] self.builds(&h) && taken_as_fitted(&h, r),
    {
        self.build().into_fitted()
    }
}

} // verus!
