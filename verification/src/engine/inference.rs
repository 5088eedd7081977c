//! The inference axis: how start and transition parameters are initialised, used
//! in the E-step, updated in the M-step, and scored in the lower bound.
//!
//! [`Em`] implements expectation-maximisation and [`Variational`] mean-field
//! variational inference; the model core is written over [`Inference`].

use crate::counting::{clamped_product, clamped_sum, saturated};
use crate::engine::params::{Param, ParamSet};
use crate::error::HmmError;
use crate::linalg::Dense;
use crate::matrix::{copied, filled, row_sum, row_total, Matrix};
use crate::rng::gamma::{dirichlet_draw, dirichlet_draws};
use crate::rng::state::{fresh_state, NumpyRandomState, RngView};
use crate::scalar::{
    abs, count, dec, from_on, grown, lane, lanes, lanes_ext, larger, larger_of, magnitude, num, one,
    paired_lanes, sigma, sum, total, zero, Scalar,
};
use crate::text::{decimal, digits, joined};
use crate::util::{divisor, normalize1, normalize_axis, normalized};
use vstd::prelude::*;
use vstd::string::StringExecFns;

verus! {

/// Start and transition sufficient statistics.
#[derive(Debug, Clone)]
pub struct CoreStats<T> {
    /// Number of sequences accumulated so far.
    pub nobs: usize,
    /// Expected initial-state occupancy, length `n_components`.
    pub start: Vec<T>,
    /// Expected transition counts, `(n_components, n_components)`.
    pub trans: Matrix<T>,
}

impl<T: Scalar> CoreStats<T> {
    /// The statistics are those of `nc` states.
    pub open spec fn fits(&self, nc: int) -> bool {
        self.start.len() == nc && self.trans.has_dims(nc, nc)
    }

    /// No sequence accumulated, everything zero.
    pub open spec fn is_zero(&self, nc: int) -> bool {
        &&& self.nobs == 0
        &&& self.fits(nc)
        &&& forall|i: int| 0 <= i < nc ==> #[trigger] self.start@[i] == num::<T>(0)
        &&& forall|i: int, j: int|
            0 <= i < nc && 0 <= j < nc ==> #[trigger] self.trans.at(i, j) == num::<T>(0)
    }

    /// Zeroed start and transition statistics for `n_components` states.
    pub fn zeros(n_components: usize) -> (s: Self)
        ensures
            s.is_zero(n_components as int),
    {
        CoreStats {
            nobs: 0,
            start: filled(n_components, zero()),
            trans: Matrix::constant(n_components, n_components, zero()),
        }
    }
}

/// The free scalars of the selected start and transition parameters: a
/// distribution over `n` states has `n - 1`, and the transition matrix holds one
/// per row.
pub open spec fn start_trans_scalars(n: int, params: ParamSet) -> int {
    (if params.members().contains(Param::Start) {
        n - 1
    } else {
        0
    }) + (if params.members().contains(Param::Trans) {
        n * (n - 1)
    } else {
        0
    })
}

/// Number of free scalars contributed by the start and transition parameters,
/// clamped to the largest machine integer.
pub fn start_trans_fit_scalars(n_components: usize, params: ParamSet) -> (n: usize)
    requires
        params.members().contains(Param::Start) || params.members().contains(Param::Trans)
            ==> n_components >= 1,
    ensures
        n == saturated(start_trans_scalars(n_components as int, params)),
{
    let mut n: usize = 0;
    if params.contains(Param::Start) {
        n = n_components - 1;
    }
    if params.contains(Param::Trans) {
        assert(0 <= n_components * (n_components - 1)) by (nonlinear_arith)
            requires
                n_components >= 1,
        ;
        n = clamped_sum(n, clamped_product(n_components, n_components - 1));
    }
    n
}

/// The seed, 0 where none is given.
pub open spec fn seed_or_zero(seed: Option<u32>) -> u32 {
    match seed {
        Some(s) => s,
        None => 0u32,
    }
}

/// A fresh random state for an optional seed.
pub fn seeded_state<T: Scalar>(seed: Option<u32>) -> (r: NumpyRandomState<T>)
    ensures
        r.wf(),
        r@ == fresh_state::<T>(seed_or_zero(seed)),
{
    match seed {
        Some(s) => NumpyRandomState::new(s),
        None => NumpyRandomState::new(0),
    }
}

/// The error for a random draw that gave up.
pub open spec fn is_gave_up(e: HmmError) -> bool {
    e matches HmmError::InvalidParameter(m) && m@ == "no random draw was accepted"@
}

/// The error for a random draw that gave up.
pub fn gave_up() -> (e: HmmError)
    ensures
        is_gave_up(e),
{
    HmmError::InvalidParameter("no random draw was accepted".to_owned())
}

/// The start and transition inference strategy.
pub trait Inference<T: Dense>: Clone {
    /// Every matrix inside is rectangular.
    spec fn wf(&self) -> bool;

    /// The number of states.
    spec fn states(&self) -> int;

    /// Every parameter has the shape that the number of states asks for.
    spec fn shaped(&self) -> bool;

    /// What [`Inference::check`] accepts.
    spec fn valid(&self) -> bool;

    /// The error for parameters that are not valid.
    spec fn flaw(&self, e: HmmError) -> bool;

    /// The initial-state distribution.
    spec fn start_view(&self) -> Seq<T>;

    /// The transition matrix.
    spec fn trans_view(&self) -> Seq<Seq<T>>;

    /// The initial-state parameters that drive the E-step.
    spec fn estep_start(&self) -> Seq<T>;

    /// The transition parameters that drive the E-step.
    spec fn estep_trans(&self) -> Seq<Seq<T>>;

    /// No random draw of the initialisation is accepted.
    spec fn init_gives_up(&self, init: ParamSet, seed: Option<u32>) -> bool;

    /// What initialisation makes of `self`.
    spec fn init_rel(
        &self,
        init: ParamSet,
        seed: Option<u32>,
        n_sequences: int,
        n_samples: int,
        after: &Self,
    ) -> bool;

    /// What the hook at the start of an E-step makes of `self`.
    spec fn begin_rel(&self, after: &Self) -> bool;

    /// What an M-step makes of `self`.
    spec fn mstep_rel(&self, stats: &CoreStats<T>, params: ParamSet, after: &Self) -> bool;

    /// The objective, given the data log-probability.
    spec fn bound(&self, log_prob: T) -> T;

    /// Number of hidden states.
    fn n_components(&self) -> (n: usize)
        ensures
            n == self.states(),
    ;

    /// Normalised initial-state distribution.
    fn start_prob(&self) -> (r: &Vec<T>)
        ensures
            r@ == self.start_view(),
            self.shaped() ==> r.len() == self.states(),
    ;

    /// Normalised transition matrix.
    fn trans_mat(&self) -> (r: &Matrix<T>)
        requires
            self.wf(),
        ensures
            r.wf(),
            r@ == self.trans_view(),
            self.shaped() ==> r.has_dims(self.states(), self.states()),
    ;

    /// Initialise the parameters selected by `init`, and those not set yet, from a
    /// random state of their own.
    fn init(&mut self, init: ParamSet, seed: Option<u32>, n_sequences: usize, n_samples: usize) -> (r:
        Result<(), HmmError>)
        requires
            old(self).wf(),
            old(self).states() >= 1,
        ensures
            final(self).wf(),
            final(self).states() == old(self).states(),
            r is Ok <==> !old(self).init_gives_up(init, seed),
            r matches Err(e) ==> is_gave_up(e),
            r is Ok ==> old(self).init_rel(
                init,
                seed,
                n_sequences as int,
                n_samples as int,
                &*final(self),
            ),
    ;

    /// Hook at the start of each E-step.
    fn estep_begin(&mut self)
        requires
            old(self).wf(),
            old(self).shaped(),
        ensures
            final(self).wf(),
            final(self).shaped(),
            final(self).states() == old(self).states(),
            old(self).begin_rel(&*final(self)),
    ;

    /// The start and transition parameters that drive the recursions.
    fn estep_start_trans(&self) -> (r: (Vec<T>, Matrix<T>))
        requires
            self.wf(),
            self.shaped(),
        ensures
            r.0@ == self.estep_start(),
            r.1@ == self.estep_trans(),
            r.0.len() == self.states(),
            r.1.has_dims(self.states(), self.states()),
    ;

    /// Update the selected parameters from the accumulated statistics.
    fn mstep(&mut self, stats: &CoreStats<T>, params: ParamSet)
        requires
            old(self).wf(),
            old(self).shaped(),
            stats.fits(old(self).states()),
        ensures
            final(self).wf(),
            final(self).shaped(),
            final(self).states() == old(self).states(),
            old(self).mstep_rel(stats, params, &*final(self)),
    ;

    /// Objective value for this iteration, from the data log-probability.
    fn lower_bound(&self, curr_logprob: T) -> (r: T)
        requires
            self.wf(),
            self.shaped(),
        ensures
            r == self.bound(curr_logprob),
    ;

    /// Validate the start and transition parameters.
    fn check(&self) -> (r: Result<(), HmmError>)
        requires
            self.wf(),
        ensures
            r is Ok <==> self.valid(),
            r matches Err(e) ==> self.flaw(e),
            r is Ok ==> self.shaped(),
    ;
}

/// Expectation-maximisation for start and transition parameters.
#[derive(Debug, Clone)]
pub struct Em<T> {
    /// Number of hidden states.
    pub n_components: usize,
    /// Initial-state distribution, length `n_components`.
    pub start_prob: Vec<T>,
    /// Transition matrix, `(n_components, n_components)`.
    pub trans_mat: Matrix<T>,
    /// Whether `start_prob` was given or initialised.
    pub start_preset: bool,
    /// Whether `trans_mat` was given or initialised.
    pub trans_preset: bool,
    /// Dirichlet concentration prior on the initial-state distribution.
    pub start_prior: T,
    /// Dirichlet concentration prior on each transition row.
    pub trans_prior: T,
}

/// `n` equal weights that sum to 1.
pub open spec fn uniform_weights<T: Scalar>(n: int) -> Seq<T> {
    Seq::new(n as nat, |i: int| num::<T>(1).s_over(num(n)))
}

/// `n` equal weights that sum to 1.
pub fn uniform_vec<T: Scalar>(n: usize) -> (v: Vec<T>)
    ensures
        v@ == uniform_weights::<T>(n as int),
        v.len() == n,
{
    let v = filled(n, one::<T>().over(count(n)));
    proof {
        assert(v@ =~= uniform_weights::<T>(n as int));
    }
    v
}

/// What an expected count `s` becomes under a Dirichlet prior, where the
/// parameter it updates is `current`: `max(prior - 1 + s, 0)`, and zero where the
/// parameter is zero already.
pub open spec fn updated_count<T: Scalar>(prior: T, s: T, current: T) -> T {
    if current.s_same(num(0)) {
        num(0)
    } else {
        larger_of(prior.s_minus(num(1)).s_plus(s), num(0))
    }
}

fn update_count<T: Scalar>(prior: T, s: T, current: T) -> (r: T)
    ensures
        r == updated_count(prior, s, current),
{
    if current.same(zero()) {
        zero()
    } else {
        larger(prior.minus(one()).plus(s), zero())
    }
}

/// The sum is more than `1e-5` away from 1.
pub open spec fn off_one<T: Scalar>(s: T) -> bool {
    dec::<T>(1, -5).s_below(magnitude(s.s_minus(num(1))))
}

/// Whether the sum is more than `1e-5` away from 1.
pub fn is_off_one<T: Scalar>(s: T) -> (r: bool)
    ensures
        r == off_one(s),
{
    T::decimal(1, -5).below(abs(s.minus(one())))
}

/// No row of the matrix sums more than `1e-5` away from 1.
pub open spec fn rows_sum_to_one<T: Scalar>(a: &Matrix<T>) -> bool {
    forall|i: int| 0 <= i < a.rows.len() ==> !off_one(#[trigger] row_total(a, i))
}

/// `label` followed by the row number, ` must sum to 1 (got `, the sum to four
/// places and a closing bracket.
pub open spec fn row_sum_message<T: Scalar>(label: Seq<char>, i: nat, s: T) -> Seq<char> {
    label + digits(i) + " must sum to 1 (got "@ + s.s_text(Some(4), false) + ")"@
}

/// The first row of `a` that does not sum to 1, as an error whose text names it.
pub fn check_row_sums<T: Scalar>(a: &Matrix<T>, label: &str) -> (r: Result<(), HmmError>)
    requires
        a.wf(),
    ensures
        r is Ok <==> rows_sum_to_one(a),
        r matches Err(e) ==> e matches HmmError::InvalidParameter(m) && exists|i: int|
            0 <= i < a.rows.len() && off_one(#[trigger] row_total(a, i)) && (forall|k: int|
                0 <= k < i ==> !off_one(#[trigger] row_total(a, k))) && m@ == row_sum_message(
                label@,
                i as nat,
                row_total(a, i),
            ),
{
    let mut i: usize = 0;
    while i < a.rows.len()
        invariant
            i <= a.rows.len(),
            a.wf(),
            forall|k: int| 0 <= k < i ==> !off_one(#[trigger] row_total(a, k)),
        decreases a.rows.len() - i,
    {
        let s = row_sum(a, i);
        if is_off_one(s) {
            let mut m = joined(label, decimal(i).as_str());
            m.append(" must sum to 1 (got ");
            m.append(s.text(Some(4), false).as_str());
            m.append(")");
            assert(off_one(row_total(a, i as int)));
            return Err(HmmError::InvalidParameter(m));
        }
        i += 1;
    }
    Ok(())
}

impl<T: Scalar> Em<T> {
    /// A fresh core with the given priors and, where given, preset parameters.
    pub fn new(
        n_components: usize,
        start_prior: T,
        trans_prior: T,
        start_prob: Option<Vec<T>>,
        trans_mat: Option<Matrix<T>>,
    ) -> (r: Self)
        requires
            trans_mat matches Some(m) ==> m.wf(),
        ensures
            r.n_components == n_components,
            r.start_prior == start_prior,
            r.trans_prior == trans_prior,
            r.start_preset == start_prob is Some,
            r.trans_preset == trans_mat is Some,
            r.trans_mat.wf(),
            match start_prob {
                Some(s) => r.start_prob == s,
                None => r.start_prob@ == Seq::new(n_components as nat, |i: int| num::<T>(0)),
            },
            match trans_mat {
                Some(m) => r.trans_mat == m,
                None => r.trans_mat.has_dims(n_components as int, n_components as int) && forall|
                    i: int,
                    j: int,
                |
                    0 <= i < n_components && 0 <= j < n_components ==> #[trigger] r.trans_mat.at(
                        i,
                        j,
                    ) == num::<T>(0),
            },
    {
        let start_preset = start_prob.is_some();
        let trans_preset = trans_mat.is_some();
        let start = match start_prob {
            Some(s) => s,
            None => filled(n_components, zero()),
        };
        let trans = match trans_mat {
            Some(m) => m,
            None => Matrix::constant(n_components, n_components, zero()),
        };
        Em {
            n_components,
            start_prob: start,
            trans_mat: trans,
            start_preset,
            trans_preset,
            start_prior,
            trans_prior,
        }
    }

    /// The initial-state distribution is drawn anew.
    pub open spec fn draws_start(&self, init: ParamSet) -> bool {
        init.members().contains(Param::Start) || !self.start_preset
    }

    /// The transition matrix is drawn anew.
    pub open spec fn draws_trans(&self, init: ParamSet) -> bool {
        init.members().contains(Param::Trans) || !self.trans_preset
    }

    /// The draw of the initial-state distribution and the random state after it.
    pub open spec fn start_draw(&self, init: ParamSet, seed: Option<u32>) -> (
        RngView<T>,
        Option<Seq<T>>,
    ) {
        let s = fresh_state::<T>(seed_or_zero(seed));
        if self.draws_start(init) {
            dirichlet_draw(s, uniform_weights(self.n_components as int))
        } else {
            (s, Some(self.start_prob@))
        }
    }

    /// The draw of the transition matrix.
    pub open spec fn trans_draw(&self, init: ParamSet, seed: Option<u32>) -> Option<Seq<Seq<T>>> {
        if self.draws_trans(init) {
            dirichlet_draws(
                self.start_draw(init, seed).0,
                uniform_weights(self.n_components as int),
                self.n_components as int,
            ).1
        } else {
            Some(self.trans_mat@)
        }
    }
}

impl<T: Dense> Inference<T> for Em<T> {
    open spec fn wf(&self) -> bool {
        self.trans_mat.wf()
    }

    open spec fn states(&self) -> int {
        self.n_components as int
    }

    open spec fn shaped(&self) -> bool {
        &&& self.start_prob.len() == self.n_components
        &&& self.trans_mat.has_dims(self.n_components as int, self.n_components as int)
    }

    open spec fn valid(&self) -> bool {
        &&& self.start_preset
        &&& self.trans_preset
        &&& self.start_prob.len() == self.n_components
        &&& !off_one(total(self.start_prob@))
        &&& self.trans_mat.rows.len() == self.n_components
        &&& self.trans_mat.ncols == self.n_components
        &&& rows_sum_to_one(&self.trans_mat)
    }

    open spec fn flaw(&self, e: HmmError) -> bool {
        if !self.start_preset || !self.trans_preset {
            e == HmmError::NotFitted
        } else if self.start_prob.len() != self.n_components {
            e matches HmmError::DimensionMismatch(m) && m@
                == "startprob_ must have length n_components"@
        } else if off_one(total(self.start_prob@)) {
            e matches HmmError::InvalidParameter(m) && m@ == "startprob_ must sum to 1 (got "@
                + total(self.start_prob@).s_text(Some(4), false) + ")"@
        } else if self.trans_mat.dims() != (self.n_components as int, self.n_components as int) {
            e matches HmmError::DimensionMismatch(m) && m@
                == "transmat_ must have shape (n_components, n_components)"@
        } else {
            e matches HmmError::InvalidParameter(m) && exists|i: int|
                0 <= i < self.n_components && off_one(#[trigger] row_total(&self.trans_mat, i))
                    && (forall|k: int|
                    0 <= k < i ==> !off_one(#[trigger] row_total(&self.trans_mat, k))) && m@
                    == row_sum_message(
                    "transmat_ row "@,
                    i as nat,
                    row_total(&self.trans_mat, i),
                )
        }
    }

    open spec fn start_view(&self) -> Seq<T> {
        self.start_prob@
    }

    open spec fn trans_view(&self) -> Seq<Seq<T>> {
        self.trans_mat@
    }

    open spec fn estep_start(&self) -> Seq<T> {
        self.start_prob@
    }

    open spec fn estep_trans(&self) -> Seq<Seq<T>> {
        self.trans_mat@
    }

    open spec fn init_gives_up(&self, init: ParamSet, seed: Option<u32>) -> bool {
        self.start_draw(init, seed).1 is None || self.trans_draw(init, seed) is None
    }

    open spec fn init_rel(
        &self,
        init: ParamSet,
        seed: Option<u32>,
        n_sequences: int,
        n_samples: int,
        after: &Self,
    ) -> bool {
        &&& after.n_components == self.n_components
        &&& self.start_draw(init, seed).1 == Some(after.start_prob@)
        &&& self.trans_draw(init, seed) == Some(after.trans_mat@)
        &&& self.draws_trans(init) ==> after.trans_mat.has_dims(
            self.n_components as int,
            self.n_components as int,
        )
        &&& !self.draws_trans(init) ==> after.trans_mat == self.trans_mat
        &&& after.start_preset && after.trans_preset
        &&& after.start_prior == self.start_prior
        &&& after.trans_prior == self.trans_prior
    }

    open spec fn begin_rel(&self, after: &Self) -> bool {
        *after == *self
    }

    open spec fn mstep_rel(&self, stats: &CoreStats<T>, params: ParamSet, after: &Self) -> bool {
        &&& after.n_components == self.n_components
        &&& after.start_preset == self.start_preset
        &&& after.trans_preset == self.trans_preset
        &&& after.start_prior == self.start_prior
        &&& after.trans_prior == self.trans_prior
        &&& after.start_prob@ == if params.members().contains(Param::Start) {
            normalized(
                Seq::new(
                    self.n_components as nat,
                    |i: int|
                        updated_count(self.start_prior, stats.start@[i], self.start_prob@[i]),
                ),
            )
        } else {
            self.start_prob@
        }
        &&& if params.members().contains(Param::Trans) {
            exists|counts: Matrix<T>| #[trigger]
                updated_transitions(self, stats, &counts) && normalized_rows(
                    &counts,
                    &after.trans_mat,
                )
        } else {
            after.trans_mat == self.trans_mat
        }
    }

    open spec fn bound(&self, log_prob: T) -> T {
        log_prob
    }

    fn n_components(&self) -> (n: usize) {
        self.n_components
    }

    fn start_prob(&self) -> (r: &Vec<T>) {
        &self.start_prob
    }

    fn trans_mat(&self) -> (r: &Matrix<T>) {
        &self.trans_mat
    }

    fn init(&mut self, init: ParamSet, seed: Option<u32>, n_sequences: usize, n_samples: usize) -> (r:
        Result<(), HmmError>) {
        let ghost before = *self;
        let nc: usize = self.n_components;
        let alpha = uniform_vec(nc);
        let mut rng = seeded_state(seed);
        let mut start = copied(&self.start_prob);
        if init.contains(Param::Start) || !self.start_preset {
            match rng.dirichlet(&alpha) {
                Some(v) => {
                    start = v;
                },
                None => {
                    return Err(gave_up());
                },
            }
        }
        if init.contains(Param::Trans) || !self.trans_preset {
            match rng.dirichlet_rows(&alpha, nc) {
                Some(m) => {
                    self.trans_mat = m;
                },
                None => {
                    return Err(gave_up());
                },
            }
        }
        self.start_prob = start;
        self.start_preset = true;
        self.trans_preset = true;
        Ok(())
    }

    fn estep_begin(&mut self) {
    }

    fn estep_start_trans(&self) -> (r: (Vec<T>, Matrix<T>)) {
        (copied(&self.start_prob), self.trans_mat.duplicate())
    }

    /// Structural zeros are kept: a start entry or a transition that is zero
    /// already stays zero, so a forbidden state or transition is never revived.
    fn mstep(&mut self, stats: &CoreStats<T>, params: ParamSet) {
        let nc: usize = self.n_components;
        let ghost before = *self;
        if params.contains(Param::Start) {
            let prior = self.start_prior;
            let current = copied(&self.start_prob);
            let f = |i: usize| -> (x: T)
                requires
                    i < nc,
                    stats.start.len() == nc,
                    current.len() == nc,
                ensures
                    x == updated_count(prior, stats.start@[i as int], current@[i as int]),
            {
                update_count(prior, stats.start[i], current[i])
            };
            let mut sp = crate::matrix::tabulate(nc, f);
            proof {
                assert(sp@ =~= Seq::new(
                    nc as nat,
                    |i: int|
                        updated_count(before.start_prior, stats.start@[i], before.start_prob@[i]),
                ));
            }
            normalize1(&mut sp);
            self.start_prob = sp;
        }
        if params.contains(Param::Trans) {
            let prior = self.trans_prior;
            let current = self.trans_mat.duplicate();
            let f = |i: usize, j: usize| -> (x: T)
                requires
                    i < nc,
                    j < nc,
                    stats.trans.has_dims(nc as int, nc as int),
                    current.has_dims(nc as int, nc as int),
                ensures
                    x == updated_count(
                        prior,
                        stats.trans.at(i as int, j as int),
                        current.at(i as int, j as int),
                    ),
            {
                update_count(prior, stats.trans.get(i, j), current.get(i, j))
            };
            let mut tm = Matrix::tabulate(nc, nc, f);
            let ghost counts = tm;
            normalize_axis(&mut tm, 1);
            self.trans_mat = tm;
            proof {
                assert(updated_transitions(&before, stats, &counts));
                assert(normalized_rows(&counts, &tm));
            }
        }
    }

    fn lower_bound(&self, curr_logprob: T) -> (r: T) {
        curr_logprob
    }

    fn check(&self) -> (r: Result<(), HmmError>) {
        let nc: usize = self.n_components;
        if !self.start_preset || !self.trans_preset {
            return Err(HmmError::NotFitted);
        }
        if self.start_prob.len() != nc {
            return Err(
                HmmError::DimensionMismatch("startprob_ must have length n_components".to_owned()),
            );
        }
        let s = sum(&self.start_prob);
        if is_off_one(s) {
            let mut m = joined("startprob_ must sum to 1 (got ", s.text(Some(4), false).as_str());
            m.append(")");
            return Err(HmmError::InvalidParameter(m));
        }
        if self.trans_mat.rows.len() != nc || self.trans_mat.ncols != nc {
            return Err(
                HmmError::DimensionMismatch(
                    "transmat_ must have shape (n_components, n_components)".to_owned(),
                ),
            );
        }
        check_row_sums(&self.trans_mat, "transmat_ row ")
    }
}

/// `counts` holds the expected transitions of `stats` under the prior, with the
/// transitions that are zero in `em` kept zero.
pub open spec fn updated_transitions<T: Scalar>(
    em: &Em<T>,
    stats: &CoreStats<T>,
    counts: &Matrix<T>,
) -> bool {
    let nc = em.n_components as int;
    counts.has_dims(nc, nc) && forall|i: int, j: int|
        0 <= i < nc && 0 <= j < nc ==> #[trigger] counts.at(i, j) == updated_count(
            em.trans_prior,
            stats.trans.at(i, j),
            em.trans_mat.at(i, j),
        )
}

/// `b` holds the rows of `a`, each divided by its sum (by 1 where that is zero).
pub open spec fn normalized_rows<T: Scalar>(a: &Matrix<T>, b: &Matrix<T>) -> bool {
    b.has_dims(a.rows.len() as int, a.ncols as int) && forall|i: int, j: int|
        0 <= i < a.rows.len() && 0 <= j < a.ncols ==> #[trigger] b.at(i, j) == a.at(i, j).s_over(
            divisor(row_total(a, i)),
        )
}

/// The normalised rows of a copy are those of the matrix itself.
pub proof fn rows_of_copy<T: Scalar>(a: &Matrix<T>, copy: &Matrix<T>, b: &Matrix<T>)
    requires
        a.wf(),
        copy.has_dims(a.rows.len() as int, a.ncols as int),
        forall|i: int, j: int|
            0 <= i < a.rows.len() && 0 <= j < a.ncols ==> #[trigger] copy.at(i, j) == a.at(i, j),
        normalized_rows(copy, b),
    ensures
        normalized_rows(a, b),
{
    assert forall|i: int, j: int| 0 <= i < a.rows.len() && 0 <= j < a.ncols implies #[trigger] b.at(
        i,
        j,
    ) == a.at(i, j).s_over(divisor(row_total(a, i))) by {
        assert(copy.at(i, j) == a.at(i, j));
        lanes_ext(
            a.ncols as int,
            |k: int| copy.at(i, k),
            |k: int| a.at(i, k),
        );
    }
}

/// `a` is zero or above.
pub open spec fn zero_or_above<T: Scalar>(a: T) -> bool {
    a.s_same(num(0)) || num::<T>(0).s_below(a)
}

/// What double-precision numbers keep of zero: it equals itself and is below 1, sums
/// of what is zero or above are so too, and divided by what is above it zero stays.
pub open spec fn zero_stays_zero<T: Scalar>() -> bool {
    &&& num::<T>(0).s_same(num(0))
    &&& num::<T>(0).s_below(num(1))
    &&& forall|a: T, b: T|
        zero_or_above(a) && zero_or_above(b) ==> zero_or_above(#[trigger] a.s_plus(b))
    &&& forall|d: T| num::<T>(0).s_below(d) ==> #[trigger] num::<T>(0).s_over(d) == num::<T>(0)
}

proof fn sum_above<T: Scalar>(n: int, f: spec_fn(int) -> T)
    requires
        zero_stays_zero::<T>(),
        forall|i: int| 0 <= i < n ==> zero_or_above(#[trigger] f(i)),
    ensures
        zero_or_above(sigma(n, f)),
    decreases n,
{
    if n > 0 {
        sum_above(n - 1, f);
        assert(zero_or_above(f(n - 1)));
    }
}

proof fn running_above<T: Scalar>(before: T, n: int, f: spec_fn(int) -> T)
    requires
        zero_stays_zero::<T>(),
        zero_or_above(before),
        forall|i: int| 0 <= i < n ==> zero_or_above(#[trigger] f(i)),
    ensures
        zero_or_above(grown(before, n, f)),
    decreases n,
{
    if n > 0 {
        running_above(before, n - 1, f);
        assert(zero_or_above(f(n - 1)));
    }
}

proof fn lanes_above<T: Scalar>(n: int, f: spec_fn(int) -> T)
    requires
        zero_stays_zero::<T>(),
        0 <= n,
        forall|i: int| 0 <= i < n ==> zero_or_above(#[trigger] f(i)),
    ensures
        zero_or_above(lanes(n, f)),
{
    let b = n / 8;
    let p = |k: int| sigma(b, lane(f, k));
    assert forall|k: int| 0 <= k < 8 implies zero_or_above(#[trigger] p(k)) by {
        assert forall|i: int| 0 <= i < b implies zero_or_above(#[trigger] lane(f, k)(i)) by {
            assert(zero_or_above(f(8 * i + k)));
        }
        sum_above(b, lane(f, k));
    }
    assert(zero_or_above(p(0)) && zero_or_above(p(1)) && zero_or_above(p(2)) && zero_or_above(p(3)));
    assert(zero_or_above(p(4)) && zero_or_above(p(5)) && zero_or_above(p(6)) && zero_or_above(p(7)));
    assert(zero_or_above(num::<T>(0)));
    assert(zero_or_above(paired_lanes(b, f)));
    assert forall|i: int| 0 <= i < n % 8 implies zero_or_above(
        #[trigger] from_on(f, 8 * b)(i),
    ) by {
        assert(zero_or_above(f(8 * b + i)));
    }
    running_above(paired_lanes(b, f), n % 8, from_on(f, 8 * b));
}

/// An M-step keeps structural zeros of the start distribution: an entry that is
/// zero stays zero.
pub proof fn mstep_keeps_forbidden_start<T: Dense>(
    before: &Em<T>,
    stats: &CoreStats<T>,
    params: ParamSet,
    after: &Em<T>,
    i: int,
)
    requires
        before.shaped(),
        before.mstep_rel(stats, params, after),
        0 <= i < before.n_components,
        before.start_prob@[i] == num::<T>(0),
        zero_stays_zero::<T>(),
    ensures
        after.start_prob@[i] == num::<T>(0),
{
    if params.members().contains(Param::Start) {
        let nc = before.n_components as int;
        let s = Seq::new(
            nc as nat,
            |i: int| updated_count(before.start_prior, stats.start@[i], before.start_prob@[i]),
        );
        lanes_above(nc, |i: int| s[i]);
        assert(s[i] == num::<T>(0));
        assert(after.start_prob@ == normalized(s));
    }
}

/// An M-step keeps structural zeros: a transition that is zero stays zero.
pub proof fn mstep_keeps_forbidden_transitions<T: Dense>(
    before: &Em<T>,
    stats: &CoreStats<T>,
    params: ParamSet,
    after: &Em<T>,
    i: int,
    j: int,
)
    requires
        before.shaped(),
        before.mstep_rel(stats, params, after),
        0 <= i < before.n_components,
        0 <= j < before.n_components,
        before.trans_mat.at(i, j) == num::<T>(0),
        zero_stays_zero::<T>(),
    ensures
        after.trans_mat.at(i, j) == num::<T>(0),
{
    if params.members().contains(Param::Trans) {
        let counts = choose|counts: Matrix<T>| #[trigger]
            updated_transitions(before, stats, &counts) && normalized_rows(
                &counts,
                &after.trans_mat,
            );
        let row = |k: int| counts.at(i, k);
        assert forall|k: int| 0 <= k < before.n_components implies zero_or_above(
            #[trigger] row(k),
        ) by {
            assert(counts.at(i, k) == updated_count(
                before.trans_prior,
                stats.trans.at(i, k),
                before.trans_mat.at(i, k),
            ));
        }
        lanes_above(before.n_components as int, row);
        assert(counts.at(i, j) == num::<T>(0));
        assert(after.trans_mat.at(i, j) == num::<T>(0).s_over(divisor(row_total(&counts, i))));
    }
}

} // verus!
