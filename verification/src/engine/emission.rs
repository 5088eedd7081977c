//! The emission axis: everything specific to how a model produces observations,
//! expressed as a trait so that the generic model core can drive any emission.
//!
//! Each emission fixes an [`Inference`] strategy through its associated type and
//! owns a concrete sufficient-statistics type.

use crate::engine::inference::Inference;
use crate::engine::params::{Param, ParamSet};
use crate::error::HmmError;
use crate::linalg::Dense;
use crate::matrix::Matrix;
use crate::rng::state::{NumpyRandomState, RngView};
use vstd::prelude::*;

verus! {

/// `sub` holds the rows of `x` from `begin` up to, not including, `end`.
pub open spec fn is_slice<T>(x: &Matrix<T>, begin: int, end: int, sub: &Matrix<T>) -> bool {
    &&& 0 <= begin <= end <= x.rows.len()
    &&& sub.has_dims(end - begin, x.ncols as int)
    &&& sub@ == x@.subrange(begin, end)
}

/// An emission distribution family.
pub trait EmissionModel<T: Dense>: Clone {
    /// The start and transition inference strategy this emission is wired to.
    type Inference: Inference<T>;

    /// Emission-specific sufficient statistics accumulated during the E-step.
    type Stats;

    /// The stored arrays are rectangular and belong together.
    spec fn wf(&self) -> bool;

    /// The number of states.
    spec fn states(&self) -> int;

    /// The number of features is known.
    spec fn featured(&self) -> bool;

    /// The number of features, once it is known.
    spec fn features(&self) -> int;

    /// The number of columns of an observation matrix.
    spec fn columns(&self) -> int;

    /// Every parameter is set and has the shape that the states and features ask
    /// for.
    spec fn fits(&self) -> bool;

    /// What [`EmissionModel::check`] accepts for `nc` states.
    spec fn valid(&self, nc: int) -> bool;

    /// The observation matrices that [`EmissionModel::check_and_set_n_features`] can
    /// look at.
    spec fn readable(&self, x: &Matrix<T>) -> bool;

    /// The observation matrices that the parameter groups of `init`, and those not
    /// set yet, can be initialised from.
    spec fn initable(&self, x: &Matrix<T>, init: Set<Param>) -> bool;

    /// The observation matrices that, once accepted, can be passed over.
    spec fn scannable(&self, x: &Matrix<T>) -> bool;

    /// The number of features is one that `x` was accepted with.
    spec fn matched(&self, x: &Matrix<T>) -> bool;

    /// What [`EmissionModel::check_and_set_n_features`] accepts.
    spec fn accepts(&self, x: &Matrix<T>) -> bool;

    /// The error for observations that are not accepted.
    spec fn refusal(&self, x: &Matrix<T>, e: HmmError) -> bool;

    /// What looking at observations that are not accepted makes of `self`.
    spec fn refused_rel(&self, x: &Matrix<T>, after: &Self) -> bool;

    /// The error for parameters that are not valid.
    spec fn flaw(&self, nc: int, e: HmmError) -> bool;

    /// The error for an initialisation that fails.
    spec fn init_flaw(&self, e: HmmError) -> bool;

    /// The error for an M-step that fails.
    spec fn mstep_flaw(&self, e: HmmError) -> bool;

    /// The observation matrices that the current number of features allows.
    spec fn observable(&self, x: &Matrix<T>) -> bool;

    /// The parameter groups this emission owns.
    spec fn owned_params() -> Seq<Param>;

    /// Free scalars of the emission parameters in `params`.
    spec fn scalars(&self, nc: int, params: ParamSet) -> int;

    /// What looking at `x` makes of `self`.
    spec fn set_rel(&self, x: &Matrix<T>, after: &Self) -> bool;

    /// Initialisation succeeds.
    spec fn init_ok(&self, x: &Matrix<T>, init: ParamSet, seed: Option<u32>) -> bool;

    /// What initialisation makes of `self`.
    spec fn init_rel(
        &self,
        x: &Matrix<T>,
        init: ParamSet,
        seed: Option<u32>,
        after: &Self,
    ) -> bool;

    /// Log-likelihood of row `t` of `x` in state `c`.
    spec fn log_like(&self, x: &Matrix<T>, t: int, c: int) -> T;

    /// Likelihood of row `t` of `x` in state `c`.
    spec fn like(&self, x: &Matrix<T>, t: int, c: int) -> T;

    /// Log-likelihood that the E-step uses.
    spec fn fit_log_like(&self, x: &Matrix<T>, t: int, c: int) -> T;

    /// Likelihood that the E-step uses.
    spec fn fit_like(&self, x: &Matrix<T>, t: int, c: int) -> T;

    /// The statistics have the shapes of this emission.
    spec fn stats_fit(&self, stats: &Self::Stats) -> bool;

    /// The statistics before any sequence.
    spec fn zero_stats(&self, stats: &Self::Stats) -> bool;

    /// What a sequence `x` with state posteriors `post` makes of the statistics.
    spec fn accumulate_rel(
        &self,
        before: &Self::Stats,
        x: &Matrix<T>,
        post: &Matrix<T>,
        params: ParamSet,
        after: &Self::Stats,
    ) -> bool;

    /// The M-step succeeds.
    spec fn mstep_ok(&self, stats: &Self::Stats, params: ParamSet) -> bool;

    /// What the M-step makes of `self`.
    spec fn mstep_rel(&self, stats: &Self::Stats, params: ParamSet, after: &Self) -> bool;

    /// Observations can be drawn.
    spec fn samplable(&self) -> bool;

    /// One observation drawn from a state, and the random state after it.
    spec fn draw(&self, state: int, s: RngView<T>) -> (RngView<T>, Option<Seq<T>>);

    /// Contribution to the lower bound; none where it cannot be computed.
    spec fn contribution(&self) -> Option<T>;

    /// What the hook at the start of an E-step makes of `self`.
    spec fn begin_rel(&self, after: &Self) -> bool;

    /// A slice of an allowed observation matrix is allowed.
    proof fn slices_observable(&self, x: &Matrix<T>, begin: int, end: int, sub: &Matrix<T>)
        requires
            self.observable(x),
            is_slice(x, begin, end, sub),
        ensures
            self.observable(sub),
    ;

    /// The likelihoods of a row depend on its entries alone.
    proof fn likelihoods_of_row(&self, x: &Matrix<T>, t: int, y: &Matrix<T>, u: int, c: int)
        requires
            x.ncols == y.ncols,
            x.row_view(t) == y.row_view(u),
        ensures
            self.log_like(x, t, c) == self.log_like(y, u, c),
            self.like(x, t, c) == self.like(y, u, c),
            self.fit_log_like(x, t, c) == self.fit_log_like(y, u, c),
            self.fit_like(x, t, c) == self.fit_like(y, u, c),
    ;

    /// Parameters of the right shape come with a known number of features.
    proof fn fits_featured(&self)
        requires
            self.wf(),
            self.fits(),
        ensures
            self.featured(),
    ;

    /// The parameter groups this emission owns, beyond start and transitions.
    fn emission_params() -> (r: Vec<Param>)
        ensures
            r@ == Self::owned_params(),
    ;

    /// Number of features.
    fn n_features(&self) -> (n: usize)
        requires
            self.wf(),
            self.featured(),
        ensures
            n == self.features(),
    ;

    /// Validate `x` and infer or confirm the number of features.
    fn check_and_set_n_features(&mut self, x: &Matrix<T>) -> (r: Result<(), HmmError>)
        requires
            old(self).wf(),
            x.wf(),
            old(self).readable(x),
        ensures
            final(self).wf(),
            final(self).states() == old(self).states(),
            r is Ok <==> old(self).accepts(x),
            r matches Err(e) ==> old(self).refusal(x, e),
            r is Ok ==> old(self).set_rel(x, &*final(self)),
            r is Ok ==> final(self).featured() && final(self).matched(x),
            r is Ok && old(self).scannable(x) ==> final(self).observable(x),
            r is Ok ==> forall|init: Set<Param>|
                old(self).initable(x, init) ==> #[trigger] final(self).initable(x, init),
            r is Err ==> old(self).refused_rel(x, &*final(self)),
    ;

    /// Initialise the parameter groups selected by `init`, and those not set yet.
    fn init(&mut self, x: &Matrix<T>, init: ParamSet, seed: Option<u32>) -> (r: Result<
        (),
        HmmError,
    >)
        requires
            old(self).wf(),
            old(self).states() >= 1,
            old(self).featured(),
            x.wf(),
            old(self).initable(x, init.members()),
            old(self).matched(x),
        ensures
            final(self).wf(),
            final(self).states() == old(self).states(),
            r is Ok <==> old(self).init_ok(x, init, seed),
            r matches Err(e) ==> old(self).init_flaw(e),
            r is Ok ==> old(self).init_rel(x, init, seed, &*final(self)) && final(self).featured()
                && (old(self).observable(x) ==> final(self).observable(x)),
    ;

    /// Validate the emission parameters.
    fn check(&self, n_components: usize) -> (r: Result<(), HmmError>)
        requires
            self.wf(),
            n_components == self.states(),
        ensures
            r is Ok <==> self.valid(n_components as int),
            r matches Err(e) ==> self.flaw(n_components as int, e),
            r is Ok ==> self.fits(),
    ;

    /// Free scalars of the emission parameters in `params`, clamped to the largest
    /// machine integer.
    fn n_fit_scalars(&self, n_components: usize, params: ParamSet) -> (n: usize)
        requires
            self.wf(),
            self.featured(),
        ensures
            n == crate::counting::saturated(self.scalars(n_components as int, params)),
            0 <= self.scalars(n_components as int, params),
    ;

    /// Per-state emission log-likelihood, `(n_samples, n_components)`.
    fn log_likelihood(&self, x: &Matrix<T>) -> (r: Matrix<T>)
        requires
            self.wf(),
            self.fits(),
            x.wf(),
            self.observable(x),
        ensures
            r.has_dims(x.rows.len() as int, self.states()),
            forall|t: int, c: int|
                0 <= t < x.rows.len() && 0 <= c < self.states() ==> #[trigger] r.at(t, c)
                    == self.log_like(x, t, c),
    ;

    /// Per-state emission likelihood, for the scaling path.
    fn likelihood(&self, x: &Matrix<T>) -> (r: Matrix<T>)
        requires
            self.wf(),
            self.fits(),
            x.wf(),
            self.observable(x),
        ensures
            r.has_dims(x.rows.len() as int, self.states()),
            forall|t: int, c: int|
                0 <= t < x.rows.len() && 0 <= c < self.states() ==> #[trigger] r.at(t, c)
                    == self.like(x, t, c),
    ;

    /// Emission log-likelihood used inside the E-step.
    fn fit_log_likelihood(&self, x: &Matrix<T>) -> (r: Matrix<T>)
        requires
            self.wf(),
            self.fits(),
            x.wf(),
            self.observable(x),
        ensures
            r.has_dims(x.rows.len() as int, self.states()),
            forall|t: int, c: int|
                0 <= t < x.rows.len() && 0 <= c < self.states() ==> #[trigger] r.at(t, c)
                    == self.fit_log_like(x, t, c),
    ;

    /// Emission likelihood used inside the E-step.
    fn fit_likelihood(&self, x: &Matrix<T>) -> (r: Matrix<T>)
        requires
            self.wf(),
            self.fits(),
            x.wf(),
            self.observable(x),
        ensures
            r.has_dims(x.rows.len() as int, self.states()),
            forall|t: int, c: int|
                0 <= t < x.rows.len() && 0 <= c < self.states() ==> #[trigger] r.at(t, c)
                    == self.fit_like(x, t, c),
    ;

    /// Zeroed emission sufficient statistics.
    fn init_stats(&self) -> (r: Self::Stats)
        requires
            self.wf(),
            self.fits(),
        ensures
            self.zero_stats(&r),
            self.stats_fit(&r),
    ;

    /// Accumulate emission statistics from one sequence's posteriors.
    fn accumulate(
        &self,
        stats: &mut Self::Stats,
        x: &Matrix<T>,
        posteriors: &Matrix<T>,
        params: ParamSet,
    )
        requires
            self.wf(),
            self.fits(),
            self.stats_fit(&*old(stats)),
            x.wf(),
            x.rows.len() >= 1,
            self.observable(x),
            posteriors.has_dims(x.rows.len() as int, self.states()),
        ensures
            self.stats_fit(&*final(stats)),
            self.accumulate_rel(&*old(stats), x, posteriors, params, &*final(stats)),
    ;

    /// Update emission parameters from accumulated statistics.
    fn mstep(&mut self, stats: &Self::Stats, params: ParamSet) -> (r: Result<(), HmmError>)
        requires
            old(self).wf(),
            old(self).fits(),
            old(self).stats_fit(stats),
        ensures
            final(self).wf(),
            final(self).states() == old(self).states(),
            forall|y: &Matrix<T>| #[trigger] final(self).observable(y) == old(self).observable(y),
            r is Ok <==> old(self).mstep_ok(stats, params),
            r matches Err(e) ==> old(self).mstep_flaw(e),
            r is Ok ==> old(self).mstep_rel(stats, params, &*final(self)) && final(self).fits(),
    ;

    /// Draw one observation from the given state. `None` if the draw gives up.
    fn sample_state(&self, state: usize, rng: &mut NumpyRandomState<T>) -> (r: Option<Vec<T>>)
        requires
            self.wf(),
            self.fits(),
            self.samplable(),
            state < self.states(),
            old(rng).wf(),
        ensures
            final(rng).wf(),
            match r {
                Some(v) => self.draw(state as int, old(rng)@) == (final(rng)@, Some(v@)) && v.len()
                    == self.columns(),
                None => self.draw(state as int, old(rng)@).1 is None,
            },
    ;

    /// Emission contribution to the lower bound.
    fn lower_bound_contribution(&self) -> (r: Option<T>)
        requires
            self.wf(),
            self.fits(),
        ensures
            r == self.contribution(),
    ;

    /// Hook at the start of each E-step.
    fn estep_begin(&mut self)
        requires
            old(self).wf(),
            old(self).fits(),
        ensures
            final(self).wf(),
            final(self).fits(),
            final(self).states() == old(self).states(),
            forall|y: &Matrix<T>| #[trigger] final(self).observable(y) == old(self).observable(y),
            old(self).begin_rel(&*final(self)),
    ;
}

} // verus!
