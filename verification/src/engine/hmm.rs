//! The generic model: its settings, and the passes over one sequence.

use crate::counting::{clamped_sum, saturated};
use crate::engine::algorithms::{
    backward_log, backward_log_row, backward_scaled_row, backward_scaling, compute_log_xi_sum,
    compute_posteriors_log, compute_posteriors_scaling, compute_scaling_xi_sum, forward_log,
    forward_log_lattice, forward_log_row, forward_raw_row, forward_scaled_row, forward_scaling,
    log_gather, log_posterior_at, log_xi, scale_of, scaled_log_prob, scaled_posterior_at,
    scaled_xi, underflows,
};
use crate::engine::emission::EmissionModel;
use crate::engine::inference::{start_trans_fit_scalars, start_trans_scalars, CoreStats, Inference};
use crate::engine::monitor::ConvergenceMonitor;
use crate::engine::params::{DecoderAlgorithm, Implementation, Param, ParamSet};
use crate::error::HmmError;
use crate::linalg::Dense;
use crate::matrix::{tabulate, Matrix};
use crate::scalar::{sigma, Scalar};
use crate::special::log_sum_exp;
use crate::text::digits;
use vstd::prelude::*;
use vstd::string::StringExecFns;

verus! {

/// Which likelihood a forward-backward pass uses.
#[derive(Debug, Clone, Copy, PartialEq, Eq, Structural)]
pub enum FbMode {
    /// Fitting pass: the likelihoods of the E-step.
    Fit,
    /// Scoring pass: the ordinary emission likelihoods.
    Score,
}

/// One sequence's forward-backward results.
pub struct ForwardBackward<T> {
    /// Frame likelihood (scaling) or log-likelihood (log).
    pub frameprob: Matrix<T>,
    /// Sequence log-likelihood.
    pub log_prob: T,
    /// Per-sample state posteriors.
    pub posteriors: Matrix<T>,
    /// Forward lattice.
    pub fwd: Matrix<T>,
    /// Backward lattice.
    pub bwd: Matrix<T>,
}

impl<T: Scalar> ForwardBackward<T> {
    /// The results are those of the recursions in log space.
    pub open spec fn is_log(&self, start: Seq<T>, trans: &Matrix<T>) -> bool {
        let ns = self.frameprob.rows.len() as int;
        &&& self.fwd@ == forward_log_lattice(start, trans, &self.frameprob)
        &&& self.log_prob == log_sum_exp(forward_log_row(start, trans, &self.frameprob, ns - 1))
        &&& self.bwd@ == Seq::new(ns as nat, |t: int| backward_log_row(trans, &self.frameprob, t))
        &&& forall|t: int, j: int|
            0 <= t < ns && 0 <= j < self.frameprob.ncols ==> #[trigger] self.posteriors.at(t, j)
                == log_posterior_at(&self.fwd, &self.bwd, t, j)
    }

    /// The results are those of the recursions with scaling.
    pub open spec fn is_scaled(&self, start: Seq<T>, trans: &Matrix<T>) -> bool {
        let ns = self.frameprob.rows.len() as int;
        &&& forall|t: int| 0 <= t < ns ==> !underflows(start, trans, &self.frameprob, t)
        &&& self.fwd@ == Seq::new(
            ns as nat,
            |t: int| forward_scaled_row(start, trans, &self.frameprob, t),
        )
        &&& self.log_prob == scaled_log_prob(start, trans, &self.frameprob, ns)
        &&& self.bwd@ == Seq::new(
            ns as nat,
            |t: int|
                backward_scaled_row(
                    trans,
                    &self.frameprob,
                    Seq::new(
                        ns as nat,
                        |u: int| scale_of(forward_raw_row(start, trans, &self.frameprob, u)),
                    ),
                    t,
                ),
        )
        &&& forall|t: int, j: int|
            0 <= t < ns && 0 <= j < self.frameprob.ncols ==> #[trigger] self.posteriors.at(t, j)
                == scaled_posterior_at(&self.fwd, &self.bwd, t, j)
    }

    /// Every array has a row for each of the `ns` frames and a column for each of
    /// the `nc` states.
    pub open spec fn has_dims(&self, ns: int, nc: int) -> bool {
        &&& self.frameprob.has_dims(ns, nc)
        &&& self.posteriors.has_dims(ns, nc)
        &&& self.fwd.has_dims(ns, nc)
        &&& self.bwd.has_dims(ns, nc)
    }

    /// The results are those of a pass in the given implementation.
    pub open spec fn is_pass(
        &self,
        implementation: Implementation,
        start: Seq<T>,
        trans: &Matrix<T>,
    ) -> bool {
        match implementation {
            Implementation::Log => self.is_log(start, trans),
            Implementation::Scaling => self.is_scaled(start, trans),
        }
    }

    /// The expected transitions from `i` to `j` that the pass found.
    pub open spec fn transitions(
        &self,
        implementation: Implementation,
        trans: &Matrix<T>,
        i: int,
        j: int,
    ) -> T {
        let ns = self.frameprob.rows.len() as int;
        match implementation {
            Implementation::Log => log_gather(
                ns - 1,
                |t: int|
                    log_xi(
                        &self.fwd,
                        trans,
                        &self.bwd,
                        &self.frameprob,
                        log_sum_exp(self.fwd.row_view(ns - 1)),
                        i,
                        j,
                        t,
                    ),
            ).s_exp(),
            Implementation::Scaling => sigma(
                ns - 1,
                |t: int| scaled_xi(&self.fwd, trans, &self.bwd, &self.frameprob, i, j, t),
            ),
        }
    }
}

/// The frame value of row `t` in state `c` that a pass works with.
pub open spec fn frame_value<T: Dense, E: EmissionModel<T>>(
    emission: &E,
    implementation: Implementation,
    mode: FbMode,
    sub: &Matrix<T>,
    t: int,
    c: int,
) -> T {
    match (implementation, mode) {
        (Implementation::Log, FbMode::Fit) => emission.fit_log_like(sub, t, c),
        (Implementation::Log, FbMode::Score) => emission.log_like(sub, t, c),
        (Implementation::Scaling, FbMode::Fit) => emission.fit_like(sub, t, c),
        (Implementation::Scaling, FbMode::Score) => emission.like(sub, t, c),
    }
}

/// `frames` holds the frame values of a pass over `sub`.
pub open spec fn frames_of<T: Dense, E: EmissionModel<T>>(
    emission: &E,
    implementation: Implementation,
    mode: FbMode,
    sub: &Matrix<T>,
    frames: &Matrix<T>,
) -> bool {
    &&& frames.has_dims(sub.rows.len() as int, emission.states())
    &&& forall|t: int, c: int|
        0 <= t < sub.rows.len() && 0 <= c < emission.states() ==> #[trigger] frames.at(t, c)
            == frame_value(emission, implementation, mode, sub, t, c)
}

/// The scaling pass over `sub` underflows.
pub open spec fn pass_underflows<T: Dense, E: EmissionModel<T>>(
    emission: &E,
    implementation: Implementation,
    mode: FbMode,
    start: Seq<T>,
    trans: &Matrix<T>,
    sub: &Matrix<T>,
) -> bool {
    implementation == Implementation::Scaling && exists|frames: Matrix<T>, t: int|
        frames_of(emission, implementation, mode, sub, &frames) && 0 <= t < sub.rows.len()
            && #[trigger] underflows(start, trans, &frames, t)
}

/// What a sequence with results `fb` makes of the start and transition
/// statistics: the first posterior is added to the start counts, and, where the
/// sequence has a transition at all, its expected transitions to the others.
pub open spec fn core_rel<T: Scalar>(
    before: &CoreStats<T>,
    fb: &ForwardBackward<T>,
    implementation: Implementation,
    trans: &Matrix<T>,
    params: ParamSet,
    after: &CoreStats<T>,
) -> bool {
    let nc = fb.frameprob.ncols as int;
    &&& after.nobs == before.nobs + 1
    &&& after.fits(nc)
    &&& forall|i: int|
        0 <= i < nc ==> #[trigger] after.start@[i] == if params.members().contains(Param::Start) {
            before.start@[i].s_plus(fb.posteriors.at(0, i))
        } else {
            before.start@[i]
        }
    &&& forall|i: int, j: int|
        0 <= i < nc && 0 <= j < nc ==> #[trigger] after.trans.at(i, j) == if params.members().contains(
            Param::Trans,
        ) && fb.posteriors.rows.len() > 1 {
            before.trans.at(i, j).s_plus(fb.transitions(implementation, trans, i, j))
        } else {
            before.trans.at(i, j)
        }
}

/// A hidden Markov model: an emission family over a start and transition core.
#[derive(Clone)]
pub struct Hmm<T: Dense, E: EmissionModel<T>> {
    /// The emission distribution family.
    pub emission: E,
    /// The start and transition inference strategy paired with it.
    pub inference: E::Inference,
    /// Default decoding algorithm.
    pub algorithm: DecoderAlgorithm,
    /// Numerical strategy of the forward-backward passes.
    pub implementation: Implementation,
    /// Parameter groups updated during fitting.
    pub params: ParamSet,
    /// Parameter groups initialised before fitting.
    pub init_params: ParamSet,
    /// Maximum number of iterations.
    pub n_iter: usize,
    /// Optional seed for initialisation and sampling.
    pub random_state: Option<u32>,
    /// Convergence monitor.
    pub monitor: ConvergenceMonitor<T>,
    /// What fitting had to say: notes, reports and warnings, in order.
    pub notes: Vec<String>,
}

/// The notes as texts.
pub open spec fn texts(notes: Seq<String>) -> Seq<Seq<char>> {
    notes.map_values(|s: String| s@)
}

/// The note on a model with more free scalars than the data has points.
pub open spec fn degenerate_note(scalars: nat, points: nat) -> Seq<char> {
    "Fitting a model with "@ + digits(scalars) + " free scalar parameters with only "@ + digits(
        points,
    ) + " data points will result in a degenerate solution."@
}

impl<T: Dense, E: EmissionModel<T>> Hmm<T, E> {
    /// Emission and inference are well formed and agree on a positive number of
    /// states.
    pub open spec fn wf(&self) -> bool {
        &&& self.emission.wf()
        &&& self.inference.wf()
        &&& self.emission.states() == self.inference.states()
        &&& self.inference.states() >= 1
    }

    /// Every parameter has the shape that states and features ask for.
    pub open spec fn shaped(&self) -> bool {
        self.wf() && self.emission.fits() && self.inference.shaped()
    }

    /// The settings of the model are those of `other`.
    pub open spec fn same_settings(&self, other: &Self) -> bool {
        &&& self.algorithm == other.algorithm
        &&& self.implementation == other.implementation
        &&& self.params == other.params
        &&& self.init_params == other.init_params
        &&& self.n_iter == other.n_iter
        &&& self.random_state == other.random_state
        &&& self.monitor.tol == other.monitor.tol
        &&& self.monitor.n_iter == other.monitor.n_iter
        &&& self.monitor.verbose == other.monitor.verbose
    }

    /// The monitor reports convergence.
    pub open spec fn has_converged(&self) -> bool {
        self.monitor.iter == self.monitor.n_iter || self.monitor.stalled()
    }

    /// Number of hidden states.
    pub fn n_components(&self) -> (n: usize)
        ensures
            n == self.inference.states(),
    {
        self.inference.n_components()
    }

    /// Free scalars across the parameter groups in `params`.
    pub open spec fn scalars(&self, params: ParamSet) -> int {
        let nc = self.inference.states();
        start_trans_scalars(nc, params) + self.emission.scalars(nc, params)
    }

    /// Free scalars across the parameter groups in `params`, clamped to the
    /// largest machine integer.
    pub fn fit_scalars(&self, params: ParamSet) -> (n: usize)
        requires
            self.wf(),
            self.emission.featured(),
        ensures
            n == saturated(self.scalars(params)),
    {
        let nc: usize = self.n_components();
        let a: usize = start_trans_fit_scalars(nc, params);
        let b: usize = self.emission.n_fit_scalars(nc, params);
        assert(0 <= nc * (nc - 1)) by (nonlinear_arith)
            requires
                nc >= 1,
        ;
        clamped_sum(a, b)
    }

    /// Free scalars across every parameter group, clamped to the largest machine
    /// integer.
    pub fn total_fit_scalars(&self) -> (n: usize)
        requires
            self.wf(),
            self.emission.featured(),
        ensures
            exists|all: ParamSet|
                n == saturated(#[trigger] self.scalars(all)) && all.wf() && (forall|p: Param|
                    all.members().contains(p) <==> (p == Param::Start || p == Param::Trans
                        || E::owned_params().contains(p))),
    {
        let mut all = ParamSet::empty();
        all.insert(Param::Start);
        all.insert(Param::Trans);
        let owned = E::emission_params();
        let mut i: usize = 0;
        while i < owned.len()
            invariant
                i <= owned.len(),
                all.wf(),
                owned@ == E::owned_params(),
                forall|p: Param|
                    #![trigger all.members().contains(p)]
                    all.members().contains(p) <==> (p == Param::Start || p == Param::Trans
                        || owned@.take(i as int).contains(p)),
            decreases owned.len() - i,
        {
            let q = owned[i];
            proof {
                let shorter = owned@.take(i as int);
                let longer = owned@.take(i as int + 1);
                assert(longer =~= shorter.push(q));
                assert forall|p: Param| longer.contains(p) <==> (shorter.contains(p) || p == q) by {
                    if shorter.contains(p) {
                        let k = choose|k: int| 0 <= k < shorter.len() && shorter[k] == p;
                        assert(longer[k] == p);
                    }
                    if p == q {
                        assert(longer[i as int] == p);
                    }
                }
            }
            all.insert(q);
            i += 1;
        }
        proof {
            assert(owned@.take(owned@.len() as int) =~= owned@);
        }
        self.fit_scalars(all)
    }

    /// The frame values of the current pass.
    fn frames(&self, sub: &Matrix<T>, mode: FbMode) -> (r: Matrix<T>)
        requires
            self.shaped(),
            sub.wf(),
            self.emission.observable(sub),
        ensures
            frames_of(&self.emission, self.implementation, mode, sub, &r),
    {
        match self.implementation {
            Implementation::Log => match mode {
                FbMode::Fit => self.emission.fit_log_likelihood(sub),
                FbMode::Score => self.emission.log_likelihood(sub),
            },
            Implementation::Scaling => match mode {
                FbMode::Fit => self.emission.fit_likelihood(sub),
                FbMode::Score => self.emission.likelihood(sub),
            },
        }
    }

    /// Run forward-backward for one sequence using `(start, trans)`.
    pub fn forward_backward(
        &self,
        start: &Vec<T>,
        trans: &Matrix<T>,
        sub: &Matrix<T>,
        mode: FbMode,
    ) -> (r: Result<ForwardBackward<T>, HmmError>)
        requires
            self.shaped(),
            sub.wf(),
            sub.rows.len() >= 1,
            self.emission.observable(sub),
            start.len() == self.inference.states(),
            trans.has_dims(self.inference.states(), self.inference.states()),
        ensures
            match r {
                Ok(fb) => {
                    &&& fb.has_dims(sub.rows.len() as int, self.inference.states())
                    &&& frames_of(&self.emission, self.implementation, mode, sub, &fb.frameprob)
                    &&& fb.is_pass(self.implementation, start@, trans)
                },
                Err(e) => e == HmmError::ScalingUnderflow && pass_underflows(
                    &self.emission,
                    self.implementation,
                    mode,
                    start@,
                    trans,
                    sub,
                ),
            },
    {
        let frameprob = self.frames(sub, mode);
        match self.implementation {
            Implementation::Log => {
                let (log_prob, fwd) = forward_log(start, trans, &frameprob);
                let bwd = backward_log(start, trans, &frameprob);
                let posteriors = compute_posteriors_log(&fwd, &bwd);
                Ok(ForwardBackward { frameprob, log_prob, posteriors, fwd, bwd })
            },
            Implementation::Scaling => {
                match forward_scaling(start, trans, &frameprob) {
                    Err(e) => {
                        proof {
                            let t = choose|t: int|
                                0 <= t < frameprob.rows.len() && underflows(
                                    start@,
                                    trans,
                                    &frameprob,
                                    t,
                                );
                            assert(underflows(start@, trans, &frameprob, t));
                        }
                        Err(e)
                    },
                    Ok((log_prob, fwd, scaling)) => {
                        let bwd = backward_scaling(start, trans, &frameprob, &scaling);
                        let posteriors = compute_posteriors_scaling(&fwd, &bwd);
                        Ok(ForwardBackward { frameprob, log_prob, posteriors, fwd, bwd })
                    },
                }
            },
        }
    }

    /// The expected transitions of a pass.
    fn expected_transitions(&self, fb: &ForwardBackward<T>, trans: &Matrix<T>) -> (xi: Matrix<T>)
        requires
            fb.has_dims(fb.frameprob.rows.len() as int, fb.frameprob.ncols as int),
            fb.frameprob.rows.len() >= 1,
            trans.has_dims(fb.frameprob.ncols as int, fb.frameprob.ncols as int),
        ensures
            xi.has_dims(fb.frameprob.ncols as int, fb.frameprob.ncols as int),
            forall|i: int, j: int|
                0 <= i < fb.frameprob.ncols && 0 <= j < fb.frameprob.ncols ==> #[trigger] xi.at(i, j)
                    == fb.transitions(self.implementation, trans, i, j),
    {
        let nc: usize = fb.frameprob.ncols;
        match self.implementation {
            Implementation::Log => {
                let logs = compute_log_xi_sum(&fb.fwd, trans, &fb.bwd, &fb.frameprob);
                let f = |i: usize, j: usize| -> (x: T)
                    requires
                        logs.has_dims(nc as int, nc as int),
                        i < nc,
                        j < nc,
                    ensures
                        x == logs.at(i as int, j as int).s_exp(),
                {
                    logs.get(i, j).exp()
                };
                Matrix::tabulate(nc, nc, f)
            },
            Implementation::Scaling => compute_scaling_xi_sum(
                &fb.fwd,
                trans,
                &fb.bwd,
                &fb.frameprob,
            ),
        }
    }

    /// Accumulate the start and transition statistics from one sequence: the first
    /// posterior into the start counts and, for sequences longer than one sample,
    /// the expected transitions.
    pub fn accumulate_core(&self, stats: &mut CoreStats<T>, fb: &ForwardBackward<T>, trans: &Matrix<T>)
        requires
            fb.has_dims(fb.frameprob.rows.len() as int, fb.frameprob.ncols as int),
            fb.frameprob.rows.len() >= 1,
            trans.has_dims(fb.frameprob.ncols as int, fb.frameprob.ncols as int),
            old(stats).fits(fb.frameprob.ncols as int),
            old(stats).nobs < usize::MAX,
        ensures
            core_rel(
                &*old(stats),
                fb,
                self.implementation,
                trans,
                self.params,
                &*final(stats),
            ),
    {
        let nc: usize = fb.frameprob.ncols;
        stats.nobs = stats.nobs + 1;
        if self.params.contains(Param::Start) {
            let current = &stats.start;
            let f = |i: usize| -> (x: T)
                requires
                    i < nc,
                    current.len() == nc,
                    fb.posteriors.has_dims(fb.posteriors.rows.len() as int, nc as int),
                    fb.posteriors.rows.len() >= 1,
                ensures
                    x == current@[i as int].s_plus(fb.posteriors.at(0, i as int)),
            {
                current[i].plus(fb.posteriors.get(0, i))
            };
            let start = tabulate(nc, f);
            stats.start = start;
        }
        // A sequence of one sample has no transitions to accumulate.
        if self.params.contains(Param::Trans) && fb.posteriors.rows.len() > 1 {
            let xi = self.expected_transitions(fb, trans);
            let current = &stats.trans;
            let f = |i: usize, j: usize| -> (x: T)
                requires
                    i < nc,
                    j < nc,
                    current.has_dims(nc as int, nc as int),
                    xi.has_dims(nc as int, nc as int),
                ensures
                    x == current.at(i as int, j as int).s_plus(xi.at(i as int, j as int)),
            {
                current.get(i, j).plus(xi.get(i, j))
            };
            let sums = Matrix::tabulate(nc, nc, f);
            stats.trans = sums;
        }
    }
}

} // verus!
