//! Fitting: initialisation, then rounds of E-step and M-step until the monitor
//! reports convergence.
//!
//! The contract of a fit is a run: a sequence of models, each the result of one
//! iteration on the one before it.

use crate::counting::{clamped_product, saturated};
use crate::engine::emission::{is_slice, EmissionModel};
use crate::engine::fitted::Fitted;
use crate::engine::hmm::{
    core_rel, degenerate_note, frames_of, pass_underflows, texts, FbMode, ForwardBackward, Hmm,
};
use crate::engine::inference::{is_gave_up, CoreStats, Inference};
use crate::engine::monitor::report_lines;
use crate::engine::params::Param;
use crate::error::HmmError;
use crate::linalg::Dense;
use crate::matrix::Matrix;
use crate::scalar::{num, zero, Scalar};
use crate::text::{decimal, joined};
use crate::util::{as_ints, prefix_total, ranges_of, split_lengths};
use vstd::prelude::*;
use vstd::string::StringExecFns;

verus! {

/// Every range is a non-empty stretch of the first `n` rows.
pub open spec fn ranges_ok(ranges: Seq<(usize, usize)>, n: int) -> bool {
    forall|i: int| 0 <= i < ranges.len() ==> (#[trigger] ranges[i]).0 < ranges[i].1 <= n
}

/// The lengths sum up without overflow.
pub open spec fn sums_up(lengths: Option<&[usize]>) -> bool {
    lengths matches Some(ls) ==> prefix_total(ls@, ls@.len() as int) <= usize::MAX
}

/// The lengths sum up without overflow and, where their sum is the number of rows,
/// leave no sequence empty.
pub open spec fn lengths_ok(lengths: Option<&[usize]>, n: int) -> bool {
    &&& sums_up(lengths)
    &&& match lengths {
        None => n >= 1,
        Some(ls) => prefix_total(ls@, ls@.len() as int) == n ==> forall|i: int|
            0 <= i < ls@.len() ==> #[trigger] ls@[i] >= 1,
    }
}

/// What fitting an emission to `x` asks for. Lengths that do not sum to the number
/// of rows are refused before `x` is looked at, and observations that are not
/// accepted before anything is initialised from them; without an iteration no
/// sequence is passed over.
pub open spec fn fit_ready<T: Dense, E: EmissionModel<T>>(
    e: &E,
    init: Set<Param>,
    n_iter: usize,
    x: &Matrix<T>,
    lengths: Option<&[usize]>,
) -> bool {
    &&& sums_up(lengths)
    &&& !lengths_mismatch(lengths, x.rows.len() as int) ==> {
        &&& e.readable(x)
        &&& e.accepts(x) ==> {
            &&& e.initable(x, init)
            &&& n_iter >= 1 ==> lengths_ok(lengths, x.rows.len() as int) && e.scannable(x)
        }
    }
}

/// The lengths do not sum to the number of rows.
pub open spec fn lengths_mismatch(lengths: Option<&[usize]>, n: int) -> bool {
    lengths matches Some(ls) && prefix_total(ls@, ls@.len() as int) != n
}

/// `ranges` is the split of `n` rows by `lengths`.
pub open spec fn is_split(lengths: Option<&[usize]>, n: int, ranges: Seq<(usize, usize)>) -> bool {
    match lengths {
        None => as_ints(ranges) == seq![(0int, n)],
        Some(ls) => prefix_total(ls@, ls@.len() as int) == n && as_ints(ranges) == ranges_of(ls@),
    }
}

/// The split, or the error, and what makes the ranges usable.
pub fn split<T>(x: &Matrix<T>, lengths: Option<&[usize]>) -> (r: Result<
    Vec<(usize, usize)>,
    HmmError,
>)
    requires
        sums_up(lengths),
    ensures
        match r {
            Ok(v) => is_split(lengths, x.rows.len() as int, v@) && (lengths_ok(
                lengths,
                x.rows.len() as int,
            ) ==> ranges_ok(v@, x.rows.len() as int)),
            Err(e) => lengths_mismatch(lengths, x.rows.len() as int) && (lengths matches Some(ls)
                && e == (HmmError::LengthsMismatch {
                total: prefix_total(ls@, ls@.len() as int) as usize,
                n_samples: x.rows.len(),
            })),
        },
{
    match split_lengths(x.rows.len(), lengths) {
        Err(e) => Err(e),
        Ok(v) => {
            proof {
                let n = x.rows.len() as int;
                match lengths {
                    None => {
                        assert(as_ints(v@) =~= seq![(0int, n)]);
                    },
                    Some(ls) => {
                        assert forall|i: int|
                            lengths_ok(lengths, n) && 0 <= i < v@.len() implies (
                        #[trigger] v@[i]).0 < v@[i].1 <= n by {
                            assert(as_ints(v@).len() == ranges_of(ls@).len());
                            assert(as_ints(v@)[i] == ranges_of(ls@)[i]);
                            prefix_bound(ls@, i + 1, ls@.len() as int);
                            assert(ls@[i] >= 1);
                        }
                    },
                }
            }
            Ok(v)
        },
    }
}

proof fn prefix_bound(ls: Seq<usize>, i: int, n: int)
    requires
        0 <= i <= n <= ls.len(),
    ensures
        prefix_total(ls, i) <= prefix_total(ls, n),
    decreases n,
{
    if n > i {
        prefix_bound(ls, i, n - 1);
    }
}

/// The trace of an E-step over the first `k` sequences.
pub struct EStep<T: Dense, E: EmissionModel<T>> {
    /// The sequences.
    pub subs: Seq<Matrix<T>>,
    /// The forward-backward results of each.
    pub fbs: Seq<ForwardBackward<T>>,
    /// The start and transition statistics before the first sequence and after
    /// each.
    pub cores: Seq<CoreStats<T>>,
    /// The emission statistics before the first sequence and after each.
    pub stats: Seq<E::Stats>,
    /// The summed log-probability before the first sequence and after each.
    pub logs: Seq<T>,
}

/// Sequence `i` of the trace was sliced, passed over and accumulated.
pub open spec fn estep_at<T: Dense, E: EmissionModel<T>>(
    h: &Hmm<T, E>,
    x: &Matrix<T>,
    ranges: Seq<(usize, usize)>,
    start: Seq<T>,
    trans: &Matrix<T>,
    tr: EStep<T, E>,
    i: int,
) -> bool {
    &&& is_slice(x, ranges[i].0 as int, ranges[i].1 as int, &tr.subs[i])
    &&& tr.fbs[i].has_dims(tr.subs[i].rows.len() as int, h.inference.states())
    &&& frames_of(
        &h.emission,
        h.implementation,
        FbMode::Fit,
        &tr.subs[i],
        &tr.fbs[i].frameprob,
    )
    &&& tr.fbs[i].is_pass(h.implementation, start, trans)
    &&& core_rel(
        &tr.cores[i],
        &tr.fbs[i],
        h.implementation,
        trans,
        h.params,
        &tr.cores[i + 1],
    )
    &&& h.emission.accumulate_rel(
        &tr.stats[i],
        &tr.subs[i],
        &tr.fbs[i].posteriors,
        h.params,
        &tr.stats[i + 1],
    )
    &&& tr.logs[i + 1] == tr.logs[i].s_plus(tr.fbs[i].log_prob)
}

/// The trace is that of the first `k` sequences.
pub open spec fn estep_upto<T: Dense, E: EmissionModel<T>>(
    h: &Hmm<T, E>,
    x: &Matrix<T>,
    ranges: Seq<(usize, usize)>,
    start: Seq<T>,
    trans: &Matrix<T>,
    tr: EStep<T, E>,
    k: int,
) -> bool {
    &&& tr.subs.len() == k
    &&& tr.fbs.len() == k
    &&& tr.cores.len() == k + 1
    &&& tr.stats.len() == k + 1
    &&& tr.logs.len() == k + 1
    &&& tr.cores[0].is_zero(h.inference.states())
    &&& h.emission.zero_stats(&tr.stats[0])
    &&& tr.logs[0] == num::<T>(0)
    &&& forall|i: int| 0 <= i < k ==> #[trigger] estep_at(h, x, ranges, start, trans, tr, i)
}

/// The pass over some sequence underflows.
pub open spec fn estep_underflows<T: Dense, E: EmissionModel<T>>(
    h: &Hmm<T, E>,
    x: &Matrix<T>,
    ranges: Seq<(usize, usize)>,
    start: Seq<T>,
    trans: &Matrix<T>,
) -> bool {
    exists|sub: Matrix<T>, k: int|
        0 <= k < ranges.len() && is_slice(x, ranges[k].0 as int, ranges[k].1 as int, &sub)
            && #[trigger] at_sequence(k) && #[trigger] pass_underflows(
            &h.emission,
            h.implementation,
            FbMode::Fit,
            start,
            trans,
            &sub,
        )
}

/// Marks the index of a sequence.
pub open spec fn at_sequence(k: int) -> bool {
    true
}

/// Everything but the statistics that the E-step hands over: `mid` is `pre` after
/// the hooks at the start of the E-step.
pub open spec fn begun<T: Dense, E: EmissionModel<T>>(pre: &Hmm<T, E>, mid: &Hmm<T, E>) -> bool {
    &&& pre.emission.begin_rel(&mid.emission)
    &&& pre.inference.begin_rel(&mid.inference)
    &&& mid.same_settings(pre)
    &&& mid.monitor == pre.monitor
    &&& mid.notes == pre.notes
}

/// `post` is `mid` after the M-step that the trace leads to, with the objective
/// reported.
pub open spec fn updated<T: Dense, E: EmissionModel<T>>(
    mid: &Hmm<T, E>,
    tr: EStep<T, E>,
    contribution: T,
    post: &Hmm<T, E>,
) -> bool {
    let objective = contribution.s_plus(mid.inference.bound(tr.logs.last()));
    &&& mid.emission.contribution() == Some(contribution)
    &&& mid.inference.mstep_rel(&tr.cores.last(), mid.params, &post.inference)
    &&& mid.emission.mstep_ok(&tr.stats.last(), mid.params)
    &&& mid.emission.mstep_rel(&tr.stats.last(), mid.params, &post.emission)
    &&& post.same_settings(mid)
    &&& post.monitor.history@ == mid.monitor.history@.push(objective)
    &&& post.monitor.iter == mid.monitor.iter + 1
    &&& texts(post.notes@) == texts(mid.notes@) + report_lines(
        mid.monitor.verbose,
        mid.monitor.history@,
        mid.monitor.iter as nat,
        objective,
    )
}

/// One iteration takes `pre` to `post`: the hooks, the E-step over all sequences
/// with the parameters the inference hands out, and the M-step. The objective is
/// that of the parameters before the update.
pub open spec fn iteration<T: Dense, E: EmissionModel<T>>(
    pre: &Hmm<T, E>,
    x: &Matrix<T>,
    ranges: Seq<(usize, usize)>,
    mid: &Hmm<T, E>,
    trans: &Matrix<T>,
    tr: EStep<T, E>,
    contribution: T,
    post: &Hmm<T, E>,
) -> bool {
    &&& begun(pre, mid)
    &&& trans@ == mid.inference.estep_trans()
    &&& trans.has_dims(mid.inference.states(), mid.inference.states())
    &&& estep_upto(
        mid,
        x,
        ranges,
        mid.inference.estep_start(),
        trans,
        tr,
        ranges.len() as int,
    )
    &&& updated(mid, tr, contribution, post)
}

/// Some iteration takes `pre` to `post`.
pub open spec fn iterates<T: Dense, E: EmissionModel<T>>(
    pre: &Hmm<T, E>,
    x: &Matrix<T>,
    ranges: Seq<(usize, usize)>,
    post: &Hmm<T, E>,
) -> bool {
    exists|mid: Hmm<T, E>, trans: Matrix<T>, tr: EStep<T, E>, contribution: T| #[trigger]
        iteration(pre, x, ranges, &mid, &trans, tr, contribution, post)
}

/// The iteration from `pre` fails with the error `e`: a pass underflows, the bound
/// cannot be computed, or the emission's M-step fails.
pub open spec fn iteration_fails<T: Dense, E: EmissionModel<T>>(
    pre: &Hmm<T, E>,
    x: &Matrix<T>,
    ranges: Seq<(usize, usize)>,
    e: HmmError,
) -> bool {
    exists|mid: Hmm<T, E>, trans: Matrix<T>, tr: EStep<T, E>| #[trigger]
        iteration_stops(pre, x, ranges, &mid, &trans, tr, e)
}

/// The iteration from `pre` stops with the error `e` after the E-step trace `tr`,
/// or within it.
pub open spec fn iteration_stops<T: Dense, E: EmissionModel<T>>(
    pre: &Hmm<T, E>,
    x: &Matrix<T>,
    ranges: Seq<(usize, usize)>,
    mid: &Hmm<T, E>,
    trans: &Matrix<T>,
    tr: EStep<T, E>,
    e: HmmError,
) -> bool {
    let start = mid.inference.estep_start();
    &&& begun(pre, mid)
    &&& trans@ == mid.inference.estep_trans()
    &&& ({
        ||| estep_underflows(mid, x, ranges, start, trans) && e == HmmError::ScalingUnderflow
        ||| estep_upto(mid, x, ranges, start, trans, tr, ranges.len() as int) && if mid.emission.contribution() is None {
            is_singular(e)
        } else {
            !mid.emission.mstep_ok(&tr.stats.last(), mid.params) && mid.emission.mstep_flaw(e)
        }
    })
}

/// `states` is a run from its first model: each next one is an iteration on, and
/// none but the last has converged after an iteration.
pub open spec fn is_run<T: Dense, E: EmissionModel<T>>(
    states: Seq<Hmm<T, E>>,
    x: &Matrix<T>,
    ranges: Seq<(usize, usize)>,
) -> bool {
    &&& states.len() >= 1
    &&& forall|i: int|
        0 <= i < states.len() - 1 ==> #[trigger] iterates(
            &states[i],
            x,
            ranges,
            &states[i + 1],
        )
    &&& forall|i: int| 0 < i < states.len() - 1 ==> !(#[trigger] states[i]).has_converged()
}

/// The notes before the first iteration: one on a degenerate fit where the model
/// has more free scalars than the data has points.
pub open spec fn opening_notes<T: Dense, E: EmissionModel<T>>(h: &Hmm<T, E>, x: &Matrix<T>) -> Seq<
    Seq<char>,
> {
    let points = saturated(x.rows.len() * x.ncols);
    let scalars = saturated(h.scalars(h.params));
    if points < scalars {
        seq![degenerate_note(scalars as nat, points as nat)]
    } else {
        Seq::empty()
    }
}

/// `post` is `pre` with its features taken from `x` and its parameters
/// initialised, `looked` being the emission between the two.
pub open spec fn initialized<T: Dense, E: EmissionModel<T>>(
    pre: &Hmm<T, E>,
    x: &Matrix<T>,
    n_sequences: int,
    looked: &E,
    post: &Hmm<T, E>,
) -> bool {
    &&& pre.emission.accepts(x)
    &&& pre.emission.set_rel(x, looked)
    &&& pre.inference.init_rel(
        pre.init_params,
        pre.random_state,
        n_sequences,
        x.rows.len() as int,
        &post.inference,
    )
    &&& looked.init_ok(x, pre.init_params, pre.random_state)
    &&& looked.init_rel(x, pre.init_params, pre.random_state, &post.emission)
    &&& post.same_settings(pre)
    &&& post.monitor.history@ == Seq::<T>::empty()
    &&& post.monitor.iter == 0
    &&& texts(post.notes@) == texts(pre.notes@) + opening_notes(post, x)
}

/// `first` is a model that fitting `pre` to `x` starts its iterations from:
/// initialised and found valid.
pub open spec fn prepared<T: Dense, E: EmissionModel<T>>(
    pre: &Hmm<T, E>,
    x: &Matrix<T>,
    n_sequences: int,
    first: &Hmm<T, E>,
) -> bool {
    &&& exists|looked: E| #[trigger] initialized(pre, x, n_sequences, &looked, first)
    &&& first.inference.valid()
    &&& first.emission.valid(first.inference.states())
}

/// `fitted` is a result of fitting `pre` to `x`: the end of a run from a prepared
/// model, which stops at the iteration cap or at convergence.
pub open spec fn fit_reaches<T: Dense, E: EmissionModel<T>>(
    pre: &Hmm<T, E>,
    x: &Matrix<T>,
    ranges: Seq<(usize, usize)>,
    states: Seq<Hmm<T, E>>,
) -> bool {
    &&& is_run(states, x, ranges)
    &&& prepared(pre, x, ranges.len() as int, &states[0])
    &&& states.len() <= pre.n_iter + 1
    &&& states.len() == pre.n_iter + 1 || (states.len() > 1 && states.last().has_converged())
}

/// What stops a fit with the error `e` before its first iteration: the
/// observations are not accepted, an initialisation gives up, or the parameters
/// are not valid, start and transitions being looked at first.
pub open spec fn preparation_fails<T: Dense, E: EmissionModel<T>>(
    pre: &Hmm<T, E>,
    x: &Matrix<T>,
    n_sequences: int,
    e: HmmError,
) -> bool {
    if !pre.emission.accepts(x) {
        pre.emission.refusal(x, e)
    } else if pre.inference.init_gives_up(pre.init_params, pre.random_state) {
        is_gave_up(e)
    } else {
        ||| exists|looked: E| #[trigger]
            pre.emission.set_rel(x, &looked) && !looked.init_ok(
                x,
                pre.init_params,
                pre.random_state,
            ) && looked.init_flaw(e)
        ||| exists|looked: E, first: Hmm<T, E>| #[trigger]
            initialized(pre, x, n_sequences, &looked, &first) && flawed(&first, e)
    }
}

/// The parameters are not valid, and `e` says why: start and transitions first.
pub open spec fn flawed<T: Dense, E: EmissionModel<T>>(h: &Hmm<T, E>, e: HmmError) -> bool {
    let nc = h.inference.states();
    if !h.inference.valid() {
        h.inference.flaw(e)
    } else {
        !h.emission.valid(nc) && h.emission.flaw(nc, e)
    }
}

/// A run from a prepared model reaches one whose iteration fails with the error
/// `e`.
pub open spec fn run_fails<T: Dense, E: EmissionModel<T>>(
    pre: &Hmm<T, E>,
    x: &Matrix<T>,
    ranges: Seq<(usize, usize)>,
    states: Seq<Hmm<T, E>>,
    e: HmmError,
) -> bool {
    &&& is_run(states, x, ranges)
    &&& prepared(pre, x, ranges.len() as int, &states[0])
    &&& states.len() <= pre.n_iter
    &&& states.len() > 1 ==> !states.last().has_converged()
    &&& iteration_fails(&states.last(), x, ranges, e)
}

/// What fitting `pre` to `x` returns: the end of a run, or the error that stopped
/// it.
pub open spec fn fit_result<T: Dense, E: EmissionModel<T>>(
    pre: &Hmm<T, E>,
    x: &Matrix<T>,
    lengths: Option<&[usize]>,
    r: Result<Fitted<T, E>, HmmError>,
) -> bool {
    match r {
        Ok(f) => {
            &&& f.0.shaped()
            &&& f.0.inference.states() == pre.inference.states()
            &&& f.0.same_settings(pre)
            &&& pre.emission.scannable(x) ==> f.0.emission.observable(x)
            &&& exists|ranges: Seq<(usize, usize)>, states: Seq<Hmm<T, E>>|
                is_split(lengths, x.rows.len() as int, ranges) && #[trigger] fit_reaches(
                    pre,
                    x,
                    ranges,
                    states,
                ) && states.last() == f.0
        },
        Err(e) => {
            ||| lengths_mismatch(lengths, x.rows.len() as int) && (lengths matches Some(ls) && e
                == (HmmError::LengthsMismatch {
                total: prefix_total(ls@, ls@.len() as int) as usize,
                n_samples: x.rows.len(),
            }))
            ||| exists|ranges: Seq<(usize, usize)>| #[trigger]
                is_split(lengths, x.rows.len() as int, ranges) && preparation_fails(
                    pre,
                    x,
                    ranges.len() as int,
                    e,
                )
            ||| exists|ranges: Seq<(usize, usize)>, states: Seq<Hmm<T, E>>|
                is_split(lengths, x.rows.len() as int, ranges) && #[trigger] run_fails(
                    pre,
                    x,
                    ranges,
                    states,
                    e,
                )
        },
    }
}

/// What a fit of `pre` to `x` that stopped with the error `e` had to say by then:
/// nothing new before the parameters are initialised, what precedes the first
/// iteration where they are found not valid, and what the last whole iteration left
/// where the next one fails.
pub open spec fn stopped_saying<T: Dense, E: EmissionModel<T>>(
    pre: &Hmm<T, E>,
    x: &Matrix<T>,
    lengths: Option<&[usize]>,
    e: HmmError,
    said: Seq<Seq<char>>,
) -> bool {
    ||| lengths_mismatch(lengths, x.rows.len() as int) && said == texts(pre.notes@)
    ||| exists|ranges: Seq<(usize, usize)>| #[trigger]
        is_split(lengths, x.rows.len() as int, ranges) && unprepared_saying(
            pre,
            x,
            ranges.len() as int,
            e,
            said,
        )
    ||| exists|ranges: Seq<(usize, usize)>, states: Seq<Hmm<T, E>>|
        is_split(lengths, x.rows.len() as int, ranges) && #[trigger] run_fails(
            pre,
            x,
            ranges,
            states,
            e,
        ) && said == texts(states.last().notes@)
}

/// What there was to say where a fit stops before its first iteration.
pub open spec fn unprepared_saying<T: Dense, E: EmissionModel<T>>(
    pre: &Hmm<T, E>,
    x: &Matrix<T>,
    n_sequences: int,
    e: HmmError,
    said: Seq<Seq<char>>,
) -> bool {
    ||| said == texts(pre.notes@) && (!pre.emission.accepts(x)
        || pre.inference.init_gives_up(pre.init_params, pre.random_state) || exists|looked: E|
        #[trigger]
        pre.emission.set_rel(x, &looked) && !looked.init_ok(x, pre.init_params, pre.random_state))
    ||| exists|looked: E, first: Hmm<T, E>| #[trigger]
        initialized(pre, x, n_sequences, &looked, &first) && flawed(&first, e) && said == texts(
            first.notes@,
        )
}

/// What taking the parameters of `pre` as fitted returns: the model itself where
/// its parameters are valid, and an error otherwise.
pub open spec fn taken_as_fitted<T: Dense, E: EmissionModel<T>>(
    pre: &Hmm<T, E>,
    r: Result<Fitted<T, E>, HmmError>,
) -> bool {
    &&& r is Ok <==> pre.inference.valid() && pre.emission.valid(pre.inference.states())
    &&& r matches Ok(f) ==> f.0 == *pre && f.0.shaped()
    &&& r matches Err(e) ==> flawed(pre, e)
}

proof fn texts_of_appended(a: Seq<String>, b: Seq<String>)
    ensures
        texts(a + b) == texts(a) + texts(b),
{
    assert(texts(a + b) =~= texts(a) + texts(b));
}

/// The error for a bound that cannot be computed.
pub open spec fn is_singular(e: HmmError) -> bool {
    e matches HmmError::NotPositiveDefinite(m) && m@
        == "the lower bound needs the inverse of a singular matrix"@
}

/// The error for a bound that cannot be computed.
fn singular() -> (e: HmmError)
    ensures
        is_singular(e),
{
    HmmError::NotPositiveDefinite("the lower bound needs the inverse of a singular matrix".to_owned())
}

impl<T: Dense, E: EmissionModel<T>> Hmm<T, E> {
    /// The E-step: accumulate statistics over all sequences.
    fn estep(
        &self,
        x: &Matrix<T>,
        ranges: &Vec<(usize, usize)>,
        start: &Vec<T>,
        trans: &Matrix<T>,
    ) -> (r: Result<(CoreStats<T>, E::Stats, T), HmmError>)
        requires
            self.shaped(),
            x.wf(),
            self.emission.observable(x),
            ranges_ok(ranges@, x.rows.len() as int),
            start.len() == self.inference.states(),
            trans.has_dims(self.inference.states(), self.inference.states()),
        ensures
            match r {
                Ok((core, stats, log_prob)) => exists|tr: EStep<T, E>| #[trigger]
                    estep_upto(
                        self,
                        x,
                        ranges@,
                        start@,
                        trans,
                        tr,
                        ranges.len() as int,
                    ) && tr.cores.last() == core && tr.stats.last() == stats && tr.logs.last()
                        == log_prob && core.fits(self.inference.states())
                        && self.emission.stats_fit(&stats),
                Err(e) => estep_underflows(self, x, ranges@, start@, trans) && e
                    == HmmError::ScalingUnderflow,
            },
    {
        let mut core = CoreStats::zeros(self.n_components());
        let mut stats = self.emission.init_stats();
        let mut log_prob: T = zero();
        let ghost mut tr: EStep<T, E> = EStep {
            subs: Seq::empty(),
            fbs: Seq::empty(),
            cores: seq![core],
            stats: seq![stats],
            logs: seq![log_prob],
        };
        let mut k: usize = 0;
        while k < ranges.len()
            invariant
                k <= ranges.len(),
                self.shaped(),
                x.wf(),
                self.emission.observable(x),
                ranges_ok(ranges@, x.rows.len() as int),
                start.len() == self.inference.states(),
                trans.has_dims(self.inference.states(), self.inference.states()),
                core.fits(self.inference.states()),
                core.nobs == k,
                self.emission.stats_fit(&stats),
                estep_upto(self, x, ranges@, start@, trans, tr, k as int),
                tr.cores.last() == core,
                tr.stats.last() == stats,
                tr.logs.last() == log_prob,
            decreases ranges.len() - k,
        {
            let (begin, end) = ranges[k];
            assert(ranges@[k as int].0 < ranges@[k as int].1 <= x.rows.len());
            let sub = x.slice_rows(begin, end);
            proof {
                assert(is_slice(x, begin as int, end as int, &sub));
                self.emission.slices_observable(x, begin as int, end as int, &sub);
            }
            match self.forward_backward(start, trans, &sub, FbMode::Fit) {
                Err(e) => {
                    assert(at_sequence(k as int));
                    return Err(e);
                },
                Ok(fb) => {
                    let ghost before = tr;
                    self.accumulate_core(&mut core, &fb, trans);
                    self.emission.accumulate(&mut stats, &sub, &fb.posteriors, self.params);
                    log_prob = log_prob.plus(fb.log_prob);
                    proof {
                        tr = EStep {
                            subs: before.subs.push(sub),
                            fbs: before.fbs.push(fb),
                            cores: before.cores.push(core),
                            stats: before.stats.push(stats),
                            logs: before.logs.push(log_prob),
                        };
                        assert forall|i: int| 0 <= i < k + 1 implies #[trigger] estep_at(
                            self,
                            x,
                            ranges@,
                            start@,
                            trans,
                            tr,
                            i,
                        ) by {
                            if i < k {
                                assert(estep_at(self, x, ranges@, start@, trans, before, i));
                            }
                        }
                    }
                },
            }
            k += 1;
        }
        Ok((core, stats, log_prob))
    }

    /// One iteration.
    fn iterate(&mut self, x: &Matrix<T>, ranges: &Vec<(usize, usize)>) -> (r: Result<(), HmmError>)
        requires
            old(self).shaped(),
            x.wf(),
            old(self).emission.observable(x),
            ranges_ok(ranges@, x.rows.len() as int),
            old(self).monitor.iter < usize::MAX,
        ensures
            match r {
                Ok(_) => {
                    &&& iterates(&*old(self), x, ranges@, &*final(self))
                    &&& final(self).shaped()
                    &&& final(self).emission.observable(x)
                    &&& final(self).same_settings(&*old(self))
                    &&& final(self).inference.states() == old(self).inference.states()
                    &&& final(self).monitor.iter == old(self).monitor.iter + 1
                },
                Err(e) => iteration_fails(&*old(self), x, ranges@, e) && final(self).notes
                    == old(self).notes,
            },
    {
        let ghost pre = *self;
        self.emission.estep_begin();
        self.inference.estep_begin();
        let ghost mid = *self;
        assert(begun(&pre, &mid));
        let (start, trans) = self.inference.estep_start_trans();
        let (core, stats, log_prob) = match self.estep(x, ranges, &start, &trans) {
            Ok(t) => t,
            Err(e) => {
                proof {
                    let tr: EStep<T, E> = arbitrary();
                    assert(iteration_stops(&pre, x, ranges@, &mid, &trans, tr, e));
                }
                return Err(e);
            },
        };
        let ghost tr = choose|tr: EStep<T, E>| #[trigger]
            estep_upto(&mid, x, ranges@, start@, &trans, tr, ranges.len() as int) && tr.cores.last()
                == core && tr.stats.last() == stats && tr.logs.last() == log_prob && core.fits(
                mid.inference.states(),
            ) && mid.emission.stats_fit(&stats);
        // The bound is that of the parameters before the update.
        let contribution = match self.emission.lower_bound_contribution() {
            Some(c) => c,
            None => {
                let e = singular();
                proof {
                    assert(iteration_stops(&pre, x, ranges@, &mid, &trans, tr, e));
                }
                return Err(e);
            },
        };
        let objective = contribution.plus(self.inference.lower_bound(log_prob));
        self.inference.mstep(&core, self.params);
        match self.emission.mstep(&stats, self.params) {
            Ok(_) => {},
            Err(e) => {
                proof {
                    assert(iteration_stops(&pre, x, ranges@, &mid, &trans, tr, e));
                }
                return Err(e);
            },
        }
        let mut lines = self.monitor.report(objective);
        let ghost said = lines@;
        self.notes.append(&mut lines);
        proof {
            texts_of_appended(mid.notes@, said);
            assert(updated(&mid, tr, contribution, &*self));
            assert(iteration(&pre, x, ranges@, &mid, &trans, tr, contribution, &*self));
        }
        Ok(())
    }

    /// Estimate model parameters by (variational) expectation-maximisation.
    ///
    /// The selected parameters are initialised, then E-step and M-step alternate
    /// until the monitor reports convergence or `n_iter` is reached. What there is
    /// to report is left in the model's notes.
    pub fn fit(self, x: &Matrix<T>, lengths: Option<&[usize]>) -> (r: Result<Fitted<T, E>, HmmError>)
        requires
            self.wf(),
            x.wf(),
            fit_ready(&self.emission, self.init_params.members(), self.n_iter, x, lengths),
        ensures
            fit_result(&self, x, lengths, r),
    {
        match self.fit_telling(x, lengths) {
            Ok(f) => Ok(f),
            Err((e, _)) => Err(e),
        }
    }

    /// Estimate model parameters as [`Hmm::fit`] does. A fit that fails hands out
    /// what it had to report by then.
    pub fn fit_telling(self, x: &Matrix<T>, lengths: Option<&[usize]>) -> (r: Result<
        Fitted<T, E>,
        (HmmError, Vec<String>),
    >)
        requires
            self.wf(),
            x.wf(),
            fit_ready(&self.emission, self.init_params.members(), self.n_iter, x, lengths),
        ensures
            match r {
                Ok(f) => fit_result(&self, x, lengths, Ok(f)),
                Err((e, notes)) => fit_result(&self, x, lengths, Err(e)) && stopped_saying(
                    &self,
                    x,
                    lengths,
                    e,
                    texts(notes@),
                ),
            },
    {
        let ghost pre = self;
        let ranges = match split(x, lengths) {
            Ok(v) => v,
            Err(e) => {
                return Err((e, self.notes));
            },
        };
        let ghost ns = ranges.len() as int;
        let mut h = self;
        match h.emission.check_and_set_n_features(x) {
            Ok(_) => {},
            Err(e) => {
                assert(preparation_fails(&pre, x, ns, e));
                assert(unprepared_saying(&pre, x, ns, e, texts(h.notes@)));
                return Err((e, h.notes));
            },
        }
        let ghost looked = h.emission;
        match h.inference.init(h.init_params, h.random_state, ranges.len(), x.rows.len()) {
            Ok(_) => {},
            Err(e) => {
                assert(preparation_fails(&pre, x, ns, e));
                assert(unprepared_saying(&pre, x, ns, e, texts(h.notes@)));
                return Err((e, h.notes));
            },
        }
        match h.emission.init(x, h.init_params, h.random_state) {
            Ok(_) => {},
            Err(e) => {
                assert(pre.emission.set_rel(x, &looked) && !looked.init_ok(
                    x,
                    pre.init_params,
                    pre.random_state,
                ));
                assert(preparation_fails(&pre, x, ns, e));
                assert(unprepared_saying(&pre, x, ns, e, texts(h.notes@)));
                return Err((e, h.notes));
            },
        }
        let n_scalars: usize = h.fit_scalars(h.params);
        let points: usize = clamped_product(x.rows.len(), x.ncols);
        let ghost quiet = h;
        if points < n_scalars {
            let mut m = joined("Fitting a model with ", decimal(n_scalars).as_str());
            m.append(" free scalar parameters with only ");
            m.append(decimal(points).as_str());
            m.append(" data points will result in a degenerate solution.");
            h.notes.push(m);
        }
        h.monitor.reset();
        proof {
            assert(h.scalars(h.params) == quiet.scalars(quiet.params));
            assert(texts(h.notes@) =~= texts(pre.notes@) + opening_notes(&h, x));
            assert(initialized(&pre, x, ns, &looked, &h));
        }
        match h.inference.check() {
            Ok(_) => {},
            Err(e) => {
                assert(preparation_fails(&pre, x, ns, e));
                assert(unprepared_saying(&pre, x, ns, e, texts(h.notes@)));
                return Err((e, h.notes));
            },
        }
        match h.emission.check(h.n_components()) {
            Ok(_) => {},
            Err(e) => {
                assert(preparation_fails(&pre, x, ns, e));
                assert(unprepared_saying(&pre, x, ns, e, texts(h.notes@)));
                return Err((e, h.notes));
            },
        }
        assert(prepared(&pre, x, ns, &h));
        let ghost mut states: Seq<Hmm<T, E>> = seq![h];
        let n_iter: usize = h.n_iter;
        let mut k: usize = 0;
        let mut running = true;
        while running && k < n_iter
            invariant
                k <= n_iter,
                n_iter == pre.n_iter,
                h.n_iter == n_iter,
                h.same_settings(&pre),
                h.inference.states() == pre.inference.states(),
                h.shaped(),
                x.wf(),
                n_iter >= 1 ==> pre.emission.scannable(x),
                pre.emission.scannable(x) ==> h.emission.observable(x),
                n_iter >= 1 ==> ranges_ok(ranges@, x.rows.len() as int),
                is_split(lengths, x.rows.len() as int, ranges@),
                ns == ranges.len(),
                h.monitor.iter == k,
                states.len() == k + 1,
                states.last() == h,
                is_run(states, x, ranges@),
                prepared(&pre, x, ns, &states[0]),
                running ==> k == 0 || !h.has_converged(),
                !running ==> k > 0 && h.has_converged(),
                self == pre,
            decreases n_iter - k,
        {
            let ghost before = h;
            match h.iterate(x, &ranges) {
                Ok(_) => {},
                Err(e) => {
                    assert(run_fails(&pre, x, ranges@, states, e));
                    return Err((e, h.notes));
                },
            }
            proof {
                let longer = states.push(h);
                assert forall|i: int| 0 <= i < longer.len() - 1 implies #[trigger] iterates(
                    &longer[i],
                    x,
                    ranges@,
                    &longer[i + 1],
                ) by {
                    if i < states.len() - 1 {
                        assert(iterates(&states[i], x, ranges@, &states[i + 1]));
                    }
                }
                assert forall|i: int| 0 < i < longer.len() - 1 implies !(
                #[trigger] longer[i]).has_converged() by {
                    if i < states.len() - 1 {
                        assert(!states[i].has_converged());
                    }
                }
                states = longer;
            }
            if h.monitor.converged() {
                running = false;
            }
            k += 1;
        }
        proof {
            assert(fit_reaches(&pre, x, ranges@, states));
        }
        Ok(Fitted(h))
    }

    /// Treat the configured parameters as fitted, after validation.
    pub fn into_fitted(self) -> (r: Result<Fitted<T, E>, HmmError>)
        requires
            self.wf(),
        ensures
            taken_as_fitted(&self, r),
    {
        match self.inference.check() {
            Ok(_) => {},
            Err(e) => {
                return Err(e);
            },
        }
        match self.emission.check(self.n_components()) {
            Ok(_) => {},
            Err(e) => {
                return Err(e);
            },
        }
        Ok(Fitted(self))
    }
}

} // verus!
