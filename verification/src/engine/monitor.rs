//! Convergence tracking of iterative fitting.

use crate::scalar::{dec, negate, negative, Scalar};
use crate::text::{align_right, decimal, digits, joined, right_aligned};
use vstd::prelude::*;
use vstd::string::StringExecFns;

verus! {

/// Tracks per-iteration log-probabilities and decides when fitting has converged.
#[derive(Debug, Clone)]
pub struct ConvergenceMonitor<T> {
    /// Convergence threshold on the log-probability improvement.
    pub tol: T,
    /// Maximum number of iterations.
    pub n_iter: usize,
    /// Whether a report line is wanted for every iteration.
    pub verbose: bool,
    /// Log-probability of every iteration so far.
    pub history: Vec<T>,
    /// Number of iterations performed.
    pub iter: usize,
}

/// One report line: iteration, log-probability and signed improvement, each
/// right-aligned in its column; an improvement that is no number reads `+nan`.
pub open spec fn report_line<T: Scalar>(iter: nat, log_prob: T, delta: T) -> Seq<char> {
    right_aligned(digits(iter), 10) + " "@ + right_aligned(log_prob.s_text(Some(8), false), 16)
        + " "@ + right_aligned(
        if delta.s_same(delta) {
            delta.s_text(Some(8), true)
        } else {
            "+nan"@
        },
        16,
    )
}

/// The warning that follows a decrease.
pub open spec fn decrease_warning<T: Scalar>(log_prob: T, last: T) -> Seq<char> {
    "Model is not converging.  Current: "@ + log_prob.s_text(None, false)
        + " is not greater than "@ + last.s_text(None, false) + ". Delta is "@ + log_prob.s_minus(
        last,
    ).s_text(None, false)
}

/// The decrease that is put down to rounding: the square root of `2^-52`.
pub open spec fn slack<T: Scalar>() -> T {
    dec::<T>(2220446049250313, -31).s_sqrt()
}

/// What reporting `log_prob` after `history` has to say: in verbose mode the
/// report line, and a warning where the log-probability fell by more than the
/// slack.
pub open spec fn report_lines<T: Scalar>(
    verbose: bool,
    history: Seq<T>,
    iter: nat,
    log_prob: T,
) -> Seq<Seq<char>> {
    let delta = if history.len() == 0 {
        T::s_nan()
    } else {
        log_prob.s_minus(history.last())
    };
    let line = if verbose {
        seq![report_line(iter + 1, log_prob, delta)]
    } else {
        Seq::empty()
    };
    if history.len() > 0 && log_prob.s_minus(history.last()).s_below(negative(slack())) {
        line.push(decrease_warning(log_prob, history.last()))
    } else {
        line
    }
}

impl<T: Scalar> ConvergenceMonitor<T> {
    /// The last two log-probabilities improved by less than the tolerance.
    pub open spec fn stalled(&self) -> bool {
        let n = self.history@.len() as int;
        n >= 2 && self.history@[n - 1].s_minus(self.history@[n - 2]).s_below(self.tol)
    }

    /// Create a monitor with the given tolerance, iteration cap and verbosity, an
    /// empty history and iteration count zero.
    pub fn new(tol: T, n_iter: usize, verbose: bool) -> (m: Self)
        ensures
            m.tol == tol,
            m.n_iter == n_iter,
            m.verbose == verbose,
            m.history@ == Seq::<T>::empty(),
            m.iter == 0,
    {
        ConvergenceMonitor { tol, n_iter, verbose, history: Vec::new(), iter: 0 }
    }

    /// Reset iteration count and history.
    pub fn reset(&mut self)
        ensures
            final(self).tol == old(self).tol,
            final(self).n_iter == old(self).n_iter,
            final(self).verbose == old(self).verbose,
            final(self).history@ == Seq::<T>::empty(),
            final(self).iter == 0,
    {
        self.iter = 0;
        self.history.clear();
    }

    /// Format one report line.
    pub fn format_report(iter: usize, log_prob: T, delta: T) -> (s: String)
        ensures
            s@ == report_line(iter as nat, log_prob, delta),
    {
        let field = if delta.same(delta) {
            delta.text(Some(8), true)
        } else {
            "+nan".to_owned()
        };
        let mut s = joined(align_right(decimal(iter).as_str(), 10).as_str(), " ");
        s.append(align_right(log_prob.text(Some(8), false).as_str(), 16).as_str());
        s.append(" ");
        s.append(align_right(field.as_str(), 16).as_str());
        s
    }

    /// Record an iteration's log-probability (or lower bound). The lines to show
    /// are returned: the report in verbose mode, and a warning on a decrease that
    /// rounding does not explain.
    pub fn report(&mut self, log_prob: T) -> (lines: Vec<String>)
        requires
            old(self).iter < usize::MAX,
        ensures
            final(self).tol == old(self).tol,
            final(self).n_iter == old(self).n_iter,
            final(self).verbose == old(self).verbose,
            final(self).history@ == old(self).history@.push(log_prob),
            final(self).iter == old(self).iter + 1,
            lines@.map_values(|s: String| s@) == report_lines(
                old(self).verbose,
                old(self).history@,
                old(self).iter as nat,
                log_prob,
            ),
    {
        let n: usize = self.history.len();
        let mut lines: Vec<String> = Vec::new();
        if self.verbose {
            let delta = if n == 0 {
                T::nan()
            } else {
                log_prob.minus(self.history[n - 1])
            };
            lines.push(Self::format_report(self.iter + 1, log_prob, delta));
        }
        if n > 0 {
            let last = self.history[n - 1];
            let precision = T::decimal(2220446049250313, -31).sqrt();
            if log_prob.minus(last).below(negate(precision)) {
                let mut w = joined(
                    "Model is not converging.  Current: ",
                    log_prob.text(None, false).as_str(),
                );
                w.append(" is not greater than ");
                w.append(last.text(None, false).as_str());
                w.append(". Delta is ");
                w.append(log_prob.minus(last).text(None, false).as_str());
                lines.push(w);
            }
        }
        self.history.push(log_prob);
        self.iter = self.iter + 1;
        proof {
            assert(lines@.map_values(|s: String| s@) =~= report_lines(
                old(self).verbose,
                old(self).history@,
                old(self).iter as nat,
                log_prob,
            ));
        }
        lines
    }

    /// Whether fitting has converged: the iteration cap is reached, or the last
    /// two log-probabilities improved by less than `tol`.
    pub fn converged(&self) -> (b: bool)
        ensures
            b == (self.iter == self.n_iter || self.stalled()),
    {
        let n: usize = self.history.len();
        self.iter == self.n_iter || (n >= 2 && self.history[n - 1].minus(
            self.history[n - 2],
        ).below(self.tol))
    }
}

} // verus!
