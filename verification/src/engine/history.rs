//! The objectives that a fit records, read as log-likelihoods.

use crate::engine::agreement::{
    chain_in, exact_logs, exp_of, forward_log_is_exact, forward_row, likelihood, log_added,
    log_constants, log_pass_scores_the_likelihood, log_sum_is_log_of_sum,
    scaled_log_prob_is_inverse, scaling_pass_scores_the_likelihood,
};
use crate::engine::algorithms::forward_log_row;
use crate::engine::hmm::ForwardBackward;
use crate::engine::params::Implementation;
use crate::engine::raising::{
    frames_match, read_constants, read_product, read_sign, reads, same_scores,
};
use crate::engine::unique::alike;
use crate::exact::exact_numbers;
use crate::matrix::Matrix;
use crate::reals::{is_ln, ln_of_one, rsum};
use crate::scalar::{num, sigma_ext, Scalar};
use vstd::prelude::*;

verus! {

/// Transitions that hold the same entries give frames the same probability.
pub proof fn likelihood_of_alike<T: Scalar>(
    start: Seq<T>,
    a: &Matrix<T>,
    b: &Matrix<T>,
    frames: &Matrix<T>,
)
    requires
        alike(a, b),
        a.has_dims(frames.ncols as int, frames.ncols as int),
    ensures
        likelihood(start, a, frames) == likelihood(start, b, frames),
{
    forward_of_same(start, a, b, frames, frames.rows.len() - 1);
}

proof fn forward_of_same<T: Scalar>(
    start: Seq<T>,
    a: &Matrix<T>,
    b: &Matrix<T>,
    frames: &Matrix<T>,
    t: int,
)
    requires
        alike(a, b),
        a.has_dims(frames.ncols as int, frames.ncols as int),
    ensures
        forward_row(start, a, frames, t) == forward_row(start, b, frames, t),
    decreases t,
{
    if t > 0 {
        forward_of_same(start, a, b, frames, t - 1);
        let prev = forward_row(start, a, frames, t - 1);
        let (u, v) = (forward_row(start, a, frames, t), forward_row(start, b, frames, t));
        assert forall|j: int| 0 <= j < frames.ncols implies #[trigger] u[j] == v[j] by {
            let f = |i: int| prev[i].s_times(a.at(i, j));
            let g = |i: int| prev[i].s_times(b.at(i, j));
            assert forall|i: int| 0 <= i < frames.ncols implies #[trigger] f(i) == g(i) by {
                assert(a.at(i, j) == b.at(i, j));
            }
            sigma_ext(frames.ncols as int, f, g);
        }
        assert(u =~= v);
    }
}

/// The log-likelihood that a pass finds, in either implementation, is the logarithm
/// of the probability of the frames.
pub proof fn pass_scores_the_likelihood<T: Scalar>(
    p: Set<T>,
    l: Set<T>,
    implementation: Implementation,
    start: Seq<T>,
    trans: &Matrix<T>,
    frames: &Matrix<T>,
    fb: &ForwardBackward<T>,
)
    requires
        exact_numbers(p),
        exact_logs(p, l),
        chain_in(p, start, trans, frames),
        trans.has_dims(frames.ncols as int, frames.ncols as int),
        frames_match(implementation, l, &fb.frameprob, frames),
        fb.frameprob.dims() == frames.dims(),
        fb.is_pass(implementation, start, trans),
    ensures
        l.contains(fb.log_prob),
        fb.log_prob.s_exp() == likelihood(start, trans, frames),
{
    let ns = frames.rows.len() as int;
    match implementation {
        Implementation::Log => {
            let own = &fb.frameprob;
            log_pass_scores_the_likelihood(p, l, start, trans, own, frames);
            forward_log_is_exact(p, l, start, trans, own, frames, ns - 1);
            log_sum_is_log_of_sum(p, l, forward_log_row(start, trans, own, ns - 1));
        },
        Implementation::Scaling => {
            same_scores(p, start, trans, frames, fb);
            scaling_pass_scores_the_likelihood(p, l, start, trans, frames);
            scaled_log_prob_is_inverse(p, l, start, trans, frames, ns);
        },
    }
}

/// Logarithms that are summed up, read, are the sum of the logarithms.
pub proof fn summed_logs_read<T: Scalar>(
    p: Set<T>,
    l: Set<T>,
    val: spec_fn(T) -> real,
    ln: spec_fn(real) -> real,
    logs: Seq<T>,
    part: spec_fn(int) -> T,
    whole: spec_fn(int) -> T,
    n: int,
)
    requires
        exact_numbers(p),
        exact_logs(p, l),
        reads(p, val),
        is_ln(ln),
        0 <= n < logs.len(),
        logs[0] == num::<T>(0),
        forall|s: int|
            0 <= s < n ==> l.contains(#[trigger] part(s)) && logs[s + 1] == logs[s].s_plus(part(s))
                && part(s).s_exp() == whole(s) && whole(s) != num::<T>(0),
    ensures
        l.contains(logs[n]),
        0real < val(logs[n].s_exp()),
        ln(val(logs[n].s_exp())) == rsum(n, |s: int| ln(val(whole(s)))),
    decreases n,
{
    let f = |s: int| ln(val(whole(s)));
    log_constants(p, l);
    read_constants(p, val);
    if n > 0 {
        summed_logs_read(p, l, val, ln, logs, part, whole, n - 1);
        let (u, v) = (logs[n - 1], part(n - 1));
        assert(l.contains(v));
        log_added(p, l, u, v);
        exp_of(p, l, u);
        exp_of(p, l, v);
        read_product(p, val, u.s_exp(), v.s_exp());
        read_sign(p, val, v.s_exp());
        let (a, b) = (val(u.s_exp()), val(v.s_exp()));
        assert(0real < a * b) by (nonlinear_arith)
            requires
                0real < a,
                0real < b,
        ;
        assert(ln(a * b) == ln(a) + ln(b));
        assert(rsum(n, f) == rsum(n - 1, f) + f(n - 1));
    } else {
        ln_of_one(ln);
    }
}

/// The order of logarithms is that of the numbers.
#[verifier::opaque]
pub open spec fn logs_in_order<T: Scalar>(l: Set<T>, val: spec_fn(T) -> real) -> bool {
    forall|u: T, v: T|
        l.contains(u) && l.contains(v) && #[trigger] u.s_below(v) ==> val(u.s_exp()) < val(
            v.s_exp(),
        )
}

/// A logarithm is not below another that reads as a smaller one.
pub proof fn not_below<T: Scalar>(
    l: Set<T>,
    val: spec_fn(T) -> real,
    ln: spec_fn(real) -> real,
    u: T,
    v: T,
)
    requires
        is_ln(ln),
        logs_in_order(l, val),
        l.contains(u),
        l.contains(v),
        0real < val(u.s_exp()),
        0real < val(v.s_exp()),
        ln(val(u.s_exp())) <= ln(val(v.s_exp())),
    ensures
        !v.s_below(u),
{
    reveal(logs_in_order);
    let (a, b) = (val(u.s_exp()), val(v.s_exp()));
    if b < a {
        // The logarithm of a quotient below 1 is negative.
        let q = b / a;
        assert(0real < q && q < 1real && q * a == b) by (nonlinear_arith)
            requires
                0real < b,
                b < a,
                q == b / a,
        ;
        assert(ln(q * a) == ln(q) + ln(a));
        assert(ln(q) <= q - 1real);
    }
}

} // verus!
