//! What the forward and backward passes compute, where arithmetic is exact.
//!
//! Over numbers that add and multiply exactly, with logarithms that undo
//! exponentials, the log-space pass and the scaling pass both compute the sum over
//! all state paths of the probability of the path and the frames, and posteriors
//! are conditional probabilities.

use crate::engine::algorithms::{
    backward_log_row, forward_log_row, forward_raw_row, forward_scaled_row, log_arrivals,
    log_departures, log_posterior_at, scale_of, scaled_log_prob, scaled_posterior_at,
    underflows,
};
use crate::exact::{
    added, constants, exact_numbers, inverted, lanes_are_sum, multiplied, regrouped, sum_in,
    sum_of_multiples, sum_of_zeros, sum_swapped,
};
use crate::matrix::Matrix;
use crate::scalar::{lanes, lanes_ext, num, sigma, sigma_ext, summed, total, Scalar};
use crate::special::{log_sum_exp, max_upto};
use crate::util::{divides_exactly, quotient_of_lanes};
use vstd::prelude::*;

verus! {

/// The numbers of `l` are the logarithms of those of `p`, negative infinity being
/// that of zero: exponentials undo logarithms and turn sums into products, and
/// negative infinity is below all the others.
#[verifier::opaque]
pub open spec fn exact_logs<T: Scalar>(p: Set<T>, l: Set<T>) -> bool {
    let none = T::s_neg_inf();
    &&& l.contains(none) && none.s_exp() == num::<T>(0)
    &&& l.contains(num(0)) && num::<T>(0).s_exp() == num::<T>(1)
    &&& forall|a: T| p.contains(a) ==> l.contains(#[trigger] a.s_ln()) && a.s_ln().s_exp() == a
    &&& forall|u: T| l.contains(u) ==> p.contains(#[trigger] u.s_exp())
    &&& forall|u: T, v: T|
        l.contains(u) && l.contains(v) ==> l.contains(#[trigger] u.s_plus(v)) && u.s_plus(v).s_exp()
            == u.s_exp().s_times(v.s_exp())
    &&& forall|u: T, v: T|
        l.contains(u) && l.contains(v) && v != none ==> l.contains(#[trigger] u.s_minus(v))
            && u.s_minus(v).s_exp().s_times(v.s_exp()) == u.s_exp()
    &&& forall|u: T| #![trigger u.s_same(none)] l.contains(u) ==> (u.s_same(none) <==> u == none)
    &&& forall|u: T| #![trigger u.s_same(T::s_pos_inf())]
        l.contains(u) ==> !u.s_same(T::s_pos_inf())
    &&& forall|u: T| #![trigger none.s_below(u)] l.contains(u) ==> (none.s_below(u) <==> u != none)
    &&& forall|u: T| #![trigger u.s_below(none)] l.contains(u) ==> !u.s_below(none)
}

pub(crate) proof fn log_constants<T: Scalar>(p: Set<T>, l: Set<T>)
    requires
        exact_logs(p, l),
    ensures
        l.contains(T::s_neg_inf()),
        T::s_neg_inf().s_exp() == num::<T>(0),
        l.contains(num(0)),
        num::<T>(0).s_exp() == num::<T>(1),
{
    reveal(exact_logs);
}

pub(crate) proof fn log_of<T: Scalar>(p: Set<T>, l: Set<T>, a: T)
    requires
        exact_logs(p, l),
        p.contains(a),
    ensures
        l.contains(a.s_ln()),
        a.s_ln().s_exp() == a,
{
    reveal(exact_logs);
}

pub(crate) proof fn exp_of<T: Scalar>(p: Set<T>, l: Set<T>, u: T)
    requires
        exact_logs(p, l),
        l.contains(u),
    ensures
        p.contains(u.s_exp()),
        u.s_same(T::s_neg_inf()) <==> u == T::s_neg_inf(),
        !u.s_same(T::s_pos_inf()),
        T::s_neg_inf().s_below(u) <==> u != T::s_neg_inf(),
        !u.s_below(T::s_neg_inf()),
{
    reveal(exact_logs);
}

pub(crate) proof fn log_added<T: Scalar>(p: Set<T>, l: Set<T>, u: T, v: T)
    requires
        exact_logs(p, l),
        l.contains(u),
        l.contains(v),
    ensures
        l.contains(u.s_plus(v)),
        u.s_plus(v).s_exp() == u.s_exp().s_times(v.s_exp()),
        p.contains(u.s_exp()),
        p.contains(v.s_exp()),
{
    reveal(exact_logs);
}

pub(crate) proof fn log_subtracted<T: Scalar>(p: Set<T>, l: Set<T>, u: T, v: T)
    requires
        exact_logs(p, l),
        l.contains(u),
        l.contains(v),
        v != T::s_neg_inf(),
    ensures
        l.contains(u.s_minus(v)),
        u.s_minus(v).s_exp().s_times(v.s_exp()) == u.s_exp(),
        p.contains(u.s_minus(v).s_exp()),
        p.contains(u.s_exp()),
        p.contains(v.s_exp()),
{
    reveal(exact_logs);
}

/// The maximum is in `l`; it is negative infinity only where all entries are.
proof fn max_of_logs<T: Scalar>(p: Set<T>, l: Set<T>, s: Seq<T>, n: int)
    requires
        exact_logs(p, l),
        0 <= n <= s.len(),
        forall|i: int| 0 <= i < s.len() ==> l.contains(#[trigger] s[i]),
    ensures
        l.contains(max_upto(s, n)),
        max_upto(s, n) == T::s_neg_inf() ==> forall|i: int|
            0 <= i < n ==> #[trigger] s[i] == T::s_neg_inf(),
    decreases n,
{
    log_constants(p, l);
    if n > 0 {
        max_of_logs(p, l, s, n - 1);
        let m = max_upto(s, n - 1);
        let v = s[n - 1];
        assert(l.contains(v));
        exp_of(p, l, v);
        exp_of(p, l, m);
    }
}

/// The exponential of a log-sum-exp is the sum of the exponentials.
pub proof fn log_sum_is_log_of_sum<T: Scalar>(p: Set<T>, l: Set<T>, s: Seq<T>)
    requires
        exact_numbers(p),
        exact_logs(p, l),
        forall|i: int| 0 <= i < s.len() ==> l.contains(#[trigger] s[i]),
    ensures
        l.contains(log_sum_exp(s)),
        log_sum_exp(s).s_exp() == sigma(s.len() as int, |i: int| s[i].s_exp()),
{
    let n = s.len() as int;
    let m = max_upto(s, n);
    let none = T::s_neg_inf();
    let e = |i: int| s[i].s_exp();
    max_of_logs(p, l, s, n);
    exp_of(p, l, m);
    log_constants(p, l);
    if m == none {
        assert forall|i: int| 0 <= i < n implies #[trigger] e(i) == num::<T>(0) by {
            assert(s[i] == none);
        }
        sum_of_zeros(p, n, e);
    } else {
        let d = |i: int| s[i].s_minus(m).s_exp();
        assert forall|i: int| 0 <= i < n implies p.contains(#[trigger] d(i)) by {
            assert(l.contains(s[i]));
            log_subtracted(p, l, s[i], m);
        }
        sum_in(p, n, d);
        let total = sigma(n, d);
        log_of(p, l, total);
        log_added(p, l, m, total.s_ln());
        sum_of_multiples(p, n, d, m.s_exp());
        assert forall|i: int| 0 <= i < n implies #[trigger] e(i) == (|i: int|
            d(i).s_times(m.s_exp()))(i) by {
            assert(l.contains(s[i]));
            log_subtracted(p, l, s[i], m);
        }
        sigma_ext(n, e, |i: int| d(i).s_times(m.s_exp()));
        multiplied(p, m.s_exp(), total);
    }
}

/// Row `t` of the forward lattice: the probability of the first `t + 1` frames
/// and of each state at frame `t`.
pub open spec fn forward_row<T: Scalar>(
    startprob: Seq<T>,
    transmat: &Matrix<T>,
    frames: &Matrix<T>,
    t: int,
) -> Seq<T>
    decreases t,
{
    if t <= 0 {
        Seq::new(frames.ncols as nat, |i: int| startprob[i].s_times(frames.at(0, i)))
    } else {
        let prev = forward_row(startprob, transmat, frames, t - 1);
        Seq::new(
            frames.ncols as nat,
            |j: int|
                sigma(frames.ncols as int, |i: int| prev[i].s_times(transmat.at(i, j))).s_times(
                    frames.at(t, j),
                ),
        )
    }
}

/// The probability of all frames: the sum of the last forward row.
pub open spec fn likelihood<T: Scalar>(startprob: Seq<T>, transmat: &Matrix<T>, frames: &Matrix<T>) -> T {
    summed(forward_row(startprob, transmat, frames, frames.rows.len() - 1))
}

/// Start probabilities, transition probabilities and frame probabilities are
/// numbers of `p`.
pub open spec fn chain_in<T: Scalar>(
    p: Set<T>,
    startprob: Seq<T>,
    transmat: &Matrix<T>,
    frames: &Matrix<T>,
) -> bool {
    &&& frames.rows.len() >= 1
    &&& startprob.len() == frames.ncols
    &&& forall|i: int| 0 <= i < frames.ncols ==> p.contains(#[trigger] startprob[i])
    &&& forall|i: int, j: int|
        0 <= i < frames.ncols && 0 <= j < frames.ncols ==> p.contains(#[trigger] transmat.at(i, j))
    &&& forall|t: int, j: int|
        0 <= t < frames.rows.len() && 0 <= j < frames.ncols ==> p.contains(#[trigger] frames.at(t, j))
}

/// `frames` holds the exponentials of `log_frames`, which are logarithms of `l`.
pub open spec fn frames_of_logs<T: Scalar>(l: Set<T>, log_frames: &Matrix<T>, frames: &Matrix<T>) -> bool {
    &&& log_frames.dims() == frames.dims()
    &&& forall|t: int, j: int|
        0 <= t < frames.rows.len() && 0 <= j < frames.ncols ==> l.contains(
            #[trigger] log_frames.at(t, j),
        )
    &&& forall|t: int, j: int|
        0 <= t < frames.rows.len() && 0 <= j < frames.ncols ==> #[trigger] frames.at(t, j)
            == log_frames.at(t, j).s_exp()
}

pub(crate) proof fn forward_row_in<T: Scalar>(
    p: Set<T>,
    startprob: Seq<T>,
    transmat: &Matrix<T>,
    frames: &Matrix<T>,
    t: int,
)
    requires
        exact_numbers(p),
        chain_in(p, startprob, transmat, frames),
        0 <= t < frames.rows.len(),
    ensures
        forward_row(startprob, transmat, frames, t).len() == frames.ncols,
        forall|j: int|
            0 <= j < frames.ncols ==> p.contains(
                #[trigger] forward_row(startprob, transmat, frames, t)[j],
            ),
    decreases t,
{
    let nc = frames.ncols as int;
    let row = forward_row(startprob, transmat, frames, t);
    if t > 0 {
        forward_row_in(p, startprob, transmat, frames, t - 1);
        let prev = forward_row(startprob, transmat, frames, t - 1);
        assert forall|j: int| 0 <= j < nc implies p.contains(#[trigger] row[j]) by {
            let g = |i: int| prev[i].s_times(transmat.at(i, j));
            assert forall|i: int| 0 <= i < nc implies p.contains(#[trigger] g(i)) by {
                assert(p.contains(prev[i]));
                assert(p.contains(transmat.at(i, j)));
                multiplied(p, prev[i], transmat.at(i, j));
            }
            sum_in(p, nc, g);
            assert(p.contains(frames.at(t, j)));
            multiplied(p, sigma(nc, g), frames.at(t, j));
        }
    } else {
        assert forall|j: int| 0 <= j < nc implies p.contains(#[trigger] row[j]) by {
            assert(p.contains(startprob[j]));
            assert(p.contains(frames.at(0, j)));
            multiplied(p, startprob[j], frames.at(0, j));
        }
    }
}

/// The log-space forward pass is exact: its lattice holds the logarithms of the
/// forward probabilities.
pub proof fn forward_log_is_exact<T: Scalar>(
    p: Set<T>,
    l: Set<T>,
    startprob: Seq<T>,
    transmat: &Matrix<T>,
    log_frames: &Matrix<T>,
    frames: &Matrix<T>,
    t: int,
)
    requires
        exact_numbers(p),
        exact_logs(p, l),
        chain_in(p, startprob, transmat, frames),
        frames_of_logs(l, log_frames, frames),
        0 <= t < frames.rows.len(),
    ensures
        forward_log_row(startprob, transmat, log_frames, t).len() == frames.ncols,
        forall|j: int|
            0 <= j < frames.ncols ==> l.contains(
                #[trigger] forward_log_row(startprob, transmat, log_frames, t)[j],
            ),
        forall|j: int|
            0 <= j < frames.ncols ==> (#[trigger] forward_log_row(
                startprob,
                transmat,
                log_frames,
                t,
            )[j]).s_exp() == forward_row(startprob, transmat, frames, t)[j],
    decreases t,
{
    let nc = frames.ncols as int;
    let row = forward_log_row(startprob, transmat, log_frames, t);
    let plain = forward_row(startprob, transmat, frames, t);
    if t > 0 {
        forward_log_is_exact(p, l, startprob, transmat, log_frames, frames, t - 1);
        let prev = forward_log_row(startprob, transmat, log_frames, t - 1);
        let before = forward_row(startprob, transmat, frames, t - 1);
        assert forall|j: int| 0 <= j < nc implies l.contains(#[trigger] row[j]) && row[j].s_exp()
            == plain[j] by {
            let arr = log_arrivals(prev, transmat, j);
            assert forall|i: int| 0 <= i < arr.len() implies l.contains(#[trigger] arr[i]) by {
                assert(l.contains(prev[i]));
                assert(p.contains(transmat.at(i, j)));
                log_of(p, l, transmat.at(i, j));
                log_added(p, l, prev[i], transmat.at(i, j).s_ln());
            }
            log_sum_is_log_of_sum(p, l, arr);
            let g = |i: int| before[i].s_times(transmat.at(i, j));
            let e = |i: int| arr[i].s_exp();
            assert forall|i: int| 0 <= i < nc implies #[trigger] e(i) == g(i) by {
                assert(l.contains(prev[i]));
                assert(p.contains(transmat.at(i, j)));
                log_of(p, l, transmat.at(i, j));
                log_added(p, l, prev[i], transmat.at(i, j).s_ln());
                assert(prev[i].s_exp() == before[i]);
            }
            sigma_ext(nc, e, g);
            assert(l.contains(log_frames.at(t, j)));
            assert(frames.at(t, j) == log_frames.at(t, j).s_exp());
            log_added(p, l, log_sum_exp(arr), log_frames.at(t, j));
            assert(row[j] == log_sum_exp(arr).s_plus(log_frames.at(t, j)));
            assert(plain[j] == sigma(nc, g).s_times(frames.at(t, j)));
        }
    } else {
        assert forall|j: int| 0 <= j < nc implies l.contains(#[trigger] row[j]) && row[j].s_exp()
            == plain[j] by {
            assert(p.contains(startprob[j]));
            log_of(p, l, startprob[j]);
            assert(l.contains(log_frames.at(0, j)));
            log_added(p, l, startprob[j].s_ln(), log_frames.at(0, j));
            assert(frames.at(0, j) == log_frames.at(0, j).s_exp());
        }
    }
}

/// The log-likelihood of the log-space pass is the logarithm of the probability
/// of the frames.
pub proof fn log_pass_scores_the_likelihood<T: Scalar>(
    p: Set<T>,
    l: Set<T>,
    startprob: Seq<T>,
    transmat: &Matrix<T>,
    log_frames: &Matrix<T>,
    frames: &Matrix<T>,
)
    requires
        exact_numbers(p),
        exact_logs(p, l),
        chain_in(p, startprob, transmat, frames),
        frames_of_logs(l, log_frames, frames),
    ensures
        log_sum_exp(
            forward_log_row(startprob, transmat, log_frames, frames.rows.len() - 1),
        ).s_exp() == likelihood(startprob, transmat, frames),
{
    let last = frames.rows.len() - 1;
    forward_log_is_exact(p, l, startprob, transmat, log_frames, frames, last);
    let row = forward_log_row(startprob, transmat, log_frames, last);
    let plain = forward_row(startprob, transmat, frames, last);
    forward_row_in(p, startprob, transmat, frames, last);
    log_sum_is_log_of_sum(p, l, row);
    sigma_ext(frames.ncols as int, |i: int| row[i].s_exp(), |i: int| plain[i]);
}

/// The product of the scaling factors of the first `t` rows.
pub open spec fn scaling_product<T: Scalar>(
    startprob: Seq<T>,
    transmat: &Matrix<T>,
    frames: &Matrix<T>,
    t: int,
) -> T
    decreases t,
{
    if t <= 0 {
        num(1)
    } else {
        scaling_product(startprob, transmat, frames, t - 1).s_times(
            scale_of(forward_raw_row(startprob, transmat, frames, t - 1)),
        )
    }
}

/// No row up to `t` underflows.
pub open spec fn stays_above<T: Scalar>(
    startprob: Seq<T>,
    transmat: &Matrix<T>,
    frames: &Matrix<T>,
    t: int,
) -> bool {
    forall|k: int| 0 <= k < t ==> !(#[trigger] underflows(startprob, transmat, frames, k))
}

/// The unscaled row `t` of the scaling pass is the forward row times the product
/// of the scaling factors so far.
pub(crate) proof fn raw_row_is_multiple<T: Scalar>(
    p: Set<T>,
    startprob: Seq<T>,
    transmat: &Matrix<T>,
    frames: &Matrix<T>,
    t: int,
)
    requires
        exact_numbers(p),
        chain_in(p, startprob, transmat, frames),
        0 <= t < frames.rows.len(),
        stays_above(startprob, transmat, frames, t),
    ensures
        p.contains(scaling_product(startprob, transmat, frames, t)),
        forward_raw_row(startprob, transmat, frames, t).len() == frames.ncols,
        forall|j: int|
            0 <= j < frames.ncols ==> #[trigger] forward_raw_row(startprob, transmat, frames, t)[j]
                == forward_row(startprob, transmat, frames, t)[j].s_times(
                scaling_product(startprob, transmat, frames, t),
            ),
    decreases t,
{
    let nc = frames.ncols as int;
    let raw = forward_raw_row(startprob, transmat, frames, t);
    let plain = forward_row(startprob, transmat, frames, t);
    let c = scaling_product(startprob, transmat, frames, t);
    forward_row_in(p, startprob, transmat, frames, t);
    if t > 0 {
        raw_row_is_multiple(p, startprob, transmat, frames, t - 1);
        row_total_of_raw(p, startprob, transmat, frames, t - 1);
        forward_row_in(p, startprob, transmat, frames, t - 1);
        let raw_before = forward_raw_row(startprob, transmat, frames, t - 1);
        let before = forward_row(startprob, transmat, frames, t - 1);
        let c0 = scaling_product(startprob, transmat, frames, t - 1);
        let s = scale_of(raw_before);
        let prev = forward_scaled_row(startprob, transmat, frames, t - 1);
        assert(c == c0.s_times(s));
        multiplied(p, c0, s);
        assert forall|j: int| 0 <= j < nc implies #[trigger] raw[j] == plain[j].s_times(c) by {
            let g = |i: int| before[i].s_times(transmat.at(i, j));
            let h = |i: int| prev[i].s_times(transmat.at(i, j));
            assert forall|i: int| 0 <= i < nc implies p.contains(#[trigger] g(i)) by {
                assert(p.contains(before[i]));
                assert(p.contains(transmat.at(i, j)));
                multiplied(p, before[i], transmat.at(i, j));
            }
            assert forall|i: int| 0 <= i < nc implies #[trigger] h(i) == (|i: int|
                g(i).s_times(c))(i) by {
                let b = before[i];
                let a = transmat.at(i, j);
                assert(p.contains(b));
                assert(p.contains(a));
                assert(raw_before[i] == b.s_times(c0));
                assert(prev[i] == raw_before[i].s_times(s));
                regrouped(p, b, c0, s);
                regrouped(p, b, c, a);
                multiplied(p, c, a);
                regrouped(p, b, a, c);
            }
            sigma_ext(nc, h, |i: int| g(i).s_times(c));
            sum_of_multiples(p, nc, g, c);
            sum_in(p, nc, g);
            let f = frames.at(t, j);
            let sum = sigma(nc, g);
            assert(p.contains(f));
            assert(raw[j] == sigma(nc, h).s_times(f));
            assert(plain[j] == sum.s_times(f));
            regrouped(p, sum, c, f);
            multiplied(p, c, f);
            regrouped(p, sum, f, c);
        }
    } else {
        constants(p);
        assert forall|j: int| 0 <= j < nc implies #[trigger] raw[j] == plain[j].s_times(c) by {
            assert(p.contains(plain[j]));
            multiplied(p, plain[j], c);
        }
    }
}

/// A row that does not underflow has a sum other than zero, and its scaling factor
/// is the inverse of the sum.
pub(crate) proof fn row_total_of_raw<T: Scalar>(
    p: Set<T>,
    startprob: Seq<T>,
    transmat: &Matrix<T>,
    frames: &Matrix<T>,
    t: int,
)
    requires
        exact_numbers(p),
        chain_in(p, startprob, transmat, frames),
        0 <= t < frames.rows.len(),
        stays_above(startprob, transmat, frames, t + 1),
        p.contains(scaling_product(startprob, transmat, frames, t)),
        forward_raw_row(startprob, transmat, frames, t).len() == frames.ncols,
        forall|j: int|
            0 <= j < frames.ncols ==> #[trigger] forward_raw_row(startprob, transmat, frames, t)[j]
                == forward_row(startprob, transmat, frames, t)[j].s_times(
                scaling_product(startprob, transmat, frames, t),
            ),
    ensures
        total(forward_raw_row(startprob, transmat, frames, t)) == summed(
            forward_row(startprob, transmat, frames, t),
        ).s_times(scaling_product(startprob, transmat, frames, t)),
        p.contains(summed(forward_row(startprob, transmat, frames, t))),
        p.contains(scale_of(forward_raw_row(startprob, transmat, frames, t))),
        scale_of(forward_raw_row(startprob, transmat, frames, t)).s_times(
            total(forward_raw_row(startprob, transmat, frames, t)),
        ) == num::<T>(1),
{
    let nc = frames.ncols as int;
    let raw = forward_raw_row(startprob, transmat, frames, t);
    let plain = forward_row(startprob, transmat, frames, t);
    let c = scaling_product(startprob, transmat, frames, t);
    forward_row_in(p, startprob, transmat, frames, t);
    let f = |i: int| plain[i];
    assert forall|i: int| 0 <= i < nc implies p.contains(#[trigger] f(i)) by {
        assert(p.contains(plain[i]));
    }
    sum_of_multiples(p, nc, f, c);
    sum_in(p, nc, f);
    sigma_ext(nc, |i: int| raw[i], |i: int| f(i).s_times(c));
    let g = |i: int| raw[i];
    assert forall|i: int| 0 <= i < nc implies p.contains(#[trigger] g(i)) by {
        assert(p.contains(f(i)));
        multiplied(p, f(i), c);
        assert(raw[i] == plain[i].s_times(c));
    }
    lanes_are_sum(p, nc, g);
    assert(!underflows(startprob, transmat, frames, t));
    multiplied(p, sigma(nc, f), c);
    constants(p);
    inverted(p, total(raw));
}

/// The exponential of the log-likelihood of the first `t` frames is the inverse of
/// the product of their scaling factors.
pub(crate) proof fn scaled_log_prob_is_inverse<T: Scalar>(
    p: Set<T>,
    l: Set<T>,
    startprob: Seq<T>,
    transmat: &Matrix<T>,
    frames: &Matrix<T>,
    t: int,
)
    requires
        exact_numbers(p),
        exact_logs(p, l),
        chain_in(p, startprob, transmat, frames),
        0 <= t <= frames.rows.len(),
        stays_above(startprob, transmat, frames, t),
    ensures
        l.contains(scaled_log_prob(startprob, transmat, frames, t)),
        p.contains(scaling_product(startprob, transmat, frames, t)),
        scaled_log_prob(startprob, transmat, frames, t).s_exp().s_times(
            scaling_product(startprob, transmat, frames, t),
        ) == num::<T>(1),
    decreases t,
{
    if t > 0 {
        scaled_log_prob_is_inverse(p, l, startprob, transmat, frames, t - 1);
        raw_row_is_multiple(p, startprob, transmat, frames, t - 1);
        row_total_of_raw(p, startprob, transmat, frames, t - 1);
        let raw = forward_raw_row(startprob, transmat, frames, t - 1);
        let s = scale_of(raw);
        let c = scaling_product(startprob, transmat, frames, t - 1);
        let u = scaled_log_prob(startprob, transmat, frames, t - 1);
        let v = s.s_ln();
        let zero = num::<T>(0);
        let sum = total(raw);
        log_of(p, l, s);
        constants(p);
        log_constants(p, l);
        multiplied(p, summed(forward_row(startprob, transmat, frames, t - 1)), c);
        multiplied(p, sum, s);
        let w = u.s_minus(v).s_exp();
        log_subtracted(p, l, u, v);
        multiplied(p, c, s);
        regrouped(p, w, s, c);
    } else {
        constants(p);
        log_constants(p, l);
        multiplied(p, num::<T>(1), num(1));
    }
}

/// The log-likelihood of the scaling pass is the logarithm of the probability of
/// the frames, wherever no row underflows.
pub proof fn scaling_pass_scores_the_likelihood<T: Scalar>(
    p: Set<T>,
    l: Set<T>,
    startprob: Seq<T>,
    transmat: &Matrix<T>,
    frames: &Matrix<T>,
)
    requires
        exact_numbers(p),
        exact_logs(p, l),
        chain_in(p, startprob, transmat, frames),
        stays_above(startprob, transmat, frames, frames.rows.len() as int),
    ensures
        scaled_log_prob(startprob, transmat, frames, frames.rows.len() as int).s_exp()
            == likelihood(startprob, transmat, frames),
{
    let n = frames.rows.len() as int;
    scaled_log_prob_is_inverse(p, l, startprob, transmat, frames, n);
    raw_row_is_multiple(p, startprob, transmat, frames, n - 1);
    row_total_of_raw(p, startprob, transmat, frames, n - 1);
    let raw = forward_raw_row(startprob, transmat, frames, n - 1);
    let s = scale_of(raw);
    let c = scaling_product(startprob, transmat, frames, n - 1);
    let a = scaled_log_prob(startprob, transmat, frames, n).s_exp();
    let b = likelihood(startprob, transmat, frames);
    let cs = scaling_product(startprob, transmat, frames, n);
    let one = num::<T>(1);
    constants(p);
    exp_of(p, l, scaled_log_prob(startprob, transmat, frames, n));
    // The likelihood is an inverse of the product too.
    regrouped(p, b, c, s);
    multiplied(p, s, b.s_times(c));
    // Inverses are unique.
    multiplied(p, a, one);
    multiplied(p, b, cs);
    regrouped(p, a, cs, b);
    multiplied(p, b, one);
}

/// Both passes agree: the log-likelihood of either is the logarithm of one number,
/// wherever the scaling pass does not underflow.
pub proof fn passes_agree<T: Scalar>(
    p: Set<T>,
    l: Set<T>,
    startprob: Seq<T>,
    transmat: &Matrix<T>,
    log_frames: &Matrix<T>,
    frames: &Matrix<T>,
)
    requires
        exact_numbers(p),
        exact_logs(p, l),
        chain_in(p, startprob, transmat, frames),
        frames_of_logs(l, log_frames, frames),
        stays_above(startprob, transmat, frames, frames.rows.len() as int),
    ensures
        scaled_log_prob(startprob, transmat, frames, frames.rows.len() as int).s_exp()
            == log_sum_exp(
            forward_log_row(startprob, transmat, log_frames, frames.rows.len() - 1),
        ).s_exp(),
{
    scaling_pass_scores_the_likelihood(p, l, startprob, transmat, frames);
    log_pass_scores_the_likelihood(p, l, startprob, transmat, log_frames, frames);
}

/// The probability of a path and of the frames along it.
pub open spec fn path_weight<T: Scalar>(
    startprob: Seq<T>,
    transmat: &Matrix<T>,
    frames: &Matrix<T>,
    path: Seq<int>,
) -> T
    decreases path.len(),
{
    if path.len() <= 1 {
        startprob[path[0]].s_times(frames.at(0, path[0]))
    } else {
        let t = path.len() - 1;
        path_weight(startprob, transmat, frames, path.drop_last()).s_times(
            transmat.at(path[t - 1], path[t]),
        ).s_times(frames.at(t, path[t]))
    }
}

/// The sum of the weights of all paths that consist of any `n` states followed by
/// `tail`.
pub open spec fn sum_over_paths<T: Scalar>(
    startprob: Seq<T>,
    transmat: &Matrix<T>,
    frames: &Matrix<T>,
    n: int,
    tail: Seq<int>,
) -> T
    decreases n, frames.ncols + 2,
{
    if n <= 0 {
        path_weight(startprob, transmat, frames, tail)
    } else {
        sum_over_heads(startprob, transmat, frames, n, tail, frames.ncols as int)
    }
}

/// The part of that sum in which the state before `tail` is one of the first `k`.
pub open spec fn sum_over_heads<T: Scalar>(
    startprob: Seq<T>,
    transmat: &Matrix<T>,
    frames: &Matrix<T>,
    n: int,
    tail: Seq<int>,
    k: int,
) -> T
    decreases n, k + 1,
{
    if n <= 0 || k <= 0 {
        num(0)
    } else {
        sum_over_heads(startprob, transmat, frames, n, tail, k - 1).s_plus(
            sum_over_paths(startprob, transmat, frames, n - 1, seq![k - 1] + tail),
        )
    }
}

proof fn heads_as_sum<T: Scalar>(
    startprob: Seq<T>,
    transmat: &Matrix<T>,
    frames: &Matrix<T>,
    n: int,
    tail: Seq<int>,
    k: int,
)
    requires
        n >= 1,
        k >= 0,
    ensures
        sum_over_heads(startprob, transmat, frames, n, tail, k) == sigma(
            k,
            |j: int| sum_over_paths(startprob, transmat, frames, n - 1, seq![j] + tail),
        ),
    decreases k,
{
    if k > 0 {
        heads_as_sum(startprob, transmat, frames, n, tail, k - 1);
    }
}

/// Every state of the sequence is one of `nc`.
pub open spec fn are_states(s: Seq<int>, nc: int) -> bool {
    forall|i: int| 0 <= i < s.len() ==> 0 <= #[trigger] s[i] < nc
}

/// What the steps along `tail` contribute, from its first state on, which stands
/// at frame `t`.
pub open spec fn tail_weight<T: Scalar>(transmat: &Matrix<T>, frames: &Matrix<T>, t: int, tail: Seq<int>) -> T
    decreases tail.len(),
{
    if tail.len() <= 1 {
        num(1)
    } else {
        tail_weight(transmat, frames, t, tail.drop_last()).s_times(
            transmat.at(tail[tail.len() - 2], tail[tail.len() - 1]),
        ).s_times(frames.at(t + tail.len() - 1, tail[tail.len() - 1]))
    }
}

proof fn tail_weight_in<T: Scalar>(
    p: Set<T>,
    startprob: Seq<T>,
    transmat: &Matrix<T>,
    frames: &Matrix<T>,
    t: int,
    tail: Seq<int>,
)
    requires
        exact_numbers(p),
        chain_in(p, startprob, transmat, frames),
        0 <= t,
        t + tail.len() <= frames.rows.len(),
        are_states(tail, frames.ncols as int),
    ensures
        p.contains(tail_weight(transmat, frames, t, tail)),
    decreases tail.len(),
{
    if tail.len() > 1 {
        tail_weight_in(p, startprob, transmat, frames, t, tail.drop_last());
        let n = tail.len() as int;
        assert(0 <= tail[n - 2] < frames.ncols && 0 <= tail[n - 1] < frames.ncols);
        let a = transmat.at(tail[n - 2], tail[n - 1]);
        let b = frames.at(t + n - 1, tail[n - 1]);
        assert(p.contains(a));
        assert(p.contains(b));
        regrouped(p, tail_weight(transmat, frames, t, tail.drop_last()), a, b);
    } else {
        constants(p);
    }
}

/// A tail gains a step in front.
proof fn tail_weight_of_longer<T: Scalar>(
    p: Set<T>,
    startprob: Seq<T>,
    transmat: &Matrix<T>,
    frames: &Matrix<T>,
    t: int,
    j: int,
    tail: Seq<int>,
)
    requires
        exact_numbers(p),
        chain_in(p, startprob, transmat, frames),
        1 <= t,
        tail.len() >= 1,
        t + tail.len() <= frames.rows.len(),
        are_states(tail, frames.ncols as int),
        0 <= j < frames.ncols,
    ensures
        tail_weight(transmat, frames, t - 1, seq![j] + tail) == transmat.at(j, tail[0]).s_times(
            frames.at(t, tail[0]),
        ).s_times(tail_weight(transmat, frames, t, tail)),
    decreases tail.len(),
{
    let n = tail.len() as int;
    let longer = seq![j] + tail;
    let step = transmat.at(j, tail[0]).s_times(frames.at(t, tail[0]));
    assert(p.contains(transmat.at(j, tail[0])));
    assert(p.contains(frames.at(t, tail[0])));
    multiplied(p, transmat.at(j, tail[0]), frames.at(t, tail[0]));
    constants(p);
    if n == 1 {
        assert(longer.drop_last() =~= seq![j]);
        assert(tail_weight(transmat, frames, t - 1, longer.drop_last()) == num::<T>(1));
        multiplied(p, transmat.at(j, tail[0]), num(1));
        multiplied(p, step, num(1));
        assert(longer[longer.len() - 2] == j && longer[longer.len() - 1] == tail[0]);
    } else {
        let rest = tail.drop_last();
        tail_weight_of_longer(p, startprob, transmat, frames, t, j, rest);
        tail_weight_in(p, startprob, transmat, frames, t, rest);
        assert(longer.drop_last() =~= seq![j] + rest);
        assert(rest[0] == tail[0]);
        let w = tail_weight(transmat, frames, t, rest);
        let a = transmat.at(tail[n - 2], tail[n - 1]);
        let b = frames.at(t + n - 1, tail[n - 1]);
        assert(0 <= tail[n - 2] < frames.ncols && 0 <= tail[n - 1] < frames.ncols);
        assert(p.contains(a));
        assert(p.contains(b));
        assert(longer[longer.len() - 2] == tail[n - 2] && longer[longer.len() - 1] == tail[n - 1]);
        regrouped(p, step, w, a);
        regrouped(p, step, w.s_times(a), b);
    }
}

/// The weight of a path is that of its first state and of the tail from it.
proof fn weight_of_head_and_tail<T: Scalar>(
    p: Set<T>,
    startprob: Seq<T>,
    transmat: &Matrix<T>,
    frames: &Matrix<T>,
    path: Seq<int>,
)
    requires
        exact_numbers(p),
        chain_in(p, startprob, transmat, frames),
        1 <= path.len() <= frames.rows.len(),
        are_states(path, frames.ncols as int),
    ensures
        path_weight(startprob, transmat, frames, path) == startprob[path[0]].s_times(
            frames.at(0, path[0]),
        ).s_times(tail_weight(transmat, frames, 0, path)),
    decreases path.len(),
{
    let first = startprob[path[0]].s_times(frames.at(0, path[0]));
    assert(0 <= path[0] < frames.ncols);
    assert(p.contains(startprob[path[0]]));
    assert(p.contains(frames.at(0, path[0])));
    multiplied(p, startprob[path[0]], frames.at(0, path[0]));
    if path.len() == 1 {
        constants(p);
        multiplied(p, first, num(1));
    } else {
        let n = path.len() as int;
        let rest = path.drop_last();
        weight_of_head_and_tail(p, startprob, transmat, frames, rest);
        tail_weight_in(p, startprob, transmat, frames, 0, rest);
        assert(rest[0] == path[0]);
        let w = tail_weight(transmat, frames, 0, rest);
        let a = transmat.at(path[n - 2], path[n - 1]);
        let b = frames.at(n - 1, path[n - 1]);
        assert(0 <= path[n - 2] < frames.ncols && 0 <= path[n - 1] < frames.ncols);
        assert(p.contains(a));
        assert(p.contains(b));
        regrouped(p, first, w, a);
        regrouped(p, first, w.s_times(a), b);
    }
}

/// The forward probability of a tail's first state, at frame `t`, times what the
/// tail contributes, is the sum over all paths that end in the tail.
proof fn forward_and_tail<T: Scalar>(
    p: Set<T>,
    startprob: Seq<T>,
    transmat: &Matrix<T>,
    frames: &Matrix<T>,
    t: int,
    tail: Seq<int>,
)
    requires
        exact_numbers(p),
        chain_in(p, startprob, transmat, frames),
        0 <= t,
        tail.len() >= 1,
        t + tail.len() <= frames.rows.len(),
        are_states(tail, frames.ncols as int),
    ensures
        sum_over_paths(startprob, transmat, frames, t, tail) == forward_row(startprob, transmat, frames, t)[tail[0]].s_times(
            tail_weight(transmat, frames, t, tail),
        ),
    decreases t,
{
    let nc = frames.ncols as int;
    assert(0 <= tail[0] < nc);
    if t == 0 {
        weight_of_head_and_tail(p, startprob, transmat, frames, tail);
    } else {
        let k = tail[0];
        let w = tail_weight(transmat, frames, t, tail);
        tail_weight_in(p, startprob, transmat, frames, t, tail);
        forward_row_in(p, startprob, transmat, frames, t - 1);
        let prev = forward_row(startprob, transmat, frames, t - 1);
        let e = frames.at(t, k);
        assert(p.contains(e));
        let ew = e.s_times(w);
        multiplied(p, e, w);
        let g = |j: int| prev[j].s_times(transmat.at(j, k));
        assert forall|j: int| 0 <= j < nc implies p.contains(#[trigger] g(j)) by {
            assert(p.contains(prev[j]));
            assert(p.contains(transmat.at(j, k)));
            multiplied(p, prev[j], transmat.at(j, k));
        }
        let h = |j: int| sum_over_paths(startprob, transmat, frames, t - 1, seq![j] + tail);
        assert forall|j: int| 0 <= j < nc implies #[trigger] h(j) == (|j: int| g(j).s_times(ew))(
            j,
        ) by {
            let longer = seq![j] + tail;
            assert(are_states(longer, nc)) by {
                assert forall|i: int| 0 <= i < longer.len() implies 0 <= #[trigger] longer[i] < nc by {
                    if i > 0 {
                        assert(longer[i] == tail[i - 1]);
                    }
                }
            }
            forward_and_tail(p, startprob, transmat, frames, t - 1, longer);
            tail_weight_of_longer(p, startprob, transmat, frames, t, j, tail);
            assert(longer[0] == j);
            let a = transmat.at(j, k);
            assert(p.contains(prev[j]));
            assert(p.contains(a));
            regrouped(p, a, e, w);
            regrouped(p, prev[j], a, ew);
        }
        heads_as_sum(startprob, transmat, frames, t, tail, nc);
        sigma_ext(nc, h, |j: int| g(j).s_times(ew));
        sum_of_multiples(p, nc, g, ew);
        sum_in(p, nc, g);
        regrouped(p, sigma(nc, g), e, w);
    }
}

/// The probability of the frames is the sum, over all state paths, of the
/// probability of the path and of the frames along it.
pub proof fn likelihood_sums_over_paths<T: Scalar>(
    p: Set<T>,
    startprob: Seq<T>,
    transmat: &Matrix<T>,
    frames: &Matrix<T>,
)
    requires
        exact_numbers(p),
        chain_in(p, startprob, transmat, frames),
    ensures
        likelihood(startprob, transmat, frames) == sum_over_paths(
            startprob,
            transmat,
            frames,
            frames.rows.len() as int,
            Seq::empty(),
        ),
{
    let nc = frames.ncols as int;
    let n = frames.rows.len() as int;
    let row = forward_row(startprob, transmat, frames, n - 1);
    forward_row_in(p, startprob, transmat, frames, n - 1);
    let h = |j: int|
        sum_over_paths(startprob, transmat, frames, n - 1, seq![j] + Seq::<int>::empty());
    let r = |j: int| row[j];
    assert forall|j: int| 0 <= j < nc implies #[trigger] h(j) == r(j) by {
        assert(seq![j] + Seq::<int>::empty() =~= seq![j]);
        forward_and_tail(p, startprob, transmat, frames, n - 1, seq![j]);
        assert(tail_weight(transmat, frames, n - 1, seq![j]) == num::<T>(1));
        assert(p.contains(row[j]));
        multiplied(p, row[j], row[j]);
    }
    heads_as_sum(startprob, transmat, frames, n, Seq::empty(), nc);
    sigma_ext(nc, h, r);
}

/// Row `t` of the backward lattice: the probability of the frames after `t`, given
/// each state at frame `t`.
pub open spec fn backward_row<T: Scalar>(transmat: &Matrix<T>, frames: &Matrix<T>, t: int) -> Seq<T>
    decreases frames.rows.len() - t,
{
    if t >= frames.rows.len() - 1 {
        Seq::new(frames.ncols as nat, |i: int| num(1))
    } else {
        let next = backward_row(transmat, frames, t + 1);
        Seq::new(
            frames.ncols as nat,
            |i: int|
                sigma(
                    frames.ncols as int,
                    |j: int|
                        transmat.at(i, j).s_times(frames.at(t + 1, j)).s_times(next[j]),
                ),
        )
    }
}

pub(crate) proof fn backward_row_in<T: Scalar>(
    p: Set<T>,
    startprob: Seq<T>,
    transmat: &Matrix<T>,
    frames: &Matrix<T>,
    t: int,
)
    requires
        exact_numbers(p),
        chain_in(p, startprob, transmat, frames),
        0 <= t < frames.rows.len(),
    ensures
        backward_row(transmat, frames, t).len() == frames.ncols,
        forall|i: int|
            0 <= i < frames.ncols ==> p.contains(#[trigger] backward_row(transmat, frames, t)[i]),
    decreases frames.rows.len() - t,
{
    let nc = frames.ncols as int;
    constants(p);
    if t < frames.rows.len() - 1 {
        backward_row_in(p, startprob, transmat, frames, t + 1);
        let next = backward_row(transmat, frames, t + 1);
        let row = backward_row(transmat, frames, t);
        assert forall|i: int| 0 <= i < nc implies p.contains(#[trigger] row[i]) by {
            let g = |j: int| transmat.at(i, j).s_times(frames.at(t + 1, j)).s_times(next[j]);
            assert forall|j: int| 0 <= j < nc implies p.contains(#[trigger] g(j)) by {
                assert(p.contains(transmat.at(i, j)));
                assert(p.contains(frames.at(t + 1, j)));
                assert(p.contains(next[j]));
                regrouped(p, transmat.at(i, j), frames.at(t + 1, j), next[j]);
            }
            sum_in(p, nc, g);
        }
    }
}

/// The log-space backward pass is exact: its lattice holds the logarithms of the
/// backward probabilities.
pub proof fn backward_log_is_exact<T: Scalar>(
    p: Set<T>,
    l: Set<T>,
    startprob: Seq<T>,
    transmat: &Matrix<T>,
    log_frames: &Matrix<T>,
    frames: &Matrix<T>,
    t: int,
)
    requires
        exact_numbers(p),
        exact_logs(p, l),
        chain_in(p, startprob, transmat, frames),
        frames_of_logs(l, log_frames, frames),
        0 <= t < frames.rows.len(),
    ensures
        backward_log_row(transmat, log_frames, t).len() == frames.ncols,
        forall|i: int|
            0 <= i < frames.ncols ==> l.contains(#[trigger] backward_log_row(transmat, log_frames, t)[i]),
        forall|i: int|
            0 <= i < frames.ncols ==> (#[trigger] backward_log_row(transmat, log_frames, t)[i]).s_exp()
                == backward_row(transmat, frames, t)[i],
    decreases frames.rows.len() - t,
{
    let nc = frames.ncols as int;
    log_constants(p, l);
    if t < frames.rows.len() - 1 {
        backward_log_is_exact(p, l, startprob, transmat, log_frames, frames, t + 1);
        let row = backward_log_row(transmat, log_frames, t);
        let plain = backward_row(transmat, frames, t);
        let next = backward_log_row(transmat, log_frames, t + 1);
        let after = backward_row(transmat, frames, t + 1);
        assert forall|i: int| 0 <= i < nc implies l.contains(#[trigger] row[i]) && row[i].s_exp()
            == plain[i] by {
            let dep = log_departures(transmat, log_frames, next, t, i);
            let g = |j: int| transmat.at(i, j).s_times(frames.at(t + 1, j)).s_times(after[j]);
            let e = |j: int| dep[j].s_exp();
            assert forall|j: int| 0 <= j < nc implies l.contains(#[trigger] dep[j]) && e(j) == g(j) by {
                let a = transmat.at(i, j);
                let b = log_frames.at(t + 1, j);
                assert(p.contains(a));
                assert(l.contains(b));
                assert(l.contains(next[j]));
                assert(frames.at(t + 1, j) == b.s_exp());
                assert(next[j].s_exp() == after[j]);
                log_of(p, l, a);
                log_added(p, l, a.s_ln(), b);
                log_added(p, l, a.s_ln().s_plus(b), next[j]);
            }
            log_sum_is_log_of_sum(p, l, dep);
            sigma_ext(nc, e, g);
        }
    }
}

/// At every frame the forward and backward probabilities, multiplied state by
/// state and added up, give the probability of all frames.
pub proof fn forward_times_backward<T: Scalar>(
    p: Set<T>,
    startprob: Seq<T>,
    transmat: &Matrix<T>,
    frames: &Matrix<T>,
    t: int,
)
    requires
        exact_numbers(p),
        chain_in(p, startprob, transmat, frames),
        0 <= t < frames.rows.len(),
    ensures
        sigma(
            frames.ncols as int,
            |j: int|
                forward_row(startprob, transmat, frames, t)[j].s_times(
                    backward_row(transmat, frames, t)[j],
                ),
        ) == likelihood(startprob, transmat, frames),
    decreases frames.rows.len() - t,
{
    let nc = frames.ncols as int;
    let fwd = forward_row(startprob, transmat, frames, t);
    let bwd = backward_row(transmat, frames, t);
    let here = |j: int| fwd[j].s_times(bwd[j]);
    forward_row_in(p, startprob, transmat, frames, t);
    backward_row_in(p, startprob, transmat, frames, t);
    if t == frames.rows.len() - 1 {
        let plain = |j: int| fwd[j];
        assert forall|j: int| 0 <= j < nc implies #[trigger] here(j) == plain(j) by {
            assert(p.contains(fwd[j]));
            multiplied(p, fwd[j], fwd[j]);
        }
        sigma_ext(nc, here, plain);
    } else {
        forward_times_backward(p, startprob, transmat, frames, t + 1);
        forward_row_in(p, startprob, transmat, frames, t + 1);
        backward_row_in(p, startprob, transmat, frames, t + 1);
        let ahead = forward_row(startprob, transmat, frames, t + 1);
        let next = backward_row(transmat, frames, t + 1);
        let there = |j: int| ahead[j].s_times(next[j]);
        // What passes from state `i` to state `j`.
        let f = |i: int, j: int|
            fwd[i].s_times(transmat.at(i, j)).s_times(frames.at(t + 1, j).s_times(next[j]));
        assert forall|i: int, j: int| 0 <= i < nc && 0 <= j < nc implies p.contains(
            #[trigger] f(i, j),
        ) by {
            pass_in(p, startprob, transmat, frames, t, i, j);
        }
        sum_swapped(p, nc, nc, f);
        assert forall|i: int| 0 <= i < nc implies #[trigger] here(i) == (|i: int|
            sigma(nc, |j: int| f(i, j)))(i) by {
            let a = fwd[i];
            assert(p.contains(a));
            let g = |j: int| transmat.at(i, j).s_times(frames.at(t + 1, j)).s_times(next[j]);
            let ga = |j: int| g(j).s_times(a);
            let row = |j: int| f(i, j);
            assert forall|j: int| 0 <= j < nc implies p.contains(#[trigger] g(j)) && ga(j) == row(
                j,
            ) by {
                let x = transmat.at(i, j);
                let y = frames.at(t + 1, j);
                let z = next[j];
                assert(p.contains(x));
                assert(p.contains(y));
                assert(p.contains(z));
                regrouped(p, x, y, z);
                multiplied(p, x.s_times(y).s_times(z), a);
                regrouped(p, a, x, y.s_times(z));
            }
            sum_of_multiples(p, nc, g, a);
            sum_in(p, nc, g);
            sigma_ext(nc, ga, row);
            multiplied(p, a, sigma(nc, g));
            assert(bwd[i] == sigma(nc, g));
        }
        sigma_ext(nc, here, |i: int| sigma(nc, |j: int| f(i, j)));
        assert forall|j: int| 0 <= j < nc implies #[trigger] there(j) == (|j: int|
            sigma(nc, |i: int| f(i, j)))(j) by {
            let y = frames.at(t + 1, j);
            let z = next[j];
            assert(p.contains(y));
            assert(p.contains(z));
            multiplied(p, y, z);
            let g = |i: int| fwd[i].s_times(transmat.at(i, j));
            let col = |i: int| f(i, j);
            assert forall|i: int| 0 <= i < nc implies p.contains(#[trigger] g(i)) by {
                assert(p.contains(fwd[i]));
                assert(p.contains(transmat.at(i, j)));
                multiplied(p, fwd[i], transmat.at(i, j));
            }
            sum_of_multiples(p, nc, g, y.s_times(z));
            sum_in(p, nc, g);
            sigma_ext(nc, |i: int| g(i).s_times(y.s_times(z)), col);
            regrouped(p, sigma(nc, g), y, z);
            assert(ahead[j] == sigma(nc, g).s_times(y));
        }
        sigma_ext(nc, there, |j: int| sigma(nc, |i: int| f(i, j)));
    }
}

pub(crate) proof fn pass_in<T: Scalar>(
    p: Set<T>,
    startprob: Seq<T>,
    transmat: &Matrix<T>,
    frames: &Matrix<T>,
    t: int,
    i: int,
    j: int,
)
    requires
        exact_numbers(p),
        chain_in(p, startprob, transmat, frames),
        0 <= t < frames.rows.len() - 1,
        0 <= i < frames.ncols,
        0 <= j < frames.ncols,
    ensures
        p.contains(
            forward_row(startprob, transmat, frames, t)[i].s_times(transmat.at(i, j)).s_times(
                frames.at(t + 1, j).s_times(backward_row(transmat, frames, t + 1)[j]),
            ),
        ),
{
    forward_row_in(p, startprob, transmat, frames, t);
    backward_row_in(p, startprob, transmat, frames, t + 1);
    let a = forward_row(startprob, transmat, frames, t)[i];
    let x = transmat.at(i, j);
    let y = frames.at(t + 1, j);
    let z = backward_row(transmat, frames, t + 1)[j];
    assert(p.contains(a) && p.contains(x) && p.contains(y) && p.contains(z));
    multiplied(p, a, x);
    multiplied(p, y, z);
    multiplied(p, a.s_times(x), y.s_times(z));
}

/// The posterior of a state, times the probability of all frames, is the
/// probability of all frames and of that state: posteriors are conditional
/// probabilities.
pub proof fn posteriors_are_conditional<T: Scalar>(
    p: Set<T>,
    l: Set<T>,
    startprob: Seq<T>,
    transmat: &Matrix<T>,
    log_frames: &Matrix<T>,
    frames: &Matrix<T>,
    fwd: &Matrix<T>,
    bwd: &Matrix<T>,
    t: int,
    j: int,
)
    requires
        exact_numbers(p),
        exact_logs(p, l),
        chain_in(p, startprob, transmat, frames),
        frames_of_logs(l, log_frames, frames),
        0 <= t < frames.rows.len(),
        0 <= j < frames.ncols,
        fwd.ncols == frames.ncols,
        forall|k: int|
            0 <= k < frames.ncols ==> #[trigger] fwd.at(t, k) == forward_log_row(
                startprob,
                transmat,
                log_frames,
                t,
            )[k],
        forall|k: int|
            0 <= k < frames.ncols ==> #[trigger] bwd.at(t, k) == backward_log_row(
                transmat,
                log_frames,
                t,
            )[k],
        likelihood(startprob, transmat, frames) != num::<T>(0),
    ensures
        log_posterior_at(fwd, bwd, t, j).s_times(likelihood(startprob, transmat, frames))
            == forward_row(startprob, transmat, frames, t)[j].s_times(
            backward_row(transmat, frames, t)[j],
        ),
{
    let nc = frames.ncols as int;
    let a = forward_row(startprob, transmat, frames, t);
    let b = backward_row(transmat, frames, t);
    let whole = likelihood(startprob, transmat, frames);
    forward_log_is_exact(p, l, startprob, transmat, log_frames, frames, t);
    backward_log_is_exact(p, l, startprob, transmat, log_frames, frames, t);
    forward_times_backward(p, startprob, transmat, frames, t);
    forward_row_in(p, startprob, transmat, frames, t);
    backward_row_in(p, startprob, transmat, frames, t);
    constants(p);
    log_constants(p, l);
    let g = |k: int| a[k].s_times(b[k]);
    if nc == 1 {
        assert(p.contains(a[0]) && p.contains(b[0]));
        multiplied(p, a[0], b[0]);
        added(p, g(0), g(0));
        assert(sigma(1, g) == sigma(0, g).s_plus(g(0)));
        multiplied(p, g(0), num(1));
    } else {
        let s = Seq::new(fwd.ncols as nat, |k: int| fwd.at(t, k).s_plus(bwd.at(t, k)));
        let e = |k: int| s[k].s_exp();
        assert forall|k: int| 0 <= k < nc implies l.contains(#[trigger] s[k]) && e(k) == g(k) by {
            let u = forward_log_row(startprob, transmat, log_frames, t)[k];
            let v = backward_log_row(transmat, log_frames, t)[k];
            assert(fwd.at(t, k) == u);
            assert(bwd.at(t, k) == v);
            assert(l.contains(u));
            assert(l.contains(v));
            log_added(p, l, u, v);
        }
        log_sum_is_log_of_sum(p, l, s);
        sigma_ext(nc, e, g);
        let m = log_sum_exp(s);
        assert(m.s_exp() == whole);
        assert(l.contains(s[j]));
        log_subtracted(p, l, s[j], m);
        assert(e(j) == g(j));
    }
}

/// The posteriors of the log-space pass sum to 1 in every row that has any mass.
pub proof fn log_posteriors_sum_to_one<T: Scalar>(
    p: Set<T>,
    l: Set<T>,
    fwd: &Matrix<T>,
    bwd: &Matrix<T>,
    t: int,
)
    requires
        exact_numbers(p),
        exact_logs(p, l),
        fwd.ncols >= 1,
        forall|j: int| 0 <= j < fwd.ncols ==> l.contains(#[trigger] fwd.at(t, j)),
        forall|j: int| 0 <= j < fwd.ncols ==> l.contains(#[trigger] bwd.at(t, j)),
        log_sum_exp(
            Seq::new(fwd.ncols as nat, |k: int| fwd.at(t, k).s_plus(bwd.at(t, k))),
        ) != T::s_neg_inf(),
    ensures
        sigma(fwd.ncols as int, |j: int| log_posterior_at(fwd, bwd, t, j)) == num::<T>(1),
{
    let nc = fwd.ncols as int;
    let one = num::<T>(1);
    let zero = num::<T>(0);
    let post = |j: int| log_posterior_at(fwd, bwd, t, j);
    constants(p);
    log_constants(p, l);
    if nc == 1 {
        assert(post(0) == one);
        assert(sigma(0, post) == zero);
        added(p, one, one);
        assert(sigma(1, post) == sigma(0, post).s_plus(post(0)));
    } else {
        let s = Seq::new(fwd.ncols as nat, |k: int| fwd.at(t, k).s_plus(bwd.at(t, k)));
        assert forall|i: int| 0 <= i < s.len() implies l.contains(#[trigger] s[i]) by {
            assert(l.contains(fwd.at(t, i)));
            assert(l.contains(bwd.at(t, i)));
            log_added(p, l, fwd.at(t, i), bwd.at(t, i));
        }
        shares_sum_to_one(p, l, s);
        sigma_ext(nc, post, |j: int| s[j].s_minus(log_sum_exp(s)).s_exp());
    }
}

/// The shares of logarithms in their log-sum-exp sum to 1, where that is not
/// negative infinity.
pub proof fn shares_sum_to_one<T: Scalar>(p: Set<T>, l: Set<T>, s: Seq<T>)
    requires
        exact_numbers(p),
        exact_logs(p, l),
        forall|i: int| 0 <= i < s.len() ==> l.contains(#[trigger] s[i]),
        log_sum_exp(s) != T::s_neg_inf(),
    ensures
        forall|j: int|
            0 <= j < s.len() ==> p.contains(
                (#[trigger] s[j]).s_minus(log_sum_exp(s)).s_exp(),
            ),
        sigma(s.len() as int, |j: int| s[j].s_minus(log_sum_exp(s)).s_exp()) == num::<T>(1),
{
    let n = s.len() as int;
    let one = num::<T>(1);
    let m = log_sum_exp(s);
    let d = m.s_exp();
    let share = |j: int| s[j].s_minus(m).s_exp();
    let e = |i: int| s[i].s_exp();
    constants(p);
    log_sum_is_log_of_sum(p, l, s);
    assert forall|j: int| 0 <= j < n implies p.contains(#[trigger] share(j)) && e(j) == (|j: int|
        share(j).s_times(d))(j) by {
        assert(l.contains(s[j]));
        log_subtracted(p, l, s[j], m);
    }
    exp_of(p, l, m);
    sigma_ext(n, e, |j: int| share(j).s_times(d));
    sum_of_multiples(p, n, share, d);
    sum_in(p, n, share);
    let x = sigma(n, share);
    mass_is_not_zero(p, l, m);
    let inv = one.s_over(d);
    inverted(p, d);
    multiplied(p, d, inv);
    regrouped(p, x, d, inv);
    multiplied(p, x, one);
    assert forall|j: int| 0 <= j < n implies p.contains((#[trigger] s[j]).s_minus(m).s_exp()) by {
        assert(p.contains(share(j)));
    }
}

/// A logarithm other than negative infinity is that of a number other than zero.
proof fn mass_is_not_zero<T: Scalar>(p: Set<T>, l: Set<T>, m: T)
    requires
        exact_numbers(p),
        exact_logs(p, l),
        l.contains(m),
        m != T::s_neg_inf(),
    ensures
        m.s_exp() != num::<T>(0),
{
    let zero = num::<T>(0);
    constants(p);
    log_constants(p, l);
    // exp(0 - m) * exp(m) is exp(0), which is 1.
    let w = zero.s_minus(m).s_exp();
    log_subtracted(p, l, zero, m);
    multiplied(p, w, zero);
}

/// The posteriors of the scaling pass sum to 1 in every row whose products have a
/// sum other than zero that divides exactly.
pub proof fn scaled_posteriors_sum_to_one<T: Scalar>(fwd: &Matrix<T>, bwd: &Matrix<T>, t: int)
    requires
        !lanes(fwd.ncols as int, |k: int| fwd.at(t, k).s_times(bwd.at(t, k))).s_same(num(0)),
        divides_exactly(lanes(fwd.ncols as int, |k: int| fwd.at(t, k).s_times(bwd.at(t, k)))),
    ensures
        lanes(fwd.ncols as int, |j: int| scaled_posterior_at(fwd, bwd, t, j)) == num::<T>(1),
{
    let nc = fwd.ncols as int;
    let f = |k: int| fwd.at(t, k).s_times(bwd.at(t, k));
    let d = lanes(nc, f);
    quotient_of_lanes(nc, f, d);
    lanes_ext(nc, |j: int| scaled_posterior_at(fwd, bwd, t, j), |j: int| f(j).s_over(d));
}

} // verus!
