//! Special functions: log-gamma, digamma, and numerically stable log-sum-exp.

use crate::scalar::{dec, larger_of, num, one, sigma, sum_of, zero, Scalar};
use vstd::prelude::*;

verus! {

/// Natural log of the absolute value of the gamma function.
#[inline]
pub fn ln_gamma<T: Scalar>(x: T) -> (r: T)
    ensures
        r == x.s_ln_gamma(),
{
    x.ln_gamma()
}

/// The number of shifts that the digamma function makes at most.
pub const SHIFTS: u64 = 0x7fff_ffff_ffff_ffff;

/// The recurrence `psi(x) = psi(x + 1) - 1/x`, applied at most `n` times and
/// only while the argument is below 6: the accumulated correction and the
/// argument reached.
pub open spec fn digamma_shift<T: Scalar>(x: T, n: int) -> (T, T)
    decreases n,
{
    if n <= 0 {
        (num(0), x)
    } else {
        let (acc, y) = digamma_shift(x, n - 1);
        if y.s_below(num(6)) {
            (acc.s_minus(num::<T>(1).s_over(y)), y.s_plus(num(1)))
        } else {
            (acc, y)
        }
    }
}

/// The fraction `1 / n`.
pub open spec fn reciprocal<T: Scalar>(n: int) -> T {
    num::<T>(1).s_over(num(n))
}

/// The asymptotic expansion of the digamma function at `x`, added to `acc`.
pub open spec fn digamma_tail<T: Scalar>(acc: T, x: T) -> T {
    let r = num::<T>(1).s_over(x);
    let rr = r.s_times(r);
    let series = reciprocal::<T>(12).s_minus(
        rr.s_times(
            reciprocal::<T>(120).s_minus(
                rr.s_times(
                    reciprocal::<T>(252).s_minus(
                        rr.s_times(reciprocal::<T>(240).s_minus(rr.s_times(reciprocal(132)))),
                    ),
                ),
            ),
        ),
    );
    acc.s_plus(x.s_ln()).s_minus(dec::<T>(5, -1).s_times(r)).s_minus(rr.s_times(series))
}

/// The digamma function: the argument is shifted to 6 or beyond, where the
/// expansion takes over. A positive argument takes six shifts at most; one that
/// [`SHIFTS`] shifts leave below 6 is expanded there.
pub open spec fn digamma_of<T: Scalar>(x: T) -> T {
    let (acc, y) = digamma_shift(x, SHIFTS as int);
    digamma_tail(acc, y)
}

proof fn shift_is_settled<T: Scalar>(x: T, i: int, n: int)
    requires
        0 <= i <= n,
        !digamma_shift(x, i).1.s_below(num(6)),
    ensures
        digamma_shift(x, n) == digamma_shift(x, i),
    decreases n,
{
    if i < n {
        shift_is_settled(x, i, n - 1);
    }
}

/// The digamma function. The shifts and the expansion are meant for positive `x`.
pub fn digamma<T: Scalar>(x: T) -> (r: T)
    ensures
        r == digamma_of(x),
{
    let mut acc: T = zero();
    let mut y = x;
    let mut i: u64 = 0;
    while i < SHIFTS && y.below(T::of_int(6))
        invariant
            i <= SHIFTS,
            (acc, y) == digamma_shift(x, i as int),
        decreases SHIFTS - i,
    {
        acc = acc.minus(one::<T>().over(y));
        y = y.plus(one());
        i += 1;
    }
    proof {
        if i < SHIFTS {
            shift_is_settled(x, i as int, SHIFTS as int);
        }
    }
    let u: T = one();
    let r = u.over(y);
    let rr = r.times(r);
    let e = u.over(T::of_int(240)).minus(rr.times(u.over(T::of_int(132))));
    let d = u.over(T::of_int(252)).minus(rr.times(e));
    let c = u.over(T::of_int(120)).minus(rr.times(d));
    let series = u.over(T::of_int(12)).minus(rr.times(c));
    acc.plus(y.ln()).minus(T::decimal(5, -1).times(r)).minus(rr.times(series))
}

/// `log(exp(a) + exp(b))`, shifted by the larger operand; an operand equal to
/// negative infinity leaves the other one unchanged.
pub open spec fn log_add<T: Scalar>(a: T, b: T) -> T {
    if a.s_same(T::s_neg_inf()) {
        b
    } else if b.s_same(T::s_neg_inf()) {
        a
    } else if b.s_below(a) {
        a.s_plus(b.s_minus(a).s_exp().s_ln_1p())
    } else {
        b.s_plus(a.s_minus(b).s_exp().s_ln_1p())
    }
}

/// `log(exp(a) + exp(b))`, computed stably, with negative infinity as `log(0)`.
#[inline]
pub fn logaddexp<T: Scalar>(a: T, b: T) -> (r: T)
    ensures
        r == log_add(a, b),
{
    if a.same(T::neg_inf()) {
        return b;
    }
    if b.same(T::neg_inf()) {
        return a;
    }
    if b.below(a) {
        a.plus(b.minus(a).exp().ln_1p())
    } else {
        b.plus(a.minus(b).exp().ln_1p())
    }
}

/// The maximum of the first `n` entries and negative infinity.
pub open spec fn max_upto<T: Scalar>(s: Seq<T>, n: int) -> T
    decreases n,
{
    if n <= 0 {
        T::s_neg_inf()
    } else {
        larger_of(s[n - 1], max_upto(s, n - 1))
    }
}

/// The maximum of the entries and negative infinity.
pub fn max_entry<T: Scalar>(v: &Vec<T>) -> (r: T)
    ensures
        r == max_upto(v@, v@.len() as int),
{
    let mut m = T::neg_inf();
    let mut i: usize = 0;
    while i < v.len()
        invariant
            i <= v.len(),
            m == max_upto(v@, i as int),
        decreases v.len() - i,
    {
        if m.below(v[i]) {
            m = v[i];
        }
        i += 1;
    }
    m
}

/// `log(sum(exp(s)))`: the maximum is subtracted from every entry before it is
/// exponentiated, and an infinite maximum is the result itself.
pub open spec fn log_sum_exp<T: Scalar>(s: Seq<T>) -> T {
    let m = max_upto(s, s.len() as int);
    if m.s_same(T::s_neg_inf()) {
        T::s_neg_inf()
    } else if m.s_same(T::s_pos_inf()) {
        T::s_pos_inf()
    } else {
        m.s_plus(sigma(s.len() as int, |i: int| s[i].s_minus(m).s_exp()).s_ln())
    }
}

/// `log(sum(exp(v)))`, using the max-shift trick.
pub fn logsumexp<T: Scalar>(v: &Vec<T>) -> (r: T)
    ensures
        r == log_sum_exp(v@),
{
    let m = max_entry(v);
    if m.same(T::neg_inf()) {
        return T::neg_inf();
    }
    if m.same(T::pos_inf()) {
        return T::pos_inf();
    }
    let f = |i: usize| -> (x: T)
        requires
            i < v.len(),
        ensures
            x == v@[i as int].s_minus(m).s_exp(),
    {
        v[i].minus(m).exp()
    };
    let s = sum_of(v.len(), f, Ghost(|i: int| v@[i].s_minus(m).s_exp()));
    m.plus(s.ln())
}

/// Adding a `log(0)` changes nothing, on either side, wherever negative infinity
/// equals itself.
pub proof fn log_add_of_nothing<T: Scalar>(a: T)
    requires
        T::s_neg_inf().s_same(T::s_neg_inf()),
    ensures
        log_add(T::s_neg_inf(), a) == a,
        a.s_same(T::s_neg_inf()) || log_add(a, T::s_neg_inf()) == a,
{
}

} // verus!
