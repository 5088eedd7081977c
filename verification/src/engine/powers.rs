//! Logarithms of products of powers, read as sums of multiples.

use crate::engine::agreement::{exact_logs, log_added, log_constants, log_of, log_subtracted};
use crate::engine::raising::{read_constants, read_product, read_sign, reads};
use crate::exact::{constants, exact_numbers, multiplied};
use crate::reals::{is_ln, ln_of_one, rsum};
use crate::scalar::{num, sigma, Scalar};
use vstd::prelude::*;

verus! {

/// The logarithm `u`, read.
pub open spec fn log_value<T: Scalar>(
    val: spec_fn(T) -> real,
    ln: spec_fn(real) -> real,
    u: T,
) -> real {
    ln(val(u.s_exp()))
}

/// `u` is the logarithm of a number other than zero, and reads as `value`.
pub open spec fn reads_log<T: Scalar>(
    l: Set<T>,
    val: spec_fn(T) -> real,
    ln: spec_fn(real) -> real,
    u: T,
    value: real,
) -> bool {
    &&& l.contains(u)
    &&& u.s_exp() != num::<T>(0)
    &&& log_value(val, ln, u) == value
}

/// A multiple of a logarithm is that of a power, and log-gamma values of numbers
/// from 1 on are logarithms.
#[verifier::opaque]
pub open spec fn exact_powers<T: Scalar>(
    p: Set<T>,
    l: Set<T>,
    val: spec_fn(T) -> real,
    ln: spec_fn(real) -> real,
) -> bool {
    &&& forall|x: T, u: T|
        p.contains(x) && l.contains(u) && u.s_exp() != num::<T>(0) ==> reads_log(
            l,
            val,
            ln,
            #[trigger] x.s_times(u),
            val(x) * log_value(val, ln, u),
        )
    &&& forall|x: T, u: T|
        p.contains(x) && x != num::<T>(0) && l.contains(u) && u.s_exp() == num::<T>(0)
            ==> l.contains(#[trigger] x.s_times(u)) && x.s_times(u).s_exp() == num::<T>(0)
    &&& forall|a: T|
        p.contains(a) ==> l.contains(#[trigger] a.s_plus(num(1)).s_ln_gamma()) && a.s_plus(
            num(1),
        ).s_ln_gamma().s_exp() != num::<T>(0)
}

/// The numbers are logarithms too, and read as such as what they are.
#[verifier::opaque]
pub open spec fn numbers_are_logs<T: Scalar>(
    p: Set<T>,
    l: Set<T>,
    val: spec_fn(T) -> real,
    ln: spec_fn(real) -> real,
) -> bool {
    forall|a: T| p.contains(a) ==> #[trigger] reads_log(l, val, ln, a, val(a))
}

pub proof fn power_reads<T: Scalar>(
    p: Set<T>,
    l: Set<T>,
    val: spec_fn(T) -> real,
    ln: spec_fn(real) -> real,
    x: T,
    a: T,
)
    requires
        exact_logs(p, l),
        exact_powers(p, l, val, ln),
        p.contains(x),
        p.contains(a),
    ensures
        a != num::<T>(0) ==> reads_log(l, val, ln, x.s_times(a.s_ln()), val(x) * ln(val(a))),
        a == num::<T>(0) && x != num::<T>(0) ==> l.contains(x.s_times(a.s_ln())) && x.s_times(
            a.s_ln(),
        ).s_exp() == num::<T>(0),
{
    reveal(exact_powers);
    log_of(p, l, a);
    let u = a.s_ln();
    if a != num::<T>(0) {
        assert(reads_log(l, val, ln, x.s_times(u), val(x) * log_value(val, ln, u)));
    }
}

pub proof fn log_gamma_reads<T: Scalar>(
    p: Set<T>,
    l: Set<T>,
    val: spec_fn(T) -> real,
    ln: spec_fn(real) -> real,
    a: T,
)
    requires
        exact_powers(p, l, val, ln),
        p.contains(a),
    ensures
        reads_log(
            l,
            val,
            ln,
            a.s_plus(num(1)).s_ln_gamma(),
            log_value(val, ln, a.s_plus(num(1)).s_ln_gamma()),
        ),
{
    reveal(exact_powers);
}

/// A sum of logarithms is that of a product.
pub proof fn log_sum_reads<T: Scalar>(
    p: Set<T>,
    l: Set<T>,
    val: spec_fn(T) -> real,
    ln: spec_fn(real) -> real,
    u: T,
    v: T,
)
    requires
        exact_numbers(p),
        exact_logs(p, l),
        reads(p, val),
        is_ln(ln),
        l.contains(u),
        l.contains(v),
    ensures
        l.contains(u.s_plus(v)),
        u.s_exp() == num::<T>(0) || v.s_exp() == num::<T>(0) ==> u.s_plus(v).s_exp() == num::<T>(0),
        u.s_exp() != num::<T>(0) && v.s_exp() != num::<T>(0) ==> reads_log(
            l,
            val,
            ln,
            u.s_plus(v),
            log_value(val, ln, u) + log_value(val, ln, v),
        ),
{
    log_added(p, l, u, v);
    let (x, y) = (u.s_exp(), v.s_exp());
    constants(p);
    multiplied(p, x, y);
    multiplied(p, y, x);
    read_product(p, val, x, y);
    read_sign(p, val, x);
    read_sign(p, val, y);
    read_sign(p, val, x.s_times(y));
    let (a, b) = (val(x), val(y));
    if x != num::<T>(0) && y != num::<T>(0) {
        assert(0real < a * b) by (nonlinear_arith)
            requires
                0real < a,
                0real < b,
        ;
        assert(ln(a * b) == ln(a) + ln(b));
    }
}

/// A difference of logarithms is that of a quotient.
pub proof fn log_difference_reads<T: Scalar>(
    p: Set<T>,
    l: Set<T>,
    val: spec_fn(T) -> real,
    ln: spec_fn(real) -> real,
    u: T,
    v: T,
)
    requires
        exact_numbers(p),
        exact_logs(p, l),
        reads(p, val),
        is_ln(ln),
        l.contains(u),
        l.contains(v),
        u.s_exp() != num::<T>(0),
        v.s_exp() != num::<T>(0),
    ensures
        reads_log(
            l,
            val,
            ln,
            u.s_minus(v),
            log_value(val, ln, u) - log_value(val, ln, v),
        ),
{
    log_constants(p, l);
    log_subtracted(p, l, u, v);
    let (x, y) = (u.s_minus(v).s_exp(), v.s_exp());
    constants(p);
    multiplied(p, x, y);
    read_product(p, val, x, y);
    read_sign(p, val, x);
    read_sign(p, val, y);
    read_sign(p, val, u.s_exp());
    let (a, b) = (val(x), val(y));
    if x == num::<T>(0) {
        assert(0real * b == 0real) by (nonlinear_arith);
    }
    assert(ln(a * b) == ln(a) + ln(b));
}

/// The sum of no logarithms is that of 1.
pub proof fn log_of_one_reads<T: Scalar>(
    p: Set<T>,
    l: Set<T>,
    val: spec_fn(T) -> real,
    ln: spec_fn(real) -> real,
)
    requires
        exact_numbers(p),
        exact_logs(p, l),
        reads(p, val),
        is_ln(ln),
    ensures
        reads_log(l, val, ln, num(0), 0real),
{
    log_constants(p, l);
    constants(p);
    read_constants(p, val);
    ln_of_one(ln);
}

/// A sum of logarithms, read.
pub proof fn log_sigma_reads<T: Scalar>(
    p: Set<T>,
    l: Set<T>,
    val: spec_fn(T) -> real,
    ln: spec_fn(real) -> real,
    n: int,
    f: spec_fn(int) -> T,
    g: spec_fn(int) -> real,
)
    requires
        exact_numbers(p),
        exact_logs(p, l),
        reads(p, val),
        is_ln(ln),
        forall|i: int| 0 <= i < n ==> l.contains(#[trigger] f(i)),
        forall|i: int|
            0 <= i < n && (#[trigger] f(i)).s_exp() != num::<T>(0) ==> log_value(val, ln, f(i))
                == g(i),
    ensures
        l.contains(sigma(n, f)),
        (forall|i: int| 0 <= i < n ==> (#[trigger] f(i)).s_exp() != num::<T>(0)) ==> reads_log(
            l,
            val,
            ln,
            sigma(n, f),
            rsum(n, g),
        ),
        forall|i: int|
            0 <= i < n && (#[trigger] f(i)).s_exp() == num::<T>(0) ==> sigma(n, f).s_exp()
                == num::<T>(0),
    decreases n,
{
    log_of_one_reads(p, l, val, ln);
    if n > 0 {
        log_sigma_reads(p, l, val, ln, n - 1, f, g);
        assert(l.contains(f(n - 1)));
        log_sum_reads(p, l, val, ln, sigma(n - 1, f), f(n - 1));
    }
}

} // verus!
