//! The arithmetic that every algorithm of this crate is written over.
//!
//! A [`Scalar`] is a type of numbers with the operations the algorithms need.
//! Each executable operation returns what its specification twin (`s_` and the
//! same name) names, and nothing else is promised of it: no rounding, no
//! associativity, no order. A contract stated over these names therefore says
//! exactly which operations are performed on which values, and holds for any
//! arithmetic, floating point included.

use vstd::prelude::*;

verus! {

/// A type of numbers.
pub trait Scalar: Copy {
    /// The number nearest to the integer `n`.
    closed spec fn s_of_int(n: int) -> Self {
        arbitrary()
    }

    /// The number nearest to `digits * 10^exponent`.
    closed spec fn s_decimal(digits: int, exponent: int) -> Self {
        arbitrary()
    }

    /// Positive infinity.
    closed spec fn s_pos_inf() -> Self {
        arbitrary()
    }

    /// Negative infinity.
    closed spec fn s_neg_inf() -> Self {
        arbitrary()
    }

    /// A value that is no number.
    closed spec fn s_nan() -> Self {
        arbitrary()
    }

    /// The circle constant.
    closed spec fn s_pi() -> Self {
        arbitrary()
    }

    /// `self + other`.
    closed spec fn s_plus(self, other: Self) -> Self {
        arbitrary()
    }

    /// `self - other`.
    closed spec fn s_minus(self, other: Self) -> Self {
        arbitrary()
    }

    /// `self * other`.
    closed spec fn s_times(self, other: Self) -> Self {
        arbitrary()
    }

    /// `self / other`.
    closed spec fn s_over(self, other: Self) -> Self {
        arbitrary()
    }

    /// `self < other`.
    closed spec fn s_below(self, other: Self) -> bool {
        arbitrary()
    }

    /// `self == other`, which a value that is no number does not satisfy.
    closed spec fn s_same(self, other: Self) -> bool {
        arbitrary()
    }

    /// 1 for a positive number, -1 for a negative one; a zero counts by its sign.
    closed spec fn s_signum(self) -> Self {
        arbitrary()
    }

    /// The natural logarithm.
    closed spec fn s_ln(self) -> Self {
        arbitrary()
    }

    /// The logarithm of `1 + self`.
    closed spec fn s_ln_1p(self) -> Self {
        arbitrary()
    }

    /// The exponential.
    closed spec fn s_exp(self) -> Self {
        arbitrary()
    }

    /// The square root.
    closed spec fn s_sqrt(self) -> Self {
        arbitrary()
    }

    /// `self` times `factor` plus `term`, rounded once.
    closed spec fn s_mul_add(self, factor: Self, term: Self) -> Self {
        arbitrary()
    }

    /// `self` to the power of `exponent`.
    closed spec fn s_pow(self, exponent: Self) -> Self {
        arbitrary()
    }

    /// The largest whole number not above `self`.
    closed spec fn s_floor(self) -> Self {
        arbitrary()
    }

    /// `self` without its whole part.
    closed spec fn s_fract(self) -> Self {
        arbitrary()
    }

    /// `self` as an integer: rounded towards zero, clamped to the range.
    closed spec fn s_to_int(self) -> i64 {
        arbitrary()
    }

    /// The logarithm of the gamma function.
    closed spec fn s_ln_gamma(self) -> Self {
        arbitrary()
    }

    /// `self` in decimal notation, with `places` digits after the point (the
    /// shortest exact notation for `None`) and a sign in front of a number that
    /// is not negative when `plus` is set.
    closed spec fn s_text(self, places: Option<usize>, plus: bool) -> Seq<char> {
        arbitrary()
    }

    /// The number nearest to the integer `n`.
    fn of_int(n: i128) -> (r: Self)
        ensures
            r == Self::s_of_int(n as int),
    ;

    /// The number nearest to `digits * 10^exponent`.
    fn decimal(digits: i64, exponent: i32) -> (r: Self)
        ensures
            r == Self::s_decimal(digits as int, exponent as int),
    ;

    /// Positive infinity.
    fn pos_inf() -> (r: Self)
        ensures
            r == Self::s_pos_inf(),
    ;

    /// Negative infinity.
    fn neg_inf() -> (r: Self)
        ensures
            r == Self::s_neg_inf(),
    ;

    /// A value that is no number.
    fn nan() -> (r: Self)
        ensures
            r == Self::s_nan(),
    ;

    /// The circle constant.
    fn pi() -> (r: Self)
        ensures
            r == Self::s_pi(),
    ;

    /// `self + other`.
    fn plus(self, other: Self) -> (r: Self)
        ensures
            r == self.s_plus(other),
    ;

    /// `self - other`.
    fn minus(self, other: Self) -> (r: Self)
        ensures
            r == self.s_minus(other),
    ;

    /// `self * other`.
    fn times(self, other: Self) -> (r: Self)
        ensures
            r == self.s_times(other),
    ;

    /// `self / other`.
    fn over(self, other: Self) -> (r: Self)
        ensures
            r == self.s_over(other),
    ;

    /// `self < other`.
    fn below(self, other: Self) -> (r: bool)
        ensures
            r == self.s_below(other),
    ;

    /// `self == other`, which a value that is no number does not satisfy.
    fn same(self, other: Self) -> (r: bool)
        ensures
            r == self.s_same(other),
    ;

    /// 1 for a positive number, -1 for a negative one; a zero counts by its sign.
    fn signum(self) -> (r: Self)
        ensures
            r == self.s_signum(),
    ;

    /// The natural logarithm.
    fn ln(self) -> (r: Self)
        ensures
            r == self.s_ln(),
    ;

    /// The logarithm of `1 + self`.
    fn ln_1p(self) -> (r: Self)
        ensures
            r == self.s_ln_1p(),
    ;

    /// The exponential.
    fn exp(self) -> (r: Self)
        ensures
            r == self.s_exp(),
    ;

    /// The square root.
    fn sqrt(self) -> (r: Self)
        ensures
            r == self.s_sqrt(),
    ;

    /// `self` times `factor` plus `term`, rounded once.
    fn mul_add(self, factor: Self, term: Self) -> (r: Self)
        ensures
            r == self.s_mul_add(factor, term),
    ;

    /// `self` to the power of `exponent`.
    fn pow(self, exponent: Self) -> (r: Self)
        ensures
            r == self.s_pow(exponent),
    ;

    /// The largest whole number not above `self`.
    fn floor(self) -> (r: Self)
        ensures
            r == self.s_floor(),
    ;

    /// `self` without its whole part.
    fn fract(self) -> (r: Self)
        ensures
            r == self.s_fract(),
    ;

    /// `self` as an integer: rounded towards zero, clamped to the range.
    fn to_int(self) -> (r: i64)
        ensures
            r == self.s_to_int(),
    ;

    /// The logarithm of the gamma function.
    fn ln_gamma(self) -> (r: Self)
        ensures
            r == self.s_ln_gamma(),
    ;

    /// `self` in decimal notation, with `places` digits after the point (the
    /// shortest exact notation for `None`) and a sign in front of a number that
    /// is not negative when `plus` is set.
    fn text(self, places: Option<usize>, plus: bool) -> (r: String)
        ensures
            r@ == self.s_text(places, plus),
    ;
}

/// The integer `n` as a number.
pub open spec fn num<T: Scalar>(n: int) -> T {
    T::s_of_int(n)
}

/// The number `digits * 10^exponent`.
pub open spec fn dec<T: Scalar>(digits: int, exponent: int) -> T {
    T::s_decimal(digits, exponent)
}

/// `a` where `a` is above `b`, and `b` otherwise.
pub open spec fn larger_of<T: Scalar>(a: T, b: T) -> T {
    if b.s_below(a) {
        a
    } else {
        b
    }
}

/// `a` where `a` is below `b`, and `b` otherwise.
pub open spec fn smaller_of<T: Scalar>(a: T, b: T) -> T {
    if a.s_below(b) {
        a
    } else {
        b
    }
}

/// `-a`, as `a * -1`.
pub open spec fn negative<T: Scalar>(a: T) -> T {
    a.s_times(num(-1))
}

/// The magnitude of `a`.
pub open spec fn magnitude<T: Scalar>(a: T) -> T {
    if a.s_below(num(0)) {
        negative(a)
    } else {
        a
    }
}

/// `a <= b`.
pub open spec fn at_most<T: Scalar>(a: T, b: T) -> bool {
    a.s_below(b) || a.s_same(b)
}

/// `f(0) + f(1) + ... + f(n - 1)`, added from the left, starting from 0.
pub open spec fn sigma<T: Scalar>(n: int, f: spec_fn(int) -> T) -> T
    decreases n,
{
    if n <= 0 {
        num(0)
    } else {
        sigma(n - 1, f).s_plus(f(n - 1))
    }
}

/// The sum of a sequence, added from the left, starting from 0.
pub open spec fn summed<T: Scalar>(s: Seq<T>) -> T {
    sigma(s.len() as int, |i: int| s[i])
}

/// Every eighth value of `f`, from `f(k)` on.
pub open spec fn lane<T>(f: spec_fn(int) -> T, k: int) -> spec_fn(int) -> T {
    |i: int| f(8 * i + k)
}

/// The first `8 * b` values of `f`, added in eight lanes, and the lanes in pairs.
pub open spec fn paired_lanes<T: Scalar>(b: int, f: spec_fn(int) -> T) -> T {
    let p = |k: int| sigma(b, lane(f, k));
    num::<T>(0).s_plus(p(0).s_plus(p(4))).s_plus(p(1).s_plus(p(5))).s_plus(
        p(2).s_plus(p(6)),
    ).s_plus(p(3).s_plus(p(7)))
}

/// The values of `f` from `f(k)` on.
pub open spec fn from_on<T>(f: spec_fn(int) -> T, k: int) -> spec_fn(int) -> T {
    |i: int| f(k + i)
}

/// The sum of `f(0)` to `f(n - 1)`, blocks of eight added in eight lanes and the
/// rest behind them from the left.
pub open spec fn lanes<T: Scalar>(n: int, f: spec_fn(int) -> T) -> T {
    grown(paired_lanes(n / 8, f), n % 8, from_on(f, 8 * (n / 8)))
}

/// The sum of a sequence, added in lanes.
pub open spec fn total<T: Scalar>(s: Seq<T>) -> T {
    lanes(s.len() as int, |i: int| s[i])
}

/// Sums over functions that agree on the indices summed over are equal.
pub proof fn sigma_ext<T: Scalar>(n: int, f: spec_fn(int) -> T, g: spec_fn(int) -> T)
    requires
        forall|i: int| 0 <= i < n ==> #[trigger] f(i) == g(i),
    ensures
        sigma(n, f) == sigma(n, g),
    decreases n,
{
    if n > 0 {
        sigma_ext(n - 1, f, g);
    }
}

/// Running sums over functions that agree on the indices summed over are equal.
pub proof fn grown_ext<T: Scalar>(before: T, n: int, f: spec_fn(int) -> T, g: spec_fn(int) -> T)
    requires
        forall|i: int| 0 <= i < n ==> #[trigger] f(i) == g(i),
    ensures
        grown(before, n, f) == grown(before, n, g),
    decreases n,
{
    if n > 0 {
        grown_ext(before, n - 1, f, g);
    }
}

/// Sums in lanes over functions that agree on the indices summed over are equal.
pub proof fn lanes_ext<T: Scalar>(n: int, f: spec_fn(int) -> T, g: spec_fn(int) -> T)
    requires
        0 <= n,
        forall|i: int| 0 <= i < n ==> #[trigger] f(i) == g(i),
    ensures
        lanes(n, f) == lanes(n, g),
{
    let b = n / 8;
    let p = |k: int| sigma(b, lane(f, k));
    let q = |k: int| sigma(b, lane(g, k));
    assert forall|k: int| 0 <= k < 8 implies #[trigger] p(k) == q(k) by {
        assert forall|i: int| 0 <= i < b implies #[trigger] lane(f, k)(i) == lane(g, k)(i) by {
            assert(f(8 * i + k) == g(8 * i + k));
        }
        sigma_ext(b, lane(f, k), lane(g, k));
    }
    assert(p(0) == q(0) && p(1) == q(1) && p(2) == q(2) && p(3) == q(3));
    assert(p(4) == q(4) && p(5) == q(5) && p(6) == q(6) && p(7) == q(7));
    assert forall|i: int| 0 <= i < n % 8 implies #[trigger] from_on(f, 8 * b)(i) == from_on(
        g,
        8 * b,
    )(i) by {
        assert(f(8 * b + i) == g(8 * b + i));
    }
    grown_ext(paired_lanes(b, f), n % 8, from_on(f, 8 * b), from_on(g, 8 * b));
}

/// `0`.
pub fn zero<T: Scalar>() -> (r: T)
    ensures
        r == num::<T>(0),
{
    T::of_int(0)
}

/// `1`.
pub fn one<T: Scalar>() -> (r: T)
    ensures
        r == num::<T>(1),
{
    T::of_int(1)
}

/// The count `n` as a number.
pub fn count<T: Scalar>(n: usize) -> (r: T)
    ensures
        r == num::<T>(n as int),
{
    T::of_int(n as i128)
}

/// `a` where `a` is above `b`, and `b` otherwise.
pub fn larger<T: Scalar>(a: T, b: T) -> (r: T)
    ensures
        r == larger_of(a, b),
{
    if b.below(a) {
        a
    } else {
        b
    }
}

/// `a` where `a` is below `b`, and `b` otherwise.
pub fn smaller<T: Scalar>(a: T, b: T) -> (r: T)
    ensures
        r == smaller_of(a, b),
{
    if a.below(b) {
        a
    } else {
        b
    }
}

/// `-a`.
pub fn negate<T: Scalar>(a: T) -> (r: T)
    ensures
        r == negative(a),
{
    a.times(T::of_int(-1))
}

/// The magnitude of `a`.
pub fn abs<T: Scalar>(a: T) -> (r: T)
    ensures
        r == magnitude(a),
{
    if a.below(T::of_int(0)) {
        negate(a)
    } else {
        a
    }
}

/// Whether `a <= b`.
pub fn le<T: Scalar>(a: T, b: T) -> (r: bool)
    ensures
        r == at_most(a, b),
{
    a.below(b) || a.same(b)
}

/// The sum of `f(0)` to `f(n - 1)`, for an `f` that computes `g`.
pub(crate) fn sum_of<T: Scalar, F: Fn(usize) -> T>(
    n: usize,
    f: F,
    Ghost(g): Ghost<spec_fn(int) -> T>,
) -> (r: T)
    requires
        forall|i: usize| i < n ==> call_requires(f, (i,)),
        forall|i: usize, v: T| i < n && #[trigger] call_ensures(f, (i,), v) ==> v == g(i as int),
    ensures
        r == sigma(n as int, g),
{
    let mut acc: T = zero();
    let mut i: usize = 0;
    while i < n
        invariant
            i <= n,
            acc == sigma(i as int, g),
            forall|i: usize| i < n ==> call_requires(f, (i,)),
            forall|i: usize, v: T| i < n && #[trigger] call_ensures(f, (i,), v) ==> v == g(i as int),
        decreases n - i,
    {
        acc = acc.plus(f(i));
        i += 1;
    }
    acc
}

/// `before + f(0) + f(1) + ... + f(n - 1)`, added from the left.
pub open spec fn grown<T: Scalar>(before: T, n: int, f: spec_fn(int) -> T) -> T
    decreases n,
{
    if n <= 0 {
        before
    } else {
        grown(before, n - 1, f).s_plus(f(n - 1))
    }
}

/// `before` plus `f(0)` to `f(n - 1)`, for an `f` that computes `g`.
pub(crate) fn grow<T: Scalar, F: Fn(usize) -> T>(
    before: T,
    n: usize,
    f: F,
    Ghost(g): Ghost<spec_fn(int) -> T>,
) -> (r: T)
    requires
        forall|i: usize| i < n ==> call_requires(f, (i,)),
        forall|i: usize, v: T| i < n && #[trigger] call_ensures(f, (i,), v) ==> v == g(i as int),
    ensures
        r == grown(before, n as int, g),
{
    let mut acc = before;
    let mut i: usize = 0;
    while i < n
        invariant
            i <= n,
            acc == grown(before, i as int, g),
            forall|i: usize| i < n ==> call_requires(f, (i,)),
            forall|i: usize, v: T| i < n && #[trigger] call_ensures(f, (i,), v) ==> v == g(i as int),
        decreases n - i,
    {
        acc = acc.plus(f(i));
        i += 1;
    }
    acc
}

/// The sum of `f(0)` to `f(n - 1)` in lanes, for an `f` that computes `g`.
pub(crate) fn lanes_of<T: Scalar, F: Fn(usize) -> T>(
    n: usize,
    f: F,
    Ghost(g): Ghost<spec_fn(int) -> T>,
) -> (r: T)
    requires
        forall|i: usize| i < n ==> call_requires(f, (i,)),
        forall|i: usize, v: T| i < n && #[trigger] call_ensures(f, (i,), v) ==> v == g(i as int),
    ensures
        r == lanes(n as int, g),
{
    let mut p0: T = zero();
    let mut p1: T = zero();
    let mut p2: T = zero();
    let mut p3: T = zero();
    let mut p4: T = zero();
    let mut p5: T = zero();
    let mut p6: T = zero();
    let mut p7: T = zero();
    let mut b: usize = 0;
    while b < n / 8
        invariant
            b <= n / 8,
            p0 == sigma(b as int, lane(g, 0)),
            p1 == sigma(b as int, lane(g, 1)),
            p2 == sigma(b as int, lane(g, 2)),
            p3 == sigma(b as int, lane(g, 3)),
            p4 == sigma(b as int, lane(g, 4)),
            p5 == sigma(b as int, lane(g, 5)),
            p6 == sigma(b as int, lane(g, 6)),
            p7 == sigma(b as int, lane(g, 7)),
            forall|i: usize| i < n ==> call_requires(f, (i,)),
            forall|i: usize, v: T| i < n && #[trigger] call_ensures(f, (i,), v) ==> v == g(i as int),
        decreases n / 8 - b,
    {
        let i: usize = 8 * b;
        p0 = p0.plus(f(i));
        p1 = p1.plus(f(i + 1));
        p2 = p2.plus(f(i + 2));
        p3 = p3.plus(f(i + 3));
        p4 = p4.plus(f(i + 4));
        p5 = p5.plus(f(i + 5));
        p6 = p6.plus(f(i + 6));
        p7 = p7.plus(f(i + 7));
        b += 1;
    }
    let mut acc: T = zero();
    acc = acc.plus(p0.plus(p4));
    acc = acc.plus(p1.plus(p5));
    acc = acc.plus(p2.plus(p6));
    acc = acc.plus(p3.plus(p7));
    let start: usize = 8 * b;
    let mut i: usize = start;
    while i < n
        invariant
            start <= i <= n,
            acc == grown(paired_lanes(b as int, g), i - start, from_on(g, start as int)),
            forall|i: usize| i < n ==> call_requires(f, (i,)),
            forall|i: usize, v: T| i < n && #[trigger] call_ensures(f, (i,), v) ==> v == g(i as int),
        decreases n - i,
    {
        acc = acc.plus(f(i));
        i += 1;
    }
    acc
}

/// The sum of the entries of `v`.
pub fn sum<T: Scalar>(v: &Vec<T>) -> (r: T)
    ensures
        r == total(v@),
{
    let f = |i: usize| -> (x: T)
        requires
            i < v.len(),
        ensures
            x == v@[i as int],
    {
        v[i]
    };
    lanes_of(v.len(), f, Ghost(|i: int| v@[i]))
}

} // verus!
