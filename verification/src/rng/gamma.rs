//! Exponential, gamma, and Dirichlet draws.

use crate::matrix::Matrix;
use crate::rng::gauss::normal_draw;
use crate::rng::state::{ATTEMPTS, NumpyRandomState, RngView};
use crate::rng::uniform::sample_of;
use crate::scalar::{at_most, dec, le, negate, negative, num, one, sum, total, zero, Scalar};
use vstd::prelude::*;

verus! {

/// The unit exponential that a uniform number gives: `-ln(1 - u)`.
pub open spec fn exponential_of<T: Scalar>(u: T) -> T {
    negative(num::<T>(1).s_minus(u).s_ln())
}

/// The gamma variate of a shape below 1 that a uniform number `u` and an
/// exponential `v` give, if the pair is accepted.
pub open spec fn small_gamma<T: Scalar>(shape: T, u: T, v: T) -> Option<T> {
    let one_less = num::<T>(1).s_minus(shape);
    let power = num::<T>(1).s_over(shape);
    if at_most(u, one_less) {
        let x = u.s_pow(power);
        if at_most(x, v) {
            Some(x)
        } else {
            None
        }
    } else {
        let y = negative(num::<T>(1).s_minus(u).s_over(shape).s_ln());
        let x = one_less.s_plus(shape.s_times(y)).s_pow(power);
        if at_most(x, v.s_plus(y)) {
            Some(x)
        } else {
            None
        }
    }
}

/// The gamma variate of a shape below 1, if the pair is accepted.
pub fn small_gamma_step<T: Scalar>(shape: T, u: T, v: T) -> (r: Option<T>)
    ensures
        r == small_gamma(shape, u, v),
{
    let one_less = one::<T>().minus(shape);
    let power = one::<T>().over(shape);
    if le(u, one_less) {
        let x = u.pow(power);
        if le(x, v) {
            Some(x)
        } else {
            None
        }
    } else {
        let y = negate(one::<T>().minus(u).over(shape).ln());
        let x = one_less.plus(shape.times(y)).pow(power);
        if le(x, v.plus(y)) {
            Some(x)
        } else {
            None
        }
    }
}

/// `shape - 1/3`.
pub open spec fn gamma_offset<T: Scalar>(shape: T) -> T {
    shape.s_minus(num::<T>(1).s_over(num(3)))
}

/// `1 / sqrt(9 b)`.
pub open spec fn gamma_slope<T: Scalar>(b: T) -> T {
    num::<T>(1).s_over(num::<T>(9).s_times(b).s_sqrt())
}

/// The cube root of the candidate that a normal `x` proposes: `1 + c x`.
pub open spec fn gamma_root<T: Scalar>(c: T, x: T) -> T {
    num::<T>(1).s_plus(c.s_times(x))
}

/// The gamma variate that a normal `x` with a positive `1 + c x` and a uniform
/// number `u` give, if the pair passes the squeeze or the exact test.
pub open spec fn large_gamma<T: Scalar>(b: T, c: T, x: T, u: T) -> Option<T> {
    let r = gamma_root(c, x);
    let v = r.s_times(r).s_times(r);
    let x2 = x.s_times(x);
    if u.s_below(
        num::<T>(1).s_minus(dec::<T>(331, -4).s_times(x2).s_times(x2)),
    ) || u.s_ln().s_below(
        dec::<T>(5, -1).s_times(x).s_times(x).s_plus(
            b.s_times(num::<T>(1).s_minus(v).s_plus(v.s_ln())),
        ),
    ) {
        Some(b.s_times(v))
    } else {
        None
    }
}

/// The gamma variate that an accepted pair gives.
pub fn large_gamma_step<T: Scalar>(b: T, c: T, x: T, u: T) -> (r: Option<T>)
    ensures
        r == large_gamma(b, c, x, u),
{
    let q = one::<T>().plus(c.times(x));
    let v = q.times(q).times(q);
    let x2 = x.times(x);
    if u.below(one::<T>().minus(T::decimal(331, -4).times(x2).times(x2))) {
        return Some(b.times(v));
    }
    if u.ln().below(
        T::decimal(5, -1).times(x).times(x).plus(b.times(one::<T>().minus(v).plus(v.ln()))),
    ) {
        return Some(b.times(v));
    }
    None
}

/// The first accepted variate of a shape below 1 among at most `fuel` pairs.
pub open spec fn small_gamma_draw<T: Scalar>(s: RngView<T>, shape: T, fuel: nat) -> (
    RngView<T>,
    Option<T>,
)
    decreases fuel,
{
    if fuel == 0 {
        (s, None)
    } else {
        let rest = s.sampled().sampled();
        let u = sample_of::<T>(s.mt);
        let v = exponential_of(sample_of::<T>(s.sampled().mt));
        match small_gamma(shape, u, v) {
            Some(x) => (rest, Some(x)),
            None => small_gamma_draw(rest, shape, (fuel - 1) as nat),
        }
    }
}

/// The first accepted variate of a shape above 1 among at most `fuel` normals: a
/// normal whose `1 + c x` is not positive is passed over before a uniform number
/// is drawn for it.
pub open spec fn large_gamma_draw<T: Scalar>(s: RngView<T>, b: T, c: T, fuel: nat) -> (
    RngView<T>,
    Option<T>,
)
    decreases fuel,
{
    if fuel == 0 {
        (s, None)
    } else {
        match normal_draw(s) {
            (t, None) => (t, None),
            (t, Some(x)) => if num::<T>(0).s_below(gamma_root(c, x)) {
                match large_gamma(b, c, x, sample_of::<T>(t.mt)) {
                    Some(g) => (t.sampled(), Some(g)),
                    None => large_gamma_draw(t.sampled(), b, c, (fuel - 1) as nat),
                }
            } else {
                large_gamma_draw(t, b, c, (fuel - 1) as nat)
            },
        }
    }
}

/// One standard gamma variate and the state after it.
pub open spec fn gamma_draw<T: Scalar>(s: RngView<T>, shape: T) -> (RngView<T>, Option<T>) {
    if shape.s_same(num(1)) {
        (s.sampled(), Some(exponential_of(sample_of::<T>(s.mt))))
    } else if shape.s_same(num(0)) {
        (s, Some(num(0)))
    } else if shape.s_below(num(1)) {
        small_gamma_draw(s, shape, ATTEMPTS as nat)
    } else {
        let b = gamma_offset(shape);
        large_gamma_draw(s, b, gamma_slope(b), ATTEMPTS as nat)
    }
}

/// One standard gamma variate for each of the first `n` shapes.
pub open spec fn gamma_draws<T: Scalar>(s: RngView<T>, alpha: Seq<T>, n: int) -> (
    RngView<T>,
    Option<Seq<T>>,
)
    decreases n,
{
    if n <= 0 {
        (s, Some(Seq::empty()))
    } else {
        match gamma_draws(s, alpha, n - 1) {
            (t, None) => (t, None),
            (t, Some(v)) => match gamma_draw(t, alpha[n - 1]) {
                (w, None) => (w, None),
                (w, Some(x)) => (w, Some(v.push(x))),
            },
        }
    }
}

/// `v` times `1 / sum(v)`.
pub open spec fn scaled_to_one<T: Scalar>(v: Seq<T>) -> Seq<T> {
    Seq::new(v.len(), |i: int| v[i].s_times(num::<T>(1).s_over(total(v))))
}

/// One Dirichlet draw and the state after it.
pub open spec fn dirichlet_draw<T: Scalar>(s: RngView<T>, alpha: Seq<T>) -> (
    RngView<T>,
    Option<Seq<T>>,
) {
    match gamma_draws(s, alpha, alpha.len() as int) {
        (t, None) => (t, None),
        (t, Some(v)) => (t, Some(scaled_to_one(v))),
    }
}

/// `n` Dirichlet draws, one after the other.
pub open spec fn dirichlet_draws<T: Scalar>(s: RngView<T>, alpha: Seq<T>, n: int) -> (
    RngView<T>,
    Option<Seq<Seq<T>>>,
)
    decreases n,
{
    if n <= 0 {
        (s, Some(Seq::empty()))
    } else {
        match dirichlet_draws(s, alpha, n - 1) {
            (t, None) => (t, None),
            (t, Some(v)) => match dirichlet_draw(t, alpha) {
                (w, None) => (w, None),
                (w, Some(x)) => (w, Some(v.push(x))),
            },
        }
    }
}

proof fn dirichlets_stay_none<T: Scalar>(s: RngView<T>, alpha: Seq<T>, i: int, n: int)
    requires
        0 <= i <= n,
        dirichlet_draws(s, alpha, i).1 is None,
    ensures
        dirichlet_draws(s, alpha, n).1 is None,
    decreases n,
{
    if n > i {
        dirichlets_stay_none(s, alpha, i, n - 1);
    }
}

proof fn gammas_stay_none<T: Scalar>(s: RngView<T>, alpha: Seq<T>, i: int, n: int)
    requires
        0 <= i <= n,
        gamma_draws(s, alpha, i).1 is None,
    ensures
        gamma_draws(s, alpha, n).1 is None,
        gamma_draws(s, alpha, n).0 == gamma_draws(s, alpha, i).0,
    decreases n,
{
    if n > i {
        gammas_stay_none(s, alpha, i, n - 1);
    }
}

impl<T: Scalar> NumpyRandomState<T> {
    /// A draw from the unit-rate exponential: `-ln(1 - U)`.
    pub fn standard_exponential(&mut self) -> (x: T)
        requires
            old(self).wf(),
        ensures
            final(self).wf(),
            final(self)@ == old(self)@.sampled(),
            x == exponential_of(sample_of::<T>(old(self)@.mt)),
    {
        negate(one::<T>().minus(self.random_sample()).ln())
    }

    /// A standard gamma draw: the squeeze of a normal and a uniform number for
    /// shapes above 1, exponential-boosted rejection below 1; shape 1 is an
    /// exponential and shape 0 is 0. `None` if [`ATTEMPTS`] candidates in a row
    /// are rejected.
    pub fn standard_gamma(&mut self, shape: T) -> (r: Option<T>)
        requires
            old(self).wf(),
        ensures
            final(self).wf(),
            (final(self)@, r) == gamma_draw(old(self)@, shape),
    {
        if shape.same(one()) {
            return Some(self.standard_exponential());
        }
        if shape.same(zero()) {
            return Some(zero());
        }
        let ghost start = self@;
        let mut tries: u64 = 0;
        if shape.below(one()) {
            while tries < ATTEMPTS
                invariant
                    tries <= ATTEMPTS,
                    self.wf(),
                    start == old(self)@,
                    small_gamma_draw(start, shape, ATTEMPTS as nat) == gamma_draw(start, shape),
                    small_gamma_draw(self@, shape, (ATTEMPTS - tries) as nat) == small_gamma_draw(
                        start,
                        shape,
                        ATTEMPTS as nat,
                    ),
                decreases ATTEMPTS - tries,
            {
                let u = self.random_sample();
                let v = self.standard_exponential();
                if let Some(x) = small_gamma_step(shape, u, v) {
                    return Some(x);
                }
                tries += 1;
            }
            return None;
        }
        let b = shape.minus(one::<T>().over(T::of_int(3)));
        let c = one::<T>().over(T::of_int(9).times(b).sqrt());
        while tries < ATTEMPTS
            invariant
                tries <= ATTEMPTS,
                self.wf(),
                start == old(self)@,
                large_gamma_draw(start, b, c, ATTEMPTS as nat) == gamma_draw(start, shape),
                large_gamma_draw(self@, b, c, (ATTEMPTS - tries) as nat) == large_gamma_draw(
                    start,
                    b,
                    c,
                    ATTEMPTS as nat,
                ),
            decreases ATTEMPTS - tries,
        {
            let x = match self.standard_normal() {
                Some(x) => x,
                None => {
                    return None;
                },
            };
            if zero::<T>().below(one::<T>().plus(c.times(x))) {
                let u = self.random_sample();
                if let Some(g) = large_gamma_step(b, c, x, u) {
                    return Some(g);
                }
            }
            tries += 1;
        }
        None
    }

    /// `scale * standard_gamma(shape)`.
    pub fn gamma(&mut self, shape: T, scale: T) -> (r: Option<T>)
        requires
            old(self).wf(),
        ensures
            final(self).wf(),
            final(self)@ == gamma_draw(old(self)@, shape).0,
            r == match gamma_draw(old(self)@, shape).1 {
                Some(g) => Some(scale.s_times(g)),
                None => None,
            },
    {
        match self.standard_gamma(shape) {
            Some(g) => Some(scale.times(g)),
            None => None,
        }
    }

    /// A single Dirichlet draw: one gamma variate per component, scaled by the
    /// reciprocal of their sum.
    pub fn dirichlet(&mut self, alpha: &Vec<T>) -> (r: Option<Vec<T>>)
        requires
            old(self).wf(),
        ensures
            final(self).wf(),
            final(self)@ == dirichlet_draw(old(self)@, alpha@).0,
            match r {
                Some(v) => dirichlet_draw(old(self)@, alpha@).1 == Some(v@) && v.len() == alpha.len(),
                None => dirichlet_draw(old(self)@, alpha@).1 is None,
            },
    {
        let ghost start = self@;
        let n: usize = alpha.len();
        let mut v: Vec<T> = Vec::new();
        let mut i: usize = 0;
        while i < n
            invariant
                i <= n,
                n == alpha.len(),
                self.wf(),
                start == old(self)@,
                v.len() == i,
                gamma_draws(start, alpha@, i as int) == (self@, Some(v@)),
            decreases n - i,
        {
            match self.standard_gamma(alpha[i]) {
                Some(x) => {
                    v.push(x);
                },
                None => {
                    proof {
                        gammas_stay_none(start, alpha@, i as int + 1, n as int);
                    }
                    return None;
                },
            }
            i += 1;
        }
        let inv = one::<T>().over(sum(&v));
        let f = |i: usize| -> (x: T)
            requires
                i < v.len(),
            ensures
                x == v@[i as int].s_times(inv),
        {
            v[i].times(inv)
        };
        let r = crate::matrix::tabulate(n, f);
        proof {
            assert(r@ =~= scaled_to_one(v@));
        }
        Some(r)
    }

    /// A matrix of `n` rows, each a Dirichlet draw.
    pub fn dirichlet_rows(&mut self, alpha: &Vec<T>, n: usize) -> (r: Option<Matrix<T>>)
        requires
            old(self).wf(),
        ensures
            final(self).wf(),
            match r {
                Some(m) => dirichlet_draws(old(self)@, alpha@, n as int) == (
                    final(self)@,
                    Some(m@),
                ) && m.has_dims(n as int, alpha.len() as int),
                None => dirichlet_draws(old(self)@, alpha@, n as int).1 is None,
            },
    {
        let ghost start = self@;
        let mut rows: Vec<Vec<T>> = Vec::new();
        let ghost mut seen: Seq<Seq<T>> = Seq::empty();
        let mut i: usize = 0;
        while i < n
            invariant
                i <= n,
                self.wf(),
                start == old(self)@,
                rows.len() == i,
                seen.len() == i,
                forall|k: int|
                    0 <= k < i ==> (#[trigger] rows@[k])@ == seen[k] && rows@[k].len() == alpha.len(),
                dirichlet_draws(start, alpha@, i as int) == (self@, Some(seen)),
            decreases n - i,
        {
            match self.dirichlet(alpha) {
                Some(row) => {
                    proof {
                        seen = seen.push(row@);
                    }
                    rows.push(row);
                },
                None => {
                    proof {
                        dirichlets_stay_none(start, alpha@, i as int + 1, n as int);
                    }
                    return None;
                },
            }
            i += 1;
        }
        let m = Matrix { rows, ncols: alpha.len() };
        proof {
            assert(m@ =~= seen);
        }
        Some(m)
    }
}

/// The order goes with the arithmetic, as it does of numbers that do not round:
/// what follows of signs for sums, differences, products, quotients, powers and
/// logarithms.
#[verifier::opaque]
pub open spec fn ordered_arithmetic<T: Scalar>() -> bool {
    let zero = num::<T>(0);
    let one = num::<T>(1);
    &&& forall|k: int| k > 0 ==> zero.s_below(#[trigger] num::<T>(k))
    &&& !zero.s_below(zero)
    &&& one.s_over(num(3)).s_below(one)
    &&& forall|a: T, b: T| #[trigger] a.s_below(b) ==> !b.s_below(a)
    &&& forall|a: T, b: T, c: T|
        #![trigger a.s_below(b), c.s_below(b)]
        !a.s_below(b) && c.s_below(b) ==> !a.s_below(c)
    &&& forall|a: T| #![trigger a.s_same(zero)] !a.s_below(zero) && !a.s_same(zero) ==> zero.s_below(a)
    &&& forall|a: T, b: T|
        !a.s_below(zero) && !b.s_below(zero) ==> !(#[trigger] a.s_plus(b)).s_below(zero)
    &&& forall|a: T, b: T|
        !a.s_below(zero) && !b.s_below(zero) ==> !(#[trigger] a.s_times(b)).s_below(zero)
    &&& forall|a: T, b: T|
        !a.s_below(zero) && zero.s_below(b) ==> !(#[trigger] a.s_over(b)).s_below(zero)
    &&& forall|a: T, e: T| !a.s_below(zero) ==> !(#[trigger] a.s_pow(e)).s_below(zero)
    &&& forall|a: T, b: T| !a.s_below(b) ==> !(#[trigger] a.s_minus(b)).s_below(zero)
    &&& forall|a: T, b: T| !b.s_below(zero) ==> !a.s_below(#[trigger] a.s_minus(b))
    &&& forall|a: T, b: T, u: T|
        #![trigger a.s_minus(b), a.s_minus(u)]
        !u.s_below(a.s_minus(b)) ==> !b.s_below(a.s_minus(u))
    &&& forall|a: T, b: T|
        zero.s_below(b) && !b.s_below(a) ==> !one.s_below(#[trigger] a.s_over(b))
    &&& forall|a: T| !zero.s_below(a) ==> !(#[trigger] a.s_times(num(-1))).s_below(zero)
    &&& forall|a: T| !one.s_below(a) ==> !zero.s_below(#[trigger] a.s_ln())
}

proof fn sample_not_negative<T: Scalar>(mt: crate::rng::mt19937::MtView)
    requires
        ordered_arithmetic::<T>(),
    ensures
        !sample_of::<T>(mt).s_below(num(0)),
{
    reveal(ordered_arithmetic);
    let a = (mt.next() >> 5u32) as int;
    let b = (mt.after().next() >> 6u32) as int;
    let zero = num::<T>(0);
    assert(!num::<T>(a).s_below(zero)) by {
        if a > 0 {
            assert(zero.s_below(num::<T>(a)));
        }
    }
    assert(!num::<T>(b).s_below(zero)) by {
        if b > 0 {
            assert(zero.s_below(num::<T>(b)));
        }
    }
    assert(zero.s_below(num::<T>(67108864)));
    assert(zero.s_below(num::<T>(9007199254740992)));
}

proof fn exponential_not_negative<T: Scalar>(u: T)
    requires
        ordered_arithmetic::<T>(),
        !u.s_below(num(0)),
    ensures
        !exponential_of(u).s_below(num(0)),
{
    reveal(ordered_arithmetic);
    let rest = num::<T>(1).s_minus(u);
    assert(!num::<T>(1).s_below(rest));
    assert(!num::<T>(0).s_below(rest.s_ln()));
}

proof fn small_gamma_not_negative<T: Scalar>(shape: T, u: T, v: T)
    requires
        ordered_arithmetic::<T>(),
        num::<T>(0).s_below(shape),
        shape.s_below(num(1)),
        !u.s_below(num(0)),
    ensures
        small_gamma(shape, u, v) matches Some(x) ==> !x.s_below(num(0)),
{
    reveal(ordered_arithmetic);
    let zero = num::<T>(0);
    let one = num::<T>(1);
    let one_less = one.s_minus(shape);
    assert(!one.s_below(shape));
    assert(!one_less.s_below(zero));
    if !at_most(u, one_less) {
        let rest = one.s_minus(u);
        assert(!shape.s_below(rest));
        let q = rest.s_over(shape);
        assert(!one.s_below(q));
        assert(!zero.s_below(q.s_ln()));
        let y = negative(q.s_ln());
        assert(!y.s_below(zero));
        assert(!shape.s_below(zero));
        assert(!shape.s_times(y).s_below(zero));
        assert(!one_less.s_plus(shape.s_times(y)).s_below(zero));
    }
}

proof fn small_draw_not_negative<T: Scalar>(s: RngView<T>, shape: T, fuel: nat)
    requires
        ordered_arithmetic::<T>(),
        num::<T>(0).s_below(shape),
        shape.s_below(num(1)),
    ensures
        small_gamma_draw(s, shape, fuel).1 matches Some(x) ==> !x.s_below(num(0)),
    decreases fuel,
{
    if fuel > 0 {
        let u = sample_of::<T>(s.mt);
        sample_not_negative::<T>(s.mt);
        small_gamma_not_negative(
            shape,
            u,
            exponential_of(sample_of::<T>(s.sampled().mt)),
        );
        small_draw_not_negative(s.sampled().sampled(), shape, (fuel - 1) as nat);
    }
}

proof fn large_draw_not_negative<T: Scalar>(s: RngView<T>, b: T, c: T, fuel: nat)
    requires
        ordered_arithmetic::<T>(),
        !b.s_below(num(0)),
    ensures
        large_gamma_draw(s, b, c, fuel).1 matches Some(x) ==> !x.s_below(num(0)),
    decreases fuel,
{
    if fuel > 0 {
        match normal_draw(s) {
            (t, None) => {},
            (t, Some(x)) => {
                let r = gamma_root(c, x);
                if num::<T>(0).s_below(r) {
                    reveal(ordered_arithmetic);
                    assert(!r.s_below(num(0)));
                    assert(!r.s_times(r).s_below(num(0)));
                    assert(!r.s_times(r).s_times(r).s_below(num(0)));
                    assert(!b.s_times(r.s_times(r).s_times(r)).s_below(num(0)));
                }
                large_draw_not_negative(t.sampled(), b, c, (fuel - 1) as nat);
                large_draw_not_negative(t, b, c, (fuel - 1) as nat);
            },
        }
    }
}

/// A gamma variate is never negative, nor is it times a scale that is not negative,
/// wherever the shape is not negative and the order goes with the arithmetic.
pub proof fn gamma_draw_not_negative<T: Scalar>(s: RngView<T>, shape: T, scale: T)
    requires
        ordered_arithmetic::<T>(),
        !shape.s_below(num(0)),
        !scale.s_below(num(0)),
    ensures
        gamma_draw(s, shape).1 matches Some(g) ==> !g.s_below(num(0)) && !scale.s_times(g).s_below(
            num(0),
        ),
{
    let zero = num::<T>(0);
    let one = num::<T>(1);
    if shape.s_same(one) {
        sample_not_negative::<T>(s.mt);
        exponential_not_negative(sample_of::<T>(s.mt));
    } else if shape.s_same(zero) {
    } else if shape.s_below(one) {
        assert(zero.s_below(shape)) by {
            reveal(ordered_arithmetic);
        }
        small_draw_not_negative(s, shape, ATTEMPTS as nat);
    } else {
        let third = one.s_over(num(3));
        let b = gamma_offset(shape);
        assert(!b.s_below(zero)) by {
            reveal(ordered_arithmetic);
            assert(!shape.s_below(third));
        }
        large_draw_not_negative(s, b, gamma_slope(b), ATTEMPTS as nat);
    }
    reveal(ordered_arithmetic);
}

} // verus!
