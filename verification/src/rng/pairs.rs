//! What normal and Poisson draws make of uniform numbers, where arithmetic is exact.

use crate::reading::reads_real;
use crate::reals::{associates, commutes, distributes};
use crate::rng::discrete::product_draw;
use crate::rng::gauss::{normal_draw, polar_draw, polar_pair};
use crate::rng::state::{RngView, ATTEMPTS};
use crate::rng::uniform::sample_of;
use crate::scalar::{num, Scalar};
use vstd::prelude::*;

verus! {

/// The point of the square from -1 to 1 that a uniform number stands for.
pub open spec fn stretched(u: real) -> real {
    2real * u - 1real
}

/// Two uniform numbers stand for a point of the square; where it lies inside the unit
/// disk and off its centre, at the squared distance `r` from it, they give two normals in
/// the direction of the point, the squared length of which is `-2 ln(r)`. Other points
/// give none.
pub proof fn normals_of_a_pair<T: Scalar>(
    rd: spec_fn(T) -> real,
    ln: spec_fn(real) -> real,
    u1: T,
    u2: T,
)
    requires
        reads_real(rd),
        forall|a: T| rd(a) > 0real ==> rd(#[trigger] a.s_ln()) == ln(rd(a)),
        forall|a: T|
            rd(a) >= 0real ==> rd(#[trigger] a.s_sqrt()) * rd(a.s_sqrt()) == rd(a),
        forall|x: real| 0real < x < 1real ==> #[trigger] ln(x) < 0real,
    ensures
        ({
            let (x1, x2) = (stretched(rd(u1)), stretched(rd(u2)));
            let r = x1 * x1 + x2 * x2;
            match polar_pair(u1, u2) {
                Some((a, b)) => {
                    &&& 0real < r < 1real
                    &&& rd(a) * rd(a) + rd(b) * rd(b) == -2real * ln(r)
                    &&& rd(a) * x1 == rd(b) * x2
                },
                None => r == 0real || r >= 1real,
            }
        }),
{
    let (x1, x2) = (stretched(rd(u1)), stretched(rd(u2)));
    let c1 = num::<T>(2).s_times(u1).s_minus(num(1));
    let c2 = num::<T>(2).s_times(u2).s_minus(num(1));
    let r2 = c1.s_times(c1).s_plus(c2.s_times(c2));
    let r = x1 * x1 + x2 * x2;
    assert(x1 * x1 >= 0real) by (nonlinear_arith);
    assert(x2 * x2 >= 0real) by (nonlinear_arith);
    assert(rd(r2) == r && rd(c1) == x1 && rd(c2) == x2 && rd(num::<T>(1)) == 1real && rd(
        num::<T>(0),
    ) == 0real && rd(num::<T>(-2)) == -2real) by {
        reveal(reads_real);
        assert(rd(num::<T>(2)) == 2real);
    }
    assert((r2.s_below(num(1)) && !r2.s_same(num(0))) <==> r < 1real && r != 0real) by {
        reveal(reads_real);
    }
    if r < 1real && r != 0real {
        let whole = num::<T>(-2).s_times(r2.s_ln());
        let inner = whole.s_over(r2);
        let f = inner.s_sqrt();
        let (g, q, w) = (rd(f), rd(inner), -2real * ln(r));
        assert(rd(r2.s_ln()) == ln(r));
        assert(q * r == w) by {
            reveal(reads_real);
        }
        assert(ln(r) < 0real);
        assert(q >= 0real) by (nonlinear_arith)
            requires
                q * r == w,
                w > 0real,
                r > 0real,
        ;
        assert(g * g == q);
        let (a, b) = (f.s_times(c2), f.s_times(c1));
        assert(polar_pair(u1, u2) == Some((a, b)));
        assert(rd(a) == g * x2 && rd(b) == g * x1) by {
            reveal(reads_real);
        }
        squared_product(g, x1);
        squared_product(g, x2);
        distributes(g * g, x1 * x1, x2 * x2);
        assert(rd(a) * rd(a) + rd(b) * rd(b) == w);
        associates(g, x2, x1);
        associates(g, x1, x2);
        commutes(x1, x2);
    }
}

proof fn squared_product(a: real, b: real)
    ensures
        (a * b) * (a * b) == (a * a) * (b * b),
{
    associates(a * b, a, b);
    associates(a, b, a);
    commutes(b, a);
    associates(a, a, b);
    associates(a * a, b, b);
}

/// The second normal of a pair is kept for the next draw, which takes it without touching
/// the generator.
pub proof fn second_normal_is_kept<T: Scalar>(s: RngView<T>)
    requires
        s.gauss is None,
        normal_draw(s).1 is Some,
    ensures
        ({
            let pair = polar_draw(s, ATTEMPTS as nat);
            let next = normal_draw(normal_draw(s).0);
            &&& pair.1 matches Some((a, b)) && normal_draw(s).1 == Some(a) && next.1 == Some(b)
            &&& next.0.mt == normal_draw(s).0.mt
            &&& normal_draw(s).0.mt == pair.0.mt
            &&& next.0.gauss is None
        }),
{
}

/// The product of the next `n` uniform numbers.
pub open spec fn product_of_next<T: Scalar>(rd: spec_fn(T) -> real, s: RngView<T>, n: int) -> real
    decreases n,
{
    if n <= 0 {
        1real
    } else {
        rd(sample_of::<T>(s.mt)) * product_of_next(rd, s.sampled(), n - 1)
    }
}

proof fn product_reads<T: Scalar>(
    rd: spec_fn(T) -> real,
    s: RngView<T>,
    prod: T,
    limit: T,
    x: i64,
    fuel: nat,
)
    requires
        reads_real(rd),
        product_draw(s, prod, limit, x, fuel).1 is Some,
        x + fuel <= i64::MAX,
    ensures
        ({
            let n = product_draw(s, prod, limit, x, fuel).1->0 - x;
            &&& n >= 0
            &&& rd(prod) * product_of_next(rd, s, n + 1) <= rd(limit)
            &&& n > 0 ==> rd(prod) * product_of_next(rd, s, n) > rd(limit)
            &&& product_draw(s, prod, limit, x, fuel).0 == s.sampled_n(n + 1)
        }),
    decreases fuel,
{
    let u = sample_of::<T>(s.mt);
    let p = prod.s_times(u);
    assert(rd(p) == rd(prod) * rd(u)) by {
        reveal(reads_real);
    }
    assert(limit.s_below(p) <==> rd(limit) < rd(p)) by {
        reveal(reads_real);
    }
    reveal_with_fuel(product_of_next, 2);
    reveal_with_fuel(RngView::sampled_n, 2);
    assert(rd(u) * 1real == rd(u));
    if limit.s_below(p) {
        let y = (x + 1) as i64;
        product_reads(rd, s.sampled(), p, limit, y, (fuel - 1) as nat);
        let n = product_draw(s, prod, limit, x, fuel).1->0 - x;
        associates(rd(prod), rd(u), product_of_next(rd, s.sampled(), n));
        associates(rd(prod), rd(u), product_of_next(rd, s.sampled(), n - 1));
        assert(n >= 1);
        assert(rd(p) * 1real == rd(p));
        sampled_after(s, n);
    }
}

proof fn sampled_after<T: Scalar>(s: RngView<T>, n: int)
    requires
        n >= 0,
    ensures
        s.sampled().sampled_n(n) == s.sampled_n(n + 1),
    decreases n,
{
    if n > 0 {
        sampled_after(s, n - 1);
    } else {
        assert(s.sampled_n(0) == s);
        assert(s.sampled().sampled_n(0) == s.sampled());
    }
}

/// A Poisson draw by multiplication counts the uniform numbers that keep their running
/// product above the limit: one more brings it down to the limit or below, and the random
/// state is the one after that number.
pub proof fn product_draw_counts_factors<T: Scalar>(
    rd: spec_fn(T) -> real,
    s: RngView<T>,
    limit: T,
    fuel: nat,
)
    requires
        reads_real(rd),
        product_draw(s, num(1), limit, 0, fuel).1 is Some,
        fuel <= i64::MAX,
    ensures
        ({
            let n = product_draw(s, num(1), limit, 0, fuel).1->0 as int;
            &&& n >= 0
            &&& product_of_next(rd, s, n + 1) <= rd(limit)
            &&& n > 0 ==> product_of_next(rd, s, n) > rd(limit)
            &&& product_draw(s, num(1), limit, 0, fuel).0 == s.sampled_n(n + 1)
        }),
{
    product_reads(rd, s, num(1), limit, 0, fuel);
    assert(rd(num::<T>(1)) == 1real) by {
        reveal(reads_real);
    }
    let n = product_draw(s, num(1), limit, 0, fuel).1->0 as int;
    assert(1real * product_of_next(rd, s, n + 1) == product_of_next(rd, s, n + 1));
    assert(1real * product_of_next(rd, s, n) == product_of_next(rd, s, n));
}

} // verus!
