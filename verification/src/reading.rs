//! Numbers read as reals, operation by operation.

use crate::reals::{rsum, rsum_ext};
use crate::scalar::{dec, from_on, grown, lane, lanes, num, paired_lanes, sigma, Scalar};
use vstd::prelude::*;

verus! {

/// `10^k`.
pub open spec fn power_of_ten(k: nat) -> real
    decreases k,
{
    if k == 0 {
        1real
    } else {
        10real * power_of_ten((k - 1) as nat)
    }
}

/// `rd` reads every number as a real: the constants as what they say, the
/// operations as those of the reals, and comparisons as those of the reals.
#[verifier::opaque]
pub open spec fn reads_real<T: Scalar>(rd: spec_fn(T) -> real) -> bool {
    &&& forall|k: int| rd(#[trigger] num::<T>(k)) == k as real
    &&& forall|m: int, e: int|
        e <= 0 ==> rd(#[trigger] dec::<T>(m, e)) * power_of_ten((-e) as nat) == m as real
    &&& forall|a: T, b: T| rd(#[trigger] a.s_plus(b)) == rd(a) + rd(b)
    &&& forall|a: T, b: T| rd(#[trigger] a.s_minus(b)) == rd(a) - rd(b)
    &&& forall|a: T, b: T| rd(#[trigger] a.s_times(b)) == rd(a) * rd(b)
    &&& forall|a: T, d: T| rd(d) != 0real ==> rd(#[trigger] a.s_over(d)) * rd(d) == rd(a)
    &&& forall|a: T, b: T| #[trigger] a.s_below(b) <==> rd(a) < rd(b)
    &&& forall|a: T, b: T| #[trigger] a.s_same(b) <==> rd(a) == rd(b)
}

/// `rd` reads zero as zero and sums as sums.
#[verifier::opaque]
pub open spec fn reads_sums<T: Scalar>(rd: spec_fn(T) -> real) -> bool {
    &&& rd(num::<T>(0)) == 0real
    &&& forall|a: T, b: T| rd(#[trigger] a.s_plus(b)) == rd(a) + rd(b)
}

/// What reads every operation reads sums.
pub proof fn real_sums<T: Scalar>(rd: spec_fn(T) -> real)
    requires
        reads_real(rd),
    ensures
        reads_sums(rd),
{
    reveal(reads_real);
    reveal(reads_sums);
    assert(rd(num::<T>(0)) == 0real);
}

/// A half and its negative, read.
pub proof fn halves<T: Scalar>(rd: spec_fn(T) -> real)
    requires
        reads_real(rd),
    ensures
        2real * rd(dec::<T>(5, -1)) == 1real,
        2real * rd(dec::<T>(-5, -1)) == -1real,
{
    reveal(reads_real);
    reveal_with_fuel(power_of_ten, 2);
    assert(power_of_ten(1) == 10real);
    assert(rd(dec::<T>(5, -1)) * power_of_ten(1) == 5real);
    assert(rd(dec::<T>(-5, -1)) * power_of_ten(1) == -5real);
}

/// A sum from the left is read as a sum.
pub proof fn real_sigma<T: Scalar>(
    rd: spec_fn(T) -> real,
    n: int,
    f: spec_fn(int) -> T,
)
    requires
        reads_sums(rd),
    ensures
        rd(sigma(n, f)) == rsum(n, |i: int| rd(f(i))),
    decreases n,
{
    reveal(reads_sums);
    if n > 0 {
        real_sigma(rd, n - 1, f);
    }
}

/// A sum grown from a number is read as the number plus the sum.
pub proof fn real_grown<T: Scalar>(
    rd: spec_fn(T) -> real,
    before: T,
    n: int,
    f: spec_fn(int) -> T,
)
    requires
        reads_sums(rd),
    ensures
        rd(grown(before, n, f)) == rd(before) + rsum(n, |i: int| rd(f(i))),
    decreases n,
{
    reveal(reads_sums);
    if n > 0 {
        real_grown(rd, before, n - 1, f);
    }
}

/// Blocks of eight can be summed lane by lane.
pub proof fn blocks_by_lane(b: int, g: spec_fn(int) -> real)
    requires
        0 <= b,
    ensures
        rsum(8 * b, g) == rsum(b, |i: int| g(8 * i)) + rsum(b, |i: int| g(8 * i + 1)) + rsum(
            b,
            |i: int| g(8 * i + 2),
        ) + rsum(b, |i: int| g(8 * i + 3)) + rsum(b, |i: int| g(8 * i + 4)) + rsum(
            b,
            |i: int| g(8 * i + 5),
        ) + rsum(b, |i: int| g(8 * i + 6)) + rsum(b, |i: int| g(8 * i + 7)),
    decreases b,
{
    if b > 0 {
        blocks_by_lane(b - 1, g);
        let k = 8 * (b - 1);
        assert(rsum(k + 8, g) == rsum(k + 7, g) + g(k + 7));
        assert(rsum(k + 7, g) == rsum(k + 6, g) + g(k + 6));
        assert(rsum(k + 6, g) == rsum(k + 5, g) + g(k + 5));
        assert(rsum(k + 5, g) == rsum(k + 4, g) + g(k + 4));
        assert(rsum(k + 4, g) == rsum(k + 3, g) + g(k + 3));
        assert(rsum(k + 3, g) == rsum(k + 2, g) + g(k + 2));
        assert(rsum(k + 2, g) == rsum(k + 1, g) + g(k + 1));
        assert(rsum(k + 1, g) == rsum(k, g) + g(k));
    }
}

/// The last terms of a sum can be summed apart.
pub proof fn sum_behind(n: int, m: int, g: spec_fn(int) -> real)
    requires
        0 <= n,
        0 <= m,
    ensures
        rsum(n + m, g) == rsum(n, g) + rsum(m, |i: int| g(n + i)),
    decreases m,
{
    if m > 0 {
        sum_behind(n, m - 1, g);
    }
}

proof fn real_lane<T: Scalar>(
    rd: spec_fn(T) -> real,
    b: int,
    f: spec_fn(int) -> T,
    k: int,
    h: spec_fn(int) -> real,
)
    requires
        reads_sums(rd),
        forall|i: int| #[trigger] h(i) == rd(f(8 * i + k)),
    ensures
        rd(sigma(b, lane(f, k))) == rsum(b, h),
{
    let g = lane(f, k);
    real_sigma(rd, b, g);
    rsum_ext(b, |i: int| rd(g(i)), h);
}

/// A sum in lanes is read as a sum.
pub proof fn real_lanes<T: Scalar>(
    rd: spec_fn(T) -> real,
    n: int,
    f: spec_fn(int) -> T,
)
    requires
        reads_sums(rd),
        0 <= n,
    ensures
        rd(lanes(n, f)) == rsum(n, |i: int| rd(f(i))),
{
    let b = n / 8;
    let g = |i: int| rd(f(i));
    let rest = from_on(f, 8 * b);
    blocks_by_lane(b, g);
    real_lane(rd, b, f, 0, |i: int| g(8 * i));
    real_lane(rd, b, f, 1, |i: int| g(8 * i + 1));
    real_lane(rd, b, f, 2, |i: int| g(8 * i + 2));
    real_lane(rd, b, f, 3, |i: int| g(8 * i + 3));
    real_lane(rd, b, f, 4, |i: int| g(8 * i + 4));
    real_lane(rd, b, f, 5, |i: int| g(8 * i + 5));
    real_lane(rd, b, f, 6, |i: int| g(8 * i + 6));
    real_lane(rd, b, f, 7, |i: int| g(8 * i + 7));
    real_grown(rd, paired_lanes(b, f), n % 8, rest);
    assert(rd(paired_lanes(b, f)) == rsum(8 * b, g)) by {
        reveal(reads_sums);
        let p = |k: int| sigma(b, lane(f, k));
        let zero = num::<T>(0);
        assert(rd(zero) == 0real);
        let s0 = zero.s_plus(p(0).s_plus(p(4)));
        let s1 = s0.s_plus(p(1).s_plus(p(5)));
        let s2 = s1.s_plus(p(2).s_plus(p(6)));
        assert(rd(s0) == rd(p(0)) + rd(p(4)));
        assert(rd(s1) == rd(s0) + rd(p(1)) + rd(p(5)));
        assert(rd(s2) == rd(s1) + rd(p(2)) + rd(p(6)));
        assert(paired_lanes(b, f) == s2.s_plus(p(3).s_plus(p(7))));
    }
    sum_behind(8 * b, n % 8, g);
    rsum_ext(n % 8, |i: int| rd(rest(i)), |i: int| g(8 * b + i));
}

} // verus!
