//! Sums and products over numbers that do not round.
//!
//! Laws that rounding would break are stated over a set of numbers of which these
//! facts hold.

use crate::scalar::{
    dec, from_on, grown, lane, lanes, num, paired_lanes, sigma, sigma_ext, Scalar,
};
use vstd::prelude::*;

verus! {

/// The numbers of `p` add and multiply without rounding, and all but zero have an
/// inverse: the finite numbers of a type that does not round, or those of them that
/// are not negative.
#[verifier::opaque]
pub open spec fn exact_numbers<T: Scalar>(p: Set<T>) -> bool {
    let zero = num::<T>(0);
    let one = num::<T>(1);
    &&& p.contains(zero) && p.contains(one) && zero != one
    &&& forall|a: T, b: T| p.contains(a) && p.contains(b) ==> p.contains(#[trigger] a.s_plus(b))
    &&& forall|a: T, b: T| p.contains(a) && p.contains(b) ==> p.contains(#[trigger] a.s_times(b))
    &&& forall|a: T| #![trigger zero.s_plus(a)] p.contains(a) ==> zero.s_plus(a) == a
    &&& forall|a: T, b: T| p.contains(a) && p.contains(b) ==> #[trigger] a.s_plus(b) == b.s_plus(a)
    &&& forall|a: T, b: T, c: T|
        p.contains(a) && p.contains(b) && p.contains(c) ==> #[trigger] a.s_plus(b).s_plus(c)
            == a.s_plus(b.s_plus(c))
    &&& forall|a: T| #![trigger zero.s_times(a)] p.contains(a) ==> zero.s_times(a) == zero
    &&& forall|a: T| #![trigger a.s_times(one)] p.contains(a) ==> a.s_times(one) == a
    &&& forall|a: T, b: T| p.contains(a) && p.contains(b) ==> #[trigger] a.s_times(b) == b.s_times(a)
    &&& forall|a: T, b: T, c: T|
        p.contains(a) && p.contains(b) && p.contains(c) ==> #[trigger] a.s_times(b).s_times(c)
            == a.s_times(b.s_times(c))
    &&& forall|a: T, b: T, c: T|
        p.contains(a) && p.contains(b) && p.contains(c) ==> #[trigger] a.s_plus(b).s_times(c)
            == a.s_times(c).s_plus(b.s_times(c))
    &&& forall|d: T| #![trigger one.s_over(d)]
        p.contains(d) && d != zero ==> p.contains(one.s_over(d)) && one.s_over(d).s_times(d) == one
    &&& zero.s_below(dec(1, -300))
}

/// Zero and one are among the numbers and differ.
pub proof fn constants<T: Scalar>(p: Set<T>)
    requires
        exact_numbers(p),
    ensures
        p.contains(num(0)),
        p.contains(num(1)),
        num::<T>(0) != num::<T>(1),
        num::<T>(0).s_below(dec(1, -300)),
{
    reveal(exact_numbers);
}

/// Sums are among the numbers and do not depend on the order of the terms.
pub proof fn added<T: Scalar>(p: Set<T>, a: T, b: T)
    requires
        exact_numbers(p),
        p.contains(a),
        p.contains(b),
    ensures
        p.contains(a.s_plus(b)),
        a.s_plus(b) == b.s_plus(a),
        num::<T>(0).s_plus(a) == a,
{
    reveal(exact_numbers);
}

/// Products are among the numbers and do not depend on the order of the factors.
pub proof fn multiplied<T: Scalar>(p: Set<T>, a: T, b: T)
    requires
        exact_numbers(p),
        p.contains(a),
        p.contains(b),
    ensures
        p.contains(a.s_times(b)),
        a.s_times(b) == b.s_times(a),
        num::<T>(0).s_times(a) == num::<T>(0),
        a.s_times(num(1)) == a,
{
    reveal(exact_numbers);
}

/// Products can be regrouped.
pub proof fn regrouped<T: Scalar>(p: Set<T>, a: T, b: T, c: T)
    requires
        exact_numbers(p),
        p.contains(a),
        p.contains(b),
        p.contains(c),
    ensures
        p.contains(a.s_times(b)),
        p.contains(b.s_times(c)),
        p.contains(a.s_times(b).s_times(c)),
        a.s_times(b).s_times(c) == a.s_times(b.s_times(c)),
{
    reveal(exact_numbers);
}

/// A factor distributes over a sum.
pub proof fn distributed<T: Scalar>(p: Set<T>, a: T, b: T, c: T)
    requires
        exact_numbers(p),
        p.contains(a),
        p.contains(b),
        p.contains(c),
    ensures
        a.s_plus(b).s_times(c) == a.s_times(c).s_plus(b.s_times(c)),
{
    reveal(exact_numbers);
}

/// A number other than zero has an inverse.
pub proof fn inverted<T: Scalar>(p: Set<T>, d: T)
    requires
        exact_numbers(p),
        p.contains(d),
        d != num::<T>(0),
    ensures
        p.contains(num::<T>(1).s_over(d)),
        num::<T>(1).s_over(d).s_times(d) == num::<T>(1),
{
    reveal(exact_numbers);
}

/// Sums can be regrouped.
pub proof fn gathered<T: Scalar>(p: Set<T>, a: T, b: T, c: T)
    requires
        exact_numbers(p),
        p.contains(a),
        p.contains(b),
        p.contains(c),
    ensures
        p.contains(a.s_plus(b)),
        p.contains(b.s_plus(c)),
        p.contains(a.s_plus(b).s_plus(c)),
        a.s_plus(b).s_plus(c) == a.s_plus(b.s_plus(c)),
{
    reveal(exact_numbers);
}

/// Every value of `f` below `n` is in `s`.
pub open spec fn values_in<T>(s: Set<T>, n: int, f: spec_fn(int) -> T) -> bool {
    forall|i: int| 0 <= i < n ==> s.contains(#[trigger] f(i))
}

/// A sum of numbers is one of them.
pub proof fn sum_in<T: Scalar>(p: Set<T>, n: int, f: spec_fn(int) -> T)
    requires
        exact_numbers(p),
        values_in(p, n, f),
    ensures
        p.contains(sigma(n, f)),
    decreases n,
{
    if n > 0 {
        sum_in(p, n - 1, f);
        assert(p.contains(f(n - 1)));
        added(p, sigma(n - 1, f), f(n - 1));
    } else {
        constants(p);
    }
}

/// A factor can be taken out of a sum.
pub proof fn sum_of_multiples<T: Scalar>(p: Set<T>, n: int, f: spec_fn(int) -> T, c: T)
    requires
        exact_numbers(p),
        values_in(p, n, f),
        p.contains(c),
    ensures
        sigma(n, |i: int| f(i).s_times(c)) == sigma(n, f).s_times(c),
    decreases n,
{
    let g = |i: int| f(i).s_times(c);
    if n > 0 {
        sum_of_multiples(p, n - 1, f, c);
        sum_in(p, n - 1, f);
        assert(p.contains(f(n - 1)));
        assert(g(n - 1) == f(n - 1).s_times(c));
        distributed(p, sigma(n - 1, f), f(n - 1), c);
    } else {
        multiplied(p, c, c);
    }
}

/// A sum of zeros is zero.
pub proof fn sum_of_zeros<T: Scalar>(p: Set<T>, n: int, f: spec_fn(int) -> T)
    requires
        exact_numbers(p),
        forall|i: int| 0 <= i < n ==> #[trigger] f(i) == num::<T>(0),
    ensures
        sigma(n, f) == num::<T>(0),
    decreases n,
{
    if n > 0 {
        sum_of_zeros(p, n - 1, f);
        assert(f(n - 1) == num::<T>(0));
        constants(p);
        added(p, num::<T>(0), num(0));
    }
}

/// The sum of the sums of two values is the sum of their sums.
pub proof fn sum_of_pairs<T: Scalar>(p: Set<T>, n: int, f: spec_fn(int) -> T, g: spec_fn(int) -> T)
    requires
        exact_numbers(p),
        values_in(p, n, f),
        values_in(p, n, g),
    ensures
        sigma(n, |i: int| f(i).s_plus(g(i))) == sigma(n, f).s_plus(sigma(n, g)),
    decreases n,
{
    if n > 0 {
        sum_of_pairs(p, n - 1, f, g);
        sum_in(p, n - 1, f);
        sum_in(p, n - 1, g);
        let a = sigma(n - 1, f);
        let b = sigma(n - 1, g);
        let x = f(n - 1);
        let y = g(n - 1);
        assert(p.contains(x) && p.contains(y));
        // (a + b) + (x + y) == (a + x) + (b + y)
        gathered(p, a, b, x);
        added(p, b, x);
        gathered(p, a, x, b);
        added(p, a, b);
        added(p, a, x);
        gathered(p, a.s_plus(b), x, y);
        gathered(p, a.s_plus(x), b, y);
    } else {
        constants(p);
        added(p, num::<T>(0), num(0));
    }
}

/// A double sum can be taken in either order.
pub proof fn sum_swapped<T: Scalar>(p: Set<T>, n: int, m: int, f: spec_fn(int, int) -> T)
    requires
        exact_numbers(p),
        forall|i: int, j: int| 0 <= i < n && 0 <= j < m ==> p.contains(#[trigger] f(i, j)),
    ensures
        sigma(n, |i: int| sigma(m, |j: int| f(i, j))) == sigma(
            m,
            |j: int| sigma(n, |i: int| f(i, j)),
        ),
    decreases n,
{
    let rows = |i: int| sigma(m, |j: int| f(i, j));
    let cols = |j: int| sigma(n, |i: int| f(i, j));
    if n > 0 {
        sum_swapped(p, n - 1, m, f);
        let fewer = |j: int| sigma(n - 1, |i: int| f(i, j));
        let last = |j: int| f(n - 1, j);
        assert forall|j: int| 0 <= j < m implies p.contains(#[trigger] fewer(j)) by {
            let col = |i: int| f(i, j);
            assert forall|i: int| 0 <= i < n - 1 implies p.contains(#[trigger] col(i)) by {
                assert(p.contains(f(i, j)));
            }
            sum_in(p, n - 1, col);
        }
        assert forall|j: int| 0 <= j < m implies p.contains(#[trigger] last(j)) by {
            assert(p.contains(f(n - 1, j)));
        }
        sum_of_pairs(p, m, fewer, last);
        assert forall|j: int| 0 <= j < m implies #[trigger] cols(j) == (|j: int|
            fewer(j).s_plus(last(j)))(j) by {
            let col = |i: int| f(i, j);
            assert(sigma(n, col) == sigma(n - 1, col).s_plus(col(n - 1)));
        }
        sigma_ext(m, cols, |j: int| fewer(j).s_plus(last(j)));
        assert(sigma(n, rows) == sigma(n - 1, rows).s_plus(rows(n - 1)));
        assert(rows(n - 1) == sigma(m, last)) by {
            sigma_ext(m, |j: int| f(n - 1, j), last);
        }
    } else {
        assert forall|j: int| 0 <= j < m implies #[trigger] cols(j) == num::<T>(0) by {
        }
        sum_of_zeros(p, m, cols);
    }
}

/// A sum can be cut in two.
pub proof fn sum_cut<T: Scalar>(p: Set<T>, n: int, m: int, f: spec_fn(int) -> T)
    requires
        exact_numbers(p),
        0 <= n,
        0 <= m,
        values_in(p, n + m, f),
    ensures
        sigma(n + m, f) == sigma(n, f).s_plus(sigma(m, from_on(f, n))),
    decreases m,
{
    sum_in(p, n, f);
    if m > 0 {
        sum_cut(p, n, m - 1, f);
        assert(values_in(p, m - 1, from_on(f, n))) by {
            assert forall|i: int| 0 <= i < m - 1 implies p.contains(#[trigger] from_on(f, n)(i)) by {
                assert(p.contains(f(n + i)));
            }
        }
        sum_in(p, m - 1, from_on(f, n));
        assert(p.contains(f(n + m - 1)));
        gathered(p, sigma(n, f), sigma(m - 1, from_on(f, n)), f(n + m - 1));
    } else {
        constants(p);
        added(p, sigma(n, f), num(0));
    }
}

/// Running on from a sum adds the sum of what follows.
pub proof fn grown_is_sum<T: Scalar>(p: Set<T>, before: T, n: int, f: spec_fn(int) -> T)
    requires
        exact_numbers(p),
        p.contains(before),
        0 <= n,
        values_in(p, n, f),
    ensures
        grown(before, n, f) == before.s_plus(sigma(n, f)),
    decreases n,
{
    if n > 0 {
        assert(values_in(p, n - 1, f));
        grown_is_sum(p, before, n - 1, f);
        sum_in(p, n - 1, f);
        assert(p.contains(f(n - 1)));
        gathered(p, before, sigma(n - 1, f), f(n - 1));
    } else {
        constants(p);
        added(p, before, num(0));
    }
}

/// Eight numbers added in pairs add up to what they add up to from the left.
proof fn pairs_are_sum<T: Scalar>(p: Set<T>, a: spec_fn(int) -> T)
    requires
        exact_numbers(p),
        values_in(p, 8, a),
    ensures
        num::<T>(0).s_plus(a(0).s_plus(a(4))).s_plus(a(1).s_plus(a(5))).s_plus(
            a(2).s_plus(a(6)),
        ).s_plus(a(3).s_plus(a(7))) == sigma(8, a),
{
    let lo = |k: int| a(k);
    let hi = |k: int| a(4 + k);
    let both = |k: int| lo(k).s_plus(hi(k));
    assert forall|k: int| 0 <= k < 4 implies p.contains(#[trigger] lo(k)) by {
        assert(p.contains(a(k)));
    }
    assert forall|k: int| 0 <= k < 4 implies p.contains(#[trigger] hi(k)) by {
        assert(p.contains(a(4 + k)));
    }
    sum_of_pairs(p, 4, lo, hi);
    sum_cut(p, 4, 4, a);
    sigma_ext(4, lo, a);
    sigma_ext(4, hi, from_on(a, 4));
    reveal_with_fuel(sigma, 6);
    assert(sigma(4, both) == num::<T>(0).s_plus(both(0)).s_plus(both(1)).s_plus(both(2)).s_plus(
        both(3),
    ));
    sigma_ext(4, both, |i: int| lo(i).s_plus(hi(i)));
}

/// The values of the first `b` blocks of eight, block by block.
proof fn blocks_are_sum<T: Scalar>(p: Set<T>, b: int, f: spec_fn(int) -> T)
    requires
        exact_numbers(p),
        0 <= b,
        values_in(p, 8 * b, f),
    ensures
        sigma(8 * b, f) == sigma(b, |i: int| sigma(8, |k: int| f(8 * i + k))),
    decreases b,
{
    let block = |i: int| sigma(8, |k: int| f(8 * i + k));
    if b > 0 {
        assert(values_in(p, 8 * (b - 1), f));
        blocks_are_sum(p, b - 1, f);
        sum_cut(p, 8 * (b - 1), 8, f);
        sigma_ext(8, from_on(f, 8 * (b - 1)), |k: int| f(8 * (b - 1) + k));
        assert(sigma(b, block) == sigma(b - 1, block).s_plus(block(b - 1)));
    }
}

/// Where nothing is rounded, a sum in lanes is the sum from the left.
pub proof fn lanes_are_sum<T: Scalar>(p: Set<T>, n: int, f: spec_fn(int) -> T)
    requires
        exact_numbers(p),
        0 <= n,
        values_in(p, n, f),
    ensures
        lanes(n, f) == sigma(n, f),
        p.contains(lanes(n, f)),
{
    let b = n / 8;
    let a = |k: int| sigma(b, lane(f, k));
    let cell = |k: int, i: int| f(8 * i + k);
    assert forall|k: int| 0 <= k < 8 implies p.contains(#[trigger] a(k)) by {
        assert(values_in(p, b, lane(f, k))) by {
            assert forall|i: int| 0 <= i < b implies p.contains(#[trigger] lane(f, k)(i)) by {
                assert(p.contains(f(8 * i + k)));
            }
        }
        sum_in(p, b, lane(f, k));
    }
    pairs_are_sum(p, a);
    assert(paired_lanes(b, f) == sigma(8, a));
    assert forall|k: int, i: int| 0 <= k < 8 && 0 <= i < b implies p.contains(#[trigger] cell(k, i)) by {
        assert(p.contains(f(8 * i + k)));
    }
    sum_swapped(p, 8, b, cell);
    assert forall|k: int| 0 <= k < 8 implies #[trigger] a(k) == (|k: int|
        sigma(b, |i: int| cell(k, i)))(k) by {
        sigma_ext(b, lane(f, k), |i: int| cell(k, i));
    }
    sigma_ext(8, a, |k: int| sigma(b, |i: int| cell(k, i)));
    blocks_are_sum(p, b, f);
    let block = |i: int| sigma(8, |k: int| f(8 * i + k));
    assert forall|i: int| 0 <= i < b implies #[trigger] block(i) == (|i: int|
        sigma(8, |k: int| cell(k, i)))(i) by {
        sigma_ext(8, |k: int| f(8 * i + k), |k: int| cell(k, i));
    }
    sigma_ext(b, block, |i: int| sigma(8, |k: int| cell(k, i)));
    assert(values_in(p, 8 * b, f));
    sum_in(p, 8 * b, f);
    let rest = from_on(f, 8 * b);
    assert(values_in(p, n % 8, rest)) by {
        assert forall|i: int| 0 <= i < n % 8 implies p.contains(#[trigger] rest(i)) by {
            assert(p.contains(f(8 * b + i)));
        }
    }
    grown_is_sum(p, paired_lanes(b, f), n % 8, rest);
    sum_cut(p, 8 * b, n % 8, f);
    sum_in(p, n, f);
}

} // verus!
