//! Finite sums of mathematical reals, and the log-sum inequality.

use vstd::prelude::*;

verus! {

/// `f(0) + f(1) + ... + f(n - 1)`.
pub open spec fn rsum(n: int, f: spec_fn(int) -> real) -> real
    decreases n,
{
    if n <= 0 {
        0real
    } else {
        rsum(n - 1, f) + f(n - 1)
    }
}

/// Sums of equal terms are equal.
pub proof fn rsum_ext(n: int, f: spec_fn(int) -> real, g: spec_fn(int) -> real)
    requires
        forall|i: int| 0 <= i < n ==> #[trigger] f(i) == g(i),
    ensures
        rsum(n, f) == rsum(n, g),
    decreases n,
{
    if n > 0 {
        rsum_ext(n - 1, f, g);
        assert(f(n - 1) == g(n - 1));
    }
}

/// A sum of sums is the sum of the sums.
pub proof fn rsum_add(n: int, f: spec_fn(int) -> real, g: spec_fn(int) -> real)
    ensures
        rsum(n, |i: int| f(i) + g(i)) == rsum(n, f) + rsum(n, g),
    decreases n,
{
    if n > 0 {
        rsum_add(n - 1, f, g);
    }
}

/// A factor can be taken out of a sum.
pub proof fn rsum_scale(n: int, f: spec_fn(int) -> real, c: real)
    ensures
        rsum(n, |i: int| f(i) * c) == rsum(n, f) * c,
    decreases n,
{
    if n > 0 {
        rsum_scale(n - 1, f, c);
        let a = rsum(n - 1, f);
        let b = f(n - 1);
        assert((a + b) * c == a * c + b * c) by (nonlinear_arith);
    } else {
        assert(0real * c == 0real) by (nonlinear_arith);
    }
}

/// A sum of larger terms is larger.
pub proof fn rsum_le(n: int, f: spec_fn(int) -> real, g: spec_fn(int) -> real)
    requires
        forall|i: int| 0 <= i < n ==> #[trigger] f(i) <= g(i),
    ensures
        rsum(n, f) <= rsum(n, g),
    decreases n,
{
    if n > 0 {
        rsum_le(n - 1, f, g);
        assert(f(n - 1) <= g(n - 1));
    }
}

/// A term of a sum of terms that are not negative is at most the sum.
pub proof fn rsum_member(n: int, f: spec_fn(int) -> real, k: int)
    requires
        forall|i: int| 0 <= i < n ==> 0real <= #[trigger] f(i),
    ensures
        0real <= rsum(n, f),
        0 <= k < n ==> f(k) <= rsum(n, f),
    decreases n,
{
    if n > 0 {
        rsum_member(n - 1, f, k);
        assert(0real <= f(n - 1));
    }
}

/// A positive sum has a positive term.
pub proof fn rsum_positive(n: int, f: spec_fn(int) -> real) -> (k: int)
    requires
        0real < rsum(n, f),
    ensures
        0 <= k < n,
        0real < f(k),
    decreases n,
{
    if 0real < f(n - 1) {
        n - 1
    } else {
        rsum_positive(n - 1, f)
    }
}

/// A double sum can be taken in either order.
pub proof fn rsum_swap(n: int, m: int, f: spec_fn(int, int) -> real)
    ensures
        rsum(n, |i: int| rsum(m, |j: int| f(i, j))) == rsum(m, |j: int| rsum(n, |i: int| f(i, j))),
    decreases n,
{
    let rows = |i: int| rsum(m, |j: int| f(i, j));
    let cols = |j: int| rsum(n, |i: int| f(i, j));
    if n > 0 {
        rsum_swap(n - 1, m, f);
        let fewer = |j: int| rsum(n - 1, |i: int| f(i, j));
        let last = |j: int| f(n - 1, j);
        rsum_add(m, fewer, last);
        assert forall|j: int| 0 <= j < m implies #[trigger] cols(j) == (|j: int|
            fewer(j) + last(j))(j) by {
            let col = |i: int| f(i, j);
            assert(rsum(n, col) == rsum(n - 1, col) + col(n - 1));
        }
        rsum_ext(m, cols, |j: int| fewer(j) + last(j));
        assert(rsum(n, rows) == rsum(n - 1, rows) + rows(n - 1));
        rsum_ext(m, |j: int| f(n - 1, j), last);
    } else {
        rsum_zero(m, cols);
    }
}

/// A sum of zeros is zero.
pub proof fn rsum_zero(n: int, f: spec_fn(int) -> real)
    requires
        forall|i: int| 0 <= i < n ==> #[trigger] f(i) == 0real,
    ensures
        rsum(n, f) == 0real,
    decreases n,
{
    if n > 0 {
        rsum_zero(n - 1, f);
        assert(f(n - 1) == 0real);
    }
}

/// The weights of the places with label `v`, and zero at the others.
pub open spec fn labelled(
    label: spec_fn(int) -> int,
    w: spec_fn(int) -> real,
    v: int,
) -> spec_fn(int) -> real {
    |t: int|
        if label(t) == v {
            w(t)
        } else {
            0real
        }
}

/// The weights of the first `n` places with label `v`, summed.
pub open spec fn rcount(
    n: int,
    label: spec_fn(int) -> int,
    w: spec_fn(int) -> real,
    v: int,
) -> real {
    rsum(n, labelled(label, w, v))
}

/// Where no weight is negative, no weight of a label is larger than its count.
pub proof fn rcount_member(
    n: int,
    label: spec_fn(int) -> int,
    w: spec_fn(int) -> real,
    v: int,
)
    requires
        forall|t: int| 0 <= t < n ==> 0real <= #[trigger] w(t),
    ensures
        0real <= rcount(n, label, w, v),
        forall|t: int| 0 <= t < n && label(t) == v ==> #[trigger] w(t) <= rcount(n, label, w, v),
{
    let term = labelled(label, w, v);
    assert forall|t: int| 0 <= t < n implies 0real <= #[trigger] term(t) by {
        assert(0real <= w(t));
    }
    if n > 0 {
        rsum_member(n, term, 0);
    }
    assert forall|t: int| 0 <= t < n && label(t) == v implies #[trigger] w(t) <= rcount(
        n,
        label,
        w,
        v,
    ) by {
        rsum_member(n, term, t);
        assert(term(t) == w(t));
    }
}

/// A positive count has a positive weight.
pub proof fn rcount_positive(
    n: int,
    label: spec_fn(int) -> int,
    w: spec_fn(int) -> real,
    v: int,
) -> (t: int)
    requires
        0real < rcount(n, label, w, v),
    ensures
        0 <= t < n,
        label(t) == v,
        0real < w(t),
{
    rsum_positive(n, labelled(label, w, v))
}

/// A sum with one term is that term.
proof fn rsum_single(n: int, k: int, x: real)
    requires
        0 <= k < n,
    ensures
        rsum(
            n,
            |v: int|
                if v == k {
                    x
                } else {
                    0real
                },
        ) == x,
    decreases n,
{
    let f = |v: int|
        if v == k {
            x
        } else {
            0real
        };
    if k < n - 1 {
        rsum_single(n - 1, k, x);
        assert(rsum(n, f) == rsum(n - 1, f) + f(n - 1));
    } else {
        rsum_zero(n - 1, f);
        assert(rsum(n, f) == rsum(n - 1, f) + f(n - 1));
    }
}

/// Weighted values can be summed place by place or label by label.
pub proof fn rsum_by_label(
    n: int,
    m: int,
    label: spec_fn(int) -> int,
    w: spec_fn(int) -> real,
    g: spec_fn(int) -> real,
)
    requires
        forall|t: int| 0 <= t < n ==> 0 <= #[trigger] label(t) < m,
    ensures
        rsum(n, |t: int| w(t) * g(label(t))) == rsum(m, |v: int| rcount(n, label, w, v) * g(v)),
    decreases n,
{
    let places = |t: int| w(t) * g(label(t));
    let labels = |v: int| rcount(n, label, w, v) * g(v);
    if n > 0 {
        rsum_by_label(n - 1, m, label, w, g);
        let fewer = |v: int| rcount(n - 1, label, w, v) * g(v);
        let k = label(n - 1);
        let x = places(n - 1);
        let last = |v: int|
            if v == k {
                x
            } else {
                0real
            };
        assert(0 <= k < m);
        rsum_single(m, k, x);
        rsum_add(m, fewer, last);
        assert forall|v: int| 0 <= v < m implies #[trigger] labels(v) == (|v: int|
            fewer(v) + last(v))(v) by {
            let term = labelled(label, w, v);
            assert(rsum(n, term) == rsum(n - 1, term) + term(n - 1));
            let (a, b, c) = (rsum(n - 1, term), term(n - 1), g(v));
            assert((a + b) * c == a * c + b * c) by (nonlinear_arith);
            if v != k {
                assert(0real * c == 0real) by (nonlinear_arith);
            }
        }
        rsum_ext(m, labels, |v: int| fewer(v) + last(v));
        assert(rsum(n, places) == rsum(n - 1, places) + places(n - 1));
        rsum_ext(m, last, |v: int|
            if v == k {
                x
            } else {
                0real
            });
    } else {
        assert forall|v: int| 0 <= v < m implies #[trigger] labels(v) == 0real by {
            let c = g(v);
            assert(0real * c == 0real) by (nonlinear_arith);
        }
        rsum_zero(m, labels);
    }
}

/// `ln` is a logarithm: it turns products into sums and lies below its tangent at 1.
pub open spec fn is_ln(ln: spec_fn(real) -> real) -> bool {
    &&& forall|a: real, b: real|
        #![trigger ln(a), ln(b)]
        0real < a && 0real < b ==> ln(a * b) == ln(a) + ln(b)
    &&& forall|a: real| 0real < a ==> #[trigger] ln(a) <= a - 1real
}

/// The logarithm of 1 is 0.
pub proof fn ln_of_one(ln: spec_fn(real) -> real)
    requires
        is_ln(ln),
    ensures
        ln(1real) == 0real,
{
    assert(1real * 1real == 1real) by (nonlinear_arith);
    assert(ln(1real * 1real) == ln(1real) + ln(1real));
}

/// One term of the log-sum inequality.
proof fn log_sum_term(ln: spec_fn(real) -> real, c: real, d: real, s: real, whole: real)
    requires
        is_ln(ln),
        0real <= c,
        0real <= d,
        0real < c ==> 0real < d,
        0real < s,
        0real < whole,
    ensures
        c * (ln(d) - ln(c)) <= c * (ln(whole) - ln(s)) + d * (s / whole) - c,
{
    let q = s / whole;
    assert(0real < q && q * whole == s) by (nonlinear_arith)
        requires
            0real < s,
            0real < whole,
            q == s / whole,
    ;
    if c == 0real {
        let a = ln(d) - ln(c);
        let b = ln(whole) - ln(s);
        assert(c * a == 0real && c * b == 0real && 0real <= d * q) by (nonlinear_arith)
            requires
                c == 0real,
                0real <= d,
                0real < q,
        ;
    } else {
        let y = d * q / c;
        assert(0real < d * q) by (nonlinear_arith)
            requires
                0real < d,
                0real < q,
        ;
        assert(0real < y && y * c == d * q) by (nonlinear_arith)
            requires
                0real < d * q,
                0real < c,
                y == d * q / c,
        ;
        assert(ln(y * c) == ln(y) + ln(c));
        assert(ln(d * q) == ln(d) + ln(q));
        assert(ln(q * whole) == ln(q) + ln(whole));
        let g = ln(y);
        let a = ln(d) - ln(c);
        let b = ln(whole) - ln(s);
        assert(g == a - b);
        assert(g <= y - 1real);
        assert(c * a <= c * b + d * q - c) by (nonlinear_arith)
            requires
                g == a - b,
                g <= y - 1real,
                0real < c,
                y * c == d * q,
        ;
    }
}

/// The log-sum inequality: terms `d` that are positive wherever the terms `c` are
/// have, weighted by `c`, log-ratios to `c` that add up to no more than that of the
/// sums.
pub proof fn log_sum_inequality(
    ln: spec_fn(real) -> real,
    n: int,
    c: spec_fn(int) -> real,
    d: spec_fn(int) -> real,
)
    requires
        is_ln(ln),
        forall|i: int| 0 <= i < n ==> 0real <= #[trigger] c(i),
        forall|i: int| 0 <= i < n ==> 0real <= #[trigger] d(i),
        forall|i: int| 0 <= i < n && 0real < #[trigger] c(i) ==> 0real < d(i),
        0real < rsum(n, c),
    ensures
        0real < rsum(n, d),
        rsum(n, |i: int| c(i) * (ln(d(i)) - ln(c(i)))) <= rsum(n, c) * (ln(rsum(n, d)) - ln(
            rsum(n, c),
        )),
{
    let s = rsum(n, c);
    let k = rsum_positive(n, c);
    assert(0real < d(k));
    rsum_member(n, d, k);
    let whole = rsum(n, d);
    let gap = ln(whole) - ln(s);
    let q = s / whole;
    let term = |i: int| c(i) * (ln(d(i)) - ln(c(i)));
    let ca = |i: int| c(i) * gap;
    let db = |i: int| d(i) * q;
    let first = |i: int| ca(i) + db(i);
    let minus = |i: int| c(i) * (-1real);
    let bound = |i: int| first(i) + minus(i);
    assert forall|i: int| 0 <= i < n implies #[trigger] term(i) <= bound(i) by {
        assert(0real <= c(i) && 0real <= d(i));
        log_sum_term(ln, c(i), d(i), s, whole);
        let e = c(i);
        assert(e * (-1real) == -e) by (nonlinear_arith);
    }
    rsum_le(n, term, bound);
    rsum_add(n, first, minus);
    rsum_add(n, ca, db);
    rsum_scale(n, c, gap);
    rsum_scale(n, d, q);
    rsum_scale(n, c, -1real);
    assert(whole * q == s && s * (-1real) == -s) by (nonlinear_arith)
        requires
            q == s / whole,
            0real < whole,
    ;
}

/// A factor distributes over a sum and a difference.
pub proof fn distributes(a: real, b: real, c: real)
    ensures
        a * (b + c) == a * b + a * c,
        a * (b - c) == a * b - a * c,
{
    assert(a * (b + c) == a * b + a * c) by (nonlinear_arith);
    assert(a * (b - c) == a * b - a * c) by (nonlinear_arith);
}

/// Factors can be swapped.
pub proof fn commutes(a: real, b: real)
    ensures
        a * b == b * a,
{
    assert(a * b == b * a) by (nonlinear_arith);
}

/// Factors can be regrouped.
pub proof fn associates(a: real, b: real, c: real)
    ensures
        (a * b) * c == a * (b * c),
{
    assert((a * b) * c == a * (b * c)) by (nonlinear_arith);
}

/// A product with zero is zero.
pub proof fn annuls(a: real)
    ensures
        a * 0real == 0real,
        0real * a == 0real,
{
    assert(a * 0real == 0real) by (nonlinear_arith);
    assert(0real * a == 0real) by (nonlinear_arith);
}

/// Equal multiples by a number other than zero are multiples of equal numbers.
pub proof fn cancels(a: real, b: real, d: real)
    requires
        a * d == b * d,
        d != 0real,
    ensures
        a == b,
{
    let e = a - b;
    assert(e * d == a * d - b * d) by (nonlinear_arith)
        requires
            e == a - b,
    ;
    assert(e == 0real) by (nonlinear_arith)
        requires
            e * d == 0real,
            d != 0real,
    ;
}

/// A sum in which one term alone counts is that term.
pub proof fn rsum_lone(n: int, f: spec_fn(int) -> real, k: int)
    requires
        forall|j: int| 0 <= j < n && j != k ==> #[trigger] f(j) == 0real,
    ensures
        rsum(n, f) == if 0 <= k < n {
            f(k)
        } else {
            0real
        },
    decreases n,
{
    if n > 0 {
        rsum_lone(n - 1, f, k);
    }
}

/// Sums that differ in one term differ by what that term does.
pub proof fn rsum_apart(n: int, f: spec_fn(int) -> real, g: spec_fn(int) -> real, k: int)
    requires
        forall|j: int| 0 <= j < n && j != k ==> #[trigger] f(j) == g(j),
    ensures
        rsum(n, f) - rsum(n, g) == if 0 <= k < n {
            f(k) - g(k)
        } else {
            0real
        },
    decreases n,
{
    if n > 0 {
        rsum_apart(n - 1, f, g, k);
        if n - 1 != k {
            assert(f(n - 1) == g(n - 1));
        }
    }
}

} // verus!
