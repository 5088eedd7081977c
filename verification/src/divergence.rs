//! Divergences are not negative, where arithmetic is exact and up to the error of
//! the digamma function.

use crate::kl::{
    difference, dirichlet_divergence, gamma_divergence, halved, multivariate_divergence,
    normal_divergence, quadratic_form, trace_of_product, wishart_divergence, wishart_expectation,
    wishart_normalizer,
};
use crate::linalg::{log_determinant, Dense};
use crate::reading::{blocks_by_lane, sum_behind};
use crate::reals::{is_ln, ln_of_one, rsum, rsum_add, rsum_ext, rsum_le, rsum_scale, rsum_zero};
use crate::scalar::{
    dec, from_on, grown, lane, lanes, negative, num, paired_lanes, sigma, total, Scalar,
};
use crate::special::digamma_of;
use vstd::prelude::*;

verus! {

/// `rd` reads every number as a real: the operations as those of the reals, the
/// logarithm as `ln` and the log-gamma function as `lg`.
#[verifier::opaque]
pub open spec fn reads_all<T: Scalar>(
    rd: spec_fn(T) -> real,
    ln: spec_fn(real) -> real,
    lg: spec_fn(real) -> real,
) -> bool {
    &&& forall|k: int| rd(#[trigger] num::<T>(k)) == k as real
    &&& 2real * rd(dec::<T>(5, -1)) == 1real
    &&& forall|a: T, b: T| rd(#[trigger] a.s_plus(b)) == rd(a) + rd(b)
    &&& forall|a: T, b: T| rd(#[trigger] a.s_minus(b)) == rd(a) - rd(b)
    &&& forall|a: T, b: T| rd(#[trigger] a.s_times(b)) == rd(a) * rd(b)
    &&& forall|a: T, d: T| rd(d) != 0real ==> rd(#[trigger] a.s_over(d)) * rd(d) == rd(a)
    &&& forall|a: T| 0real < rd(a) ==> rd(#[trigger] a.s_ln()) == ln(rd(a))
    &&& forall|a: T| 0real < rd(a) ==> rd(#[trigger] a.s_ln_gamma()) == lg(rd(a))
}

/// `lg(x) - x ln(x) + x` lies above its tangents, whose slope is `psi(x) - ln(x)`: as
/// with the log-gamma function, whose second derivative is above `1 / x`.
pub open spec fn is_log_gamma(
    ln: spec_fn(real) -> real,
    lg: spec_fn(real) -> real,
    psi: spec_fn(real) -> real,
) -> bool {
    forall|a: real, b: real|
        #![trigger lg(a), lg(b)]
        0real < a && 0real < b ==> lg(a) - a * ln(a) + a + (psi(a) - ln(a)) * (b - a) <= lg(b) - b
            * ln(b) + b
}

/// The digamma value at `v` is within `e` of that of `psi`.
pub open spec fn digamma_within<T: Scalar>(
    rd: spec_fn(T) -> real,
    psi: spec_fn(real) -> real,
    v: T,
    e: real,
) -> bool {
    psi(rd(v)) - e <= rd(digamma_of(v)) <= psi(rd(v)) + e
}

/// The distance of two reals.
pub open spec fn gap(a: real, b: real) -> real {
    if a < b {
        b - a
    } else {
        a - b
    }
}

proof fn ln_of_quotient(ln: spec_fn(real) -> real, a: real, b: real)
    requires
        is_ln(ln),
        0real < a,
        0real < b,
    ensures
        0real < a / b,
        (a / b) * b == a,
        ln(a / b) == ln(a) - ln(b),
{
    let q = a / b;
    assert(0real < q && q * b == a) by (nonlinear_arith)
        requires
            0real < a,
            0real < b,
            q == a / b,
    ;
    assert(ln(q * b) == ln(q) + ln(b));
}

/// `a (t - 1) - b ln(t)` is smallest at `t = b / a`.
proof fn scale_term(ln: spec_fn(real) -> real, a: real, b: real, t: real)
    requires
        is_ln(ln),
        0real < a,
        0real < b,
        0real < t,
    ensures
        b - a - b * (ln(b) - ln(a)) <= a * (t - 1real) - b * ln(t),
{
    let u = t * a;
    assert(0real < u) by (nonlinear_arith)
        requires
            0real < t,
            0real < a,
            u == t * a,
    ;
    assert(ln(t * a) == ln(t) + ln(a));
    ln_of_quotient(ln, u, b);
    let s = u / b;
    assert(ln(s) <= s - 1real);
    let (lt, la, lb) = (ln(t), ln(a), ln(b));
    assert(b * (lt + la - lb) <= b * (s - 1real)) by (nonlinear_arith)
        requires
            0real < b,
            lt + la - lb <= s - 1real,
    ;
    assert(b - a - b * (lb - la) <= a * (t - 1real) - b * lt) by (nonlinear_arith)
        requires
            b * (lt + la - lb) <= b * (s - 1real),
            s * b == u,
            u == t * a,
    ;
}

/// An error of at most `e` in a factor changes a product by at most `e` times the
/// other factor.
proof fn error_term(x: real, y: real, d: real, exact: real, e: real)
    requires
        exact - e <= d <= exact + e,
    ensures
        (x - y) * exact - e * gap(x, y) <= (x - y) * d,
{
    let z = x - y;
    if x < y {
        assert(z * exact - e * (y - x) <= z * d) by (nonlinear_arith)
            requires
                z < 0real,
                z == x - y,
                d <= exact + e,
        ;
    } else {
        assert(z * exact - e * (x - y) <= z * d) by (nonlinear_arith)
            requires
                z >= 0real,
                z == x - y,
                exact - e <= d,
        ;
    }
}

/// The divergence of two normal distributions is not negative.
pub proof fn normal_divergence_not_negative<T: Scalar>(
    rd: spec_fn(T) -> real,
    ln: spec_fn(real) -> real,
    lg: spec_fn(real) -> real,
    mean_q: T,
    var_q: T,
    mean_p: T,
    var_p: T,
)
    requires
        is_ln(ln),
        reads_all(rd, ln, lg),
        0real < rd(var_q),
        0real < rd(var_p),
    ensures
        0real <= rd(normal_divergence(mean_q, var_q, mean_p, var_p)),
{
    reveal(reads_all);
    let two = num::<T>(2);
    let d = mean_q.s_minus(mean_p);
    let ratio = var_p.s_over(var_q);
    let first = ratio.s_ln().s_over(two);
    let below = two.s_times(var_p);
    let above = d.s_times(d).s_plus(var_q);
    let second = above.s_over(below);
    let (q, p, x) = (rd(var_q), rd(var_p), rd(d));
    let r = rd(ratio);
    assert(rd(two) == 2real);
    assert(r * q == p);
    assert(0real < r) by (nonlinear_arith)
        requires
            r * q == p,
            0real < p,
            0real < q,
    ;
    // The logarithm of the inverse ratio lies below its tangent.
    ln_of_quotient(ln, q, p);
    let t = q / p;
    assert(r * t == 1real) by (nonlinear_arith)
        requires
            r * q == p,
            t * p == q,
            0real < p,
    ;
    ln_of_one(ln);
    assert(ln(r * t) == ln(r) + ln(t));
    assert(ln(t) <= t - 1real);
    assert(rd(first) * 2real == ln(r));
    assert(rd(below) == 2real * p);
    assert(rd(above) == x * x + q);
    assert(rd(second) * (2real * p) == x * x + q);
    let (f, s) = (rd(first), rd(second));
    assert(t <= 2real * s) by (nonlinear_arith)
        requires
            s * (2real * p) == x * x + q,
            t * p == q,
            0real < p,
    ;
}

/// The divergence of two gamma distributions is not negative, up to the error of
/// the digamma value at the first shape.
pub proof fn gamma_divergence_not_negative<T: Scalar>(
    rd: spec_fn(T) -> real,
    ln: spec_fn(real) -> real,
    lg: spec_fn(real) -> real,
    psi: spec_fn(real) -> real,
    e: real,
    b_q: T,
    c_q: T,
    b_p: T,
    c_p: T,
)
    requires
        is_ln(ln),
        reads_all(rd, ln, lg),
        is_log_gamma(ln, lg, psi),
        digamma_within(rd, psi, b_q, e),
        0real < rd(b_q),
        0real < rd(c_q),
        0real < rd(b_p),
        0real < rd(c_p),
    ensures
        0real <= rd(gamma_divergence(b_q, c_q, b_p, c_p)) + e * gap(rd(b_q), rd(b_p)),
{
    reveal(reads_all);
    let (a, b) = (rd(b_q), rd(b_p));
    let (cq, cp) = (rd(c_q), rd(c_p));
    let last = b_q.s_times(c_q.s_minus(c_p)).s_over(c_p);
    let dg = rd(digamma_of(b_q));
    error_term(a, b, dg, psi(a), e);
    ln_of_quotient(ln, cq, cp);
    let t = cq / cp;
    scale_term(ln, a, b, t);
    let x = rd(last);
    assert(x * cp == a * (cq - cp));
    assert(x == a * (t - 1real)) by (nonlinear_arith)
        requires
            x * cp == a * (cq - cp),
            t * cp == cq,
            0real < cp,
    ;
    let (la, lb, lt, ga, gb, pa) = (ln(a), ln(b), ln(t), lg(a), lg(b), psi(a));
    assert(ga - a * la + a + (pa - la) * (b - a) <= gb - b * lb + b);
    assert((a - b) * pa - ga + gb + (b - a - b * (lb - la)) >= 0real) by (nonlinear_arith)
        requires
            ga - a * la + a + (pa - la) * (b - a) <= gb - b * lb + b,
    ;
    let z = b * (rd(c_p.s_ln()) - rd(c_q.s_ln()));
    assert(z == -(b * lt)) by (nonlinear_arith)
        requires
            z == b * (rd(c_p.s_ln()) - rd(c_q.s_ln())),
            rd(c_p.s_ln()) - rd(c_q.s_ln()) == -lt,
    ;
}

/// A sum from the left is read as a sum.
proof fn read_all_sigma<T: Scalar>(
    rd: spec_fn(T) -> real,
    ln: spec_fn(real) -> real,
    lg: spec_fn(real) -> real,
    n: int,
    f: spec_fn(int) -> T,
)
    requires
        reads_all(rd, ln, lg),
    ensures
        rd(sigma(n, f)) == rsum(n, |i: int| rd(f(i))),
    decreases n,
{
    reveal(reads_all);
    if n > 0 {
        read_all_sigma(rd, ln, lg, n - 1, f);
    }
}

proof fn read_all_grown<T: Scalar>(
    rd: spec_fn(T) -> real,
    ln: spec_fn(real) -> real,
    lg: spec_fn(real) -> real,
    before: T,
    n: int,
    f: spec_fn(int) -> T,
)
    requires
        reads_all(rd, ln, lg),
    ensures
        rd(grown(before, n, f)) == rd(before) + rsum(n, |i: int| rd(f(i))),
    decreases n,
{
    reveal(reads_all);
    if n > 0 {
        read_all_grown(rd, ln, lg, before, n - 1, f);
    }
}

proof fn read_all_lane<T: Scalar>(
    rd: spec_fn(T) -> real,
    ln: spec_fn(real) -> real,
    lg: spec_fn(real) -> real,
    b: int,
    f: spec_fn(int) -> T,
    k: int,
    h: spec_fn(int) -> real,
)
    requires
        reads_all(rd, ln, lg),
        forall|i: int| #[trigger] h(i) == rd(f(8 * i + k)),
    ensures
        rd(sigma(b, lane(f, k))) == rsum(b, h),
{
    let g = lane(f, k);
    read_all_sigma(rd, ln, lg, b, g);
    rsum_ext(b, |i: int| rd(g(i)), h);
}

/// A sum in lanes is read as a sum.
proof fn read_all_lanes<T: Scalar>(
    rd: spec_fn(T) -> real,
    ln: spec_fn(real) -> real,
    lg: spec_fn(real) -> real,
    n: int,
    f: spec_fn(int) -> T,
)
    requires
        reads_all(rd, ln, lg),
        0 <= n,
    ensures
        rd(lanes(n, f)) == rsum(n, |i: int| rd(f(i))),
{
    let b = n / 8;
    let g = |i: int| rd(f(i));
    let rest = from_on(f, 8 * b);
    blocks_by_lane(b, g);
    read_all_lane(rd, ln, lg, b, f, 0, |i: int| g(8 * i));
    read_all_lane(rd, ln, lg, b, f, 1, |i: int| g(8 * i + 1));
    read_all_lane(rd, ln, lg, b, f, 2, |i: int| g(8 * i + 2));
    read_all_lane(rd, ln, lg, b, f, 3, |i: int| g(8 * i + 3));
    read_all_lane(rd, ln, lg, b, f, 4, |i: int| g(8 * i + 4));
    read_all_lane(rd, ln, lg, b, f, 5, |i: int| g(8 * i + 5));
    read_all_lane(rd, ln, lg, b, f, 6, |i: int| g(8 * i + 6));
    read_all_lane(rd, ln, lg, b, f, 7, |i: int| g(8 * i + 7));
    read_all_grown(rd, ln, lg, paired_lanes(b, f), n % 8, rest);
    assert(rd(paired_lanes(b, f)) == rsum(8 * b, g)) by {
        reveal(reads_all);
        let p = |k: int| sigma(b, lane(f, k));
        let zero = num::<T>(0);
        assert(rd(zero) == 0real);
        let s0 = zero.s_plus(p(0).s_plus(p(4)));
        let s1 = s0.s_plus(p(1).s_plus(p(5)));
        let s2 = s1.s_plus(p(2).s_plus(p(6)));
        assert(rd(s0) == rd(p(0)) + rd(p(4)));
        assert(rd(s1) == rd(s0) + rd(p(1)) + rd(p(5)));
        assert(rd(s2) == rd(s1) + rd(p(2)) + rd(p(6)));
        assert(paired_lanes(b, f) == s2.s_plus(p(3).s_plus(p(7))));
    }
    sum_behind(8 * b, n % 8, g);
    rsum_ext(n % 8, |i: int| rd(rest(i)), |i: int| g(8 * b + i));
}

/// The logarithm of the beta function.
pub open spec fn log_beta(lg: spec_fn(real) -> real, x: real, y: real) -> real {
    lg(x) + lg(y) - lg(x + y)
}

/// The logarithm of the beta function lies above its tangents, whose slopes are
/// differences of `psi`.
pub open spec fn is_log_beta(lg: spec_fn(real) -> real, psi: spec_fn(real) -> real) -> bool {
    forall|x: real, y: real, u: real, v: real|
        #![trigger log_beta(lg, x, y), log_beta(lg, u, v)]
        0real < x && 0real < y && 0real < u && 0real < v ==> log_beta(lg, x, y) + (psi(x) - psi(
            x + y,
        )) * (u - x) + (psi(y) - psi(x + y)) * (v - y) <= log_beta(lg, u, v)
}

/// The logarithm of the multivariate beta function lies above its tangents too: it
/// is a sum of those of two variables.
proof fn log_beta_of_many(
    lg: spec_fn(real) -> real,
    psi: spec_fn(real) -> real,
    n: int,
    q: spec_fn(int) -> real,
    p: spec_fn(int) -> real,
)
    requires
        is_log_beta(lg, psi),
        1 <= n,
        forall|i: int| 0 <= i < n ==> 0real < #[trigger] q(i),
        forall|i: int| 0 <= i < n ==> 0real < #[trigger] p(i),
    ensures
        0real < rsum(n, q),
        0real < rsum(n, p),
        rsum(n, |i: int| (p(i) - q(i)) * psi(q(i))) - (rsum(n, p) - rsum(n, q)) * psi(rsum(n, q))
            + rsum(n, |i: int| lg(q(i))) - lg(rsum(n, q)) <= rsum(n, |i: int| lg(p(i))) - lg(
            rsum(n, p),
        ),
    decreases n,
{
    let slope = |i: int| (p(i) - q(i)) * psi(q(i));
    let (gq, gp) = (|i: int| lg(q(i)), |i: int| lg(p(i)));
    let (y, v) = (q(n - 1), p(n - 1));
    let (x, u) = (rsum(n - 1, q), rsum(n - 1, p));
    assert(rsum(n, q) == x + y);
    assert(rsum(n, p) == u + v);
    assert(rsum(n, slope) == rsum(n - 1, slope) + slope(n - 1));
    assert(rsum(n, gq) == rsum(n - 1, gq) + lg(y));
    assert(rsum(n, gp) == rsum(n - 1, gp) + lg(v));
    if n > 1 {
        log_beta_of_many(lg, psi, n - 1, q, p);
        assert(log_beta(lg, x, y) + (psi(x) - psi(x + y)) * (u - x) + (psi(y) - psi(x + y)) * (v
            - y) <= log_beta(lg, u, v));
        let (px, py, ps) = (psi(x), psi(y), psi(x + y));
        assert((px - ps) * (u - x) + (py - ps) * (v - y) == (u - x) * px + (v - y) * py - ((u + v)
            - (x + y)) * ps) by (nonlinear_arith);
        let (a, b) = ((u - x) * px, (v - y) * py);
        assert(slope(n - 1) == b);
    } else {
        assert(x == 0real && u == 0real);
        assert(rsum(0, slope) == 0real);
        assert(rsum(0, gq) == 0real && rsum(0, gp) == 0real);
    }
}

/// A sum of products with differences, taken apart, with its errors.
proof fn slopes_apart(
    n: int,
    q: spec_fn(int) -> real,
    p: spec_fn(int) -> real,
    psi: spec_fn(real) -> real,
    c: real,
    e: real,
)
    ensures
        rsum(n, |i: int| (q(i) - p(i)) * (psi(q(i)) - c) - e * gap(q(i), p(i))) == (rsum(n, p)
            - rsum(n, q)) * c - rsum(n, |i: int| (p(i) - q(i)) * psi(q(i))) - e * rsum(
            n,
            |i: int| gap(q(i), p(i)),
        ),
    decreases n,
{
    let f = |i: int| (q(i) - p(i)) * (psi(q(i)) - c) - e * gap(q(i), p(i));
    let slope = |i: int| (p(i) - q(i)) * psi(q(i));
    let g = |i: int| gap(q(i), p(i));
    if n > 0 {
        slopes_apart(n - 1, q, p, psi, c, e);
        let (a, b, d, k) = (q(n - 1), p(n - 1), psi(q(n - 1)), g(n - 1));
        let (sp, sq, sg) = (rsum(n - 1, p), rsum(n - 1, q), rsum(n - 1, g));
        assert((a - b) * (d - c) - e * k == (b - a) * c - (b - a) * d - e * k) by (nonlinear_arith);
        assert(((sp + b) - (sq + a)) * c == (sp - sq) * c + (b - a) * c) by (nonlinear_arith);
        assert(e * (sg + k) == e * sg + e * k) by (nonlinear_arith);
        assert(rsum(n, f) == rsum(n - 1, f) + f(n - 1));
        assert(rsum(n, slope) == rsum(n - 1, slope) + slope(n - 1));
        assert(rsum(n, g) == rsum(n - 1, g) + g(n - 1));
    } else {
        assert(0real * c == 0real) by (nonlinear_arith);
        assert(e * 0real == 0real) by (nonlinear_arith);
        assert(rsum(n, p) == 0real && rsum(n, q) == 0real);
    }
}

/// The divergence of two Dirichlet distributions is not negative, up to the errors
/// of the digamma values at the first concentrations and their sum.
pub proof fn dirichlet_divergence_not_negative<T: Scalar>(
    rd: spec_fn(T) -> real,
    ln: spec_fn(real) -> real,
    lg: spec_fn(real) -> real,
    psi: spec_fn(real) -> real,
    e: real,
    q: Seq<T>,
    p: Seq<T>,
)
    requires
        reads_all(rd, ln, lg),
        is_log_beta(lg, psi),
        q.len() == p.len(),
        q.len() >= 1,
        forall|i: int| 0 <= i < q.len() ==> 0real < rd(#[trigger] q[i]),
        forall|i: int| 0 <= i < q.len() ==> 0real < rd(#[trigger] p[i]),
        forall|i: int| 0 <= i < q.len() ==> digamma_within(rd, psi, #[trigger] q[i], e),
        digamma_within(rd, psi, total(q), e),
    ensures
        0real <= rd(dirichlet_divergence(q, p)) + 2real * e * rsum(
            q.len() as int,
            |i: int| gap(rd(q[i]), rd(p[i])),
        ),
{
    let n = q.len() as int;
    let (x, y) = (|i: int| rd(q[i]), |i: int| rd(p[i]));
    let (f, g) = (|i: int| q[i], |i: int| p[i]);
    read_all_lanes(rd, ln, lg, n, f);
    read_all_lanes(rd, ln, lg, n, g);
    rsum_ext(n, |i: int| rd(f(i)), x);
    rsum_ext(n, |i: int| rd(g(i)), y);
    assert(rd(total(q)) == rsum(n, x));
    assert(rd(total(p)) == rsum(n, y));
    log_beta_of_many(lg, psi, n, x, y);
    let gammas = |i: int| q[i].s_ln_gamma().s_minus(p[i].s_ln_gamma());
    let dg = digamma_of(total(q));
    let slopes = |i: int| q[i].s_minus(p[i]).s_times(digamma_of(q[i]).s_minus(dg));
    read_all_sigma(rd, ln, lg, n, gammas);
    read_all_sigma(rd, ln, lg, n, slopes);
    let (gx, gy) = (|i: int| lg(x(i)), |i: int| lg(y(i)));
    let minus_gy = |i: int| gy(i) * (-1real);
    reveal(reads_all);
    assert forall|i: int| 0 <= i < n implies #[trigger] rd(gammas(i)) == gx(i) + minus_gy(i) by {
        assert(0real < rd(q[i]) && 0real < rd(p[i]));
        let z = gy(i);
        assert(z * (-1real) == -z) by (nonlinear_arith);
    }
    rsum_ext(n, |i: int| rd(gammas(i)), |i: int| gx(i) + minus_gy(i));
    rsum_add(n, gx, minus_gy);
    rsum_scale(n, gy, -1real);
    let sy = rsum(n, gy);
    assert(sy * (-1real) == -sy) by (nonlinear_arith);
    let c = psi(rsum(n, x));
    let e2 = 2real * e;
    let lower = |i: int| (x(i) - y(i)) * (psi(x(i)) - c) - e2 * gap(x(i), y(i));
    let read = |i: int| rd(slopes(i));
    assert forall|i: int| 0 <= i < n implies #[trigger] lower(i) <= read(i) by {
        assert(digamma_within(rd, psi, q[i], e));
        error_term(x(i), y(i), rd(digamma_of(q[i])) - rd(dg), psi(x(i)) - c, e2);
    }
    rsum_le(n, lower, read);
    slopes_apart(n, x, y, psi, c, e2);
    rsum_ext(n, |i: int| gap(x(i), y(i)), |i: int| gap(rd(q[i]), rd(p[i])));
    let (a, b) = (total(q), total(p));
    assert(rd(dirichlet_divergence(q, p)) == lg(rd(a)) - lg(rd(b)) - rd(sigma(n, gammas)) + rd(
        sigma(n, slopes),
    ));
}

/// The values `spectrum` are positive, sum to `trace`, and their logarithms to
/// `log_det`: as the eigenvalues of a matrix with that trace and log-determinant.
pub open spec fn has_spectrum(
    ln: spec_fn(real) -> real,
    n: int,
    spectrum: spec_fn(int) -> real,
    trace: real,
    log_det: real,
) -> bool {
    &&& forall|i: int| 0 <= i < n ==> 0real < #[trigger] spectrum(i)
    &&& rsum(n, spectrum) == trace
    &&& rsum(n, |i: int| ln(spectrum(i))) == log_det
}

proof fn spectrum_minus_ones(n: int, f: spec_fn(int) -> real)
    requires
        0 <= n,
    ensures
        rsum(n, |i: int| f(i) - 1real) == rsum(n, f) - n as real,
    decreases n,
{
    if n > 0 {
        spectrum_minus_ones(n - 1, f);
    }
}

/// The divergence of two multivariate normals is not negative, where `spectrum` are
/// the eigenvalues of the precision of the second times the covariance of the
/// first, and the precision takes no difference of means below zero.
pub proof fn multivariate_divergence_not_negative<T: Dense>(
    rd: spec_fn(T) -> real,
    ln: spec_fn(real) -> real,
    lg: spec_fn(real) -> real,
    mean_q: Seq<T>,
    covar_q: Seq<Seq<T>>,
    mean_p: Seq<T>,
    covar_p: Seq<Seq<T>>,
    precision_p: Seq<Seq<T>>,
    spectrum: spec_fn(int) -> real,
)
    requires
        is_ln(ln),
        reads_all(rd, ln, lg),
        has_spectrum(
            ln,
            mean_q.len() as int,
            spectrum,
            rd(trace_of_product(precision_p, covar_q)),
            rd(log_determinant(covar_q)) - rd(log_determinant(covar_p)),
        ),
        0real <= rd(quadratic_form(precision_p, difference(mean_q, mean_p))),
    ensures
        0real <= rd(multivariate_divergence(mean_q, covar_q, mean_p, covar_p, precision_p)),
{
    let n = mean_q.len() as int;
    let logs = |i: int| ln(spectrum(i));
    let tangents = |i: int| spectrum(i) - 1real;
    assert forall|i: int| 0 <= i < n implies #[trigger] logs(i) <= tangents(i) by {
        assert(0real < spectrum(i));
    }
    rsum_le(n, logs, tangents);
    spectrum_minus_ones(n, spectrum);
    reveal(reads_all);
    let half = dec::<T>(5, -1);
    let inner = log_determinant(covar_p).s_minus(log_determinant(covar_q)).s_plus(
        trace_of_product(precision_p, covar_q),
    ).s_plus(quadratic_form(precision_p, difference(mean_q, mean_p))).s_minus(num(n));
    assert(rd(num::<T>(n)) == n as real);
    assert(0real <= rd(inner));
    let (h, x) = (rd(half), rd(inner));
    assert(0real <= h * x) by (nonlinear_arith)
        requires
            2real * h == 1real,
            0real <= x,
    ;
}

/// Adding the same to both arguments of `b ln(b / a)` makes it smaller.
proof fn shifted_logs(ln: spec_fn(real) -> real, u: real, v: real, c: real)
    requires
        is_ln(ln),
        0real < u,
        0real < v,
        0real <= c,
    ensures
        (v + c) * (ln(v + c) - ln(u + c)) <= v * (ln(v) - ln(u)),
{
    let (a, b) = (u + c, v + c);
    ln_of_quotient(ln, b, a);
    let r = b / a;
    let w = r * u;
    assert(0real < w) by (nonlinear_arith)
        requires
            0real < r,
            0real < u,
            w == r * u,
    ;
    assert(ln(r * u) == ln(r) + ln(u));
    ln_of_quotient(ln, w, v);
    let s = w / v;
    assert(ln(s) <= s - 1real);
    assert(ln(r) <= r - 1real);
    let (lr, lu, lv) = (ln(r), ln(u), ln(v));
    assert((v + c) * lr <= v * (lv - lu)) by (nonlinear_arith)
        requires
            lr + lu - lv <= s - 1real,
            lr <= r - 1real,
            s * v == r * u,
            r * (u + c) == v + c,
            0real < v,
            0real <= c,
    ;
}

/// What one dimension adds to the divergence of two Wishart distributions is not
/// negative, up to the error of the digamma value.
proof fn wishart_term(
    ln: spec_fn(real) -> real,
    lg: spec_fn(real) -> real,
    psi: spec_fn(real) -> real,
    a: real,
    b: real,
    c: real,
    t: real,
    d: real,
    e: real,
)
    requires
        is_ln(ln),
        is_log_gamma(ln, lg, psi),
        0real <= c,
        c < a,
        c < b,
        0real < t,
        psi(a - c) - e <= d <= psi(a - c) + e,
    ensures
        0real <= (a - b) * d - b * ln(t) + a * (t - 1real) + lg(b - c) - lg(a - c) + e * gap(a, b),
{
    let (u, v) = (a - c, b - c);
    scale_term(ln, a, b, t);
    shifted_logs(ln, u, v, c);
    error_term(a, b, d, psi(u), e);
    let (la, lb, lu, lv, gu, gv, pu) = (ln(a), ln(b), ln(u), ln(v), lg(u), lg(v), psi(u));
    assert(u + c == a && v + c == b);
    assert(gu - u * lu + u + (pu - lu) * (v - u) <= gv - v * lv + v);
    assert(gv - gu + (a - b) * pu >= v * (lv - lu) - (b - a)) by (nonlinear_arith)
        requires
            gu - u * lu + u + (pu - lu) * (v - u) <= gv - v * lv + v,
            v - u == b - a,
    ;
}

/// Factors can be taken out of the sums over the dimensions.
proof fn dimensions_apart(
    n: int,
    dg: spec_fn(int) -> real,
    logs: spec_fn(int) -> real,
    t: spec_fn(int) -> real,
    gp: spec_fn(int) -> real,
    gq: spec_fn(int) -> real,
    a: real,
    b: real,
    k: real,
)
    requires
        0 <= n,
    ensures
        rsum(
            n,
            |i: int| (a - b) * dg(i) - b * logs(i) + a * (t(i) - 1real) + gp(i) - gq(i) + k,
        ) == (a - b) * rsum(n, dg) - b * rsum(n, logs) + a * (rsum(n, t) - n as real) + rsum(n, gp)
            - rsum(n, gq) + k * n as real,
    decreases n,
{
    let f = |i: int| (a - b) * dg(i) - b * logs(i) + a * (t(i) - 1real) + gp(i) - gq(i) + k;
    if n > 0 {
        dimensions_apart(n - 1, dg, logs, t, gp, gq, a, b, k);
        let (d1, l1, t1) = (dg(n - 1), logs(n - 1), t(n - 1));
        let (d0, l0, t0) = (rsum(n - 1, dg), rsum(n - 1, logs), rsum(n - 1, t));
        let m = (n - 1) as real;
        assert((a - b) * (d0 + d1) == (a - b) * d0 + (a - b) * d1) by (nonlinear_arith);
        assert(b * (l0 + l1) == b * l0 + b * l1) by (nonlinear_arith);
        assert(a * ((t0 + t1) - (m + 1real)) == a * (t0 - m) + a * (t1 - 1real))
            by (nonlinear_arith);
        assert(k * (m + 1real) == k * m + k) by (nonlinear_arith);
        assert(n as real == m + 1real);
        assert(rsum(n, f) == rsum(n - 1, f) + f(n - 1));
    } else {
        assert(n as real == 0real);
        assert((a - b) * 0real == 0real) by (nonlinear_arith);
        assert(b * 0real == 0real) by (nonlinear_arith);
        assert(a * 0real == 0real) by (nonlinear_arith);
        assert(k * 0real == 0real) by (nonlinear_arith);
    }
}

/// Half the degrees of freedom less the dimension, read.
proof fn half_reads<T: Scalar>(
    rd: spec_fn(T) -> real,
    ln: spec_fn(real) -> real,
    lg: spec_fn(real) -> real,
    dof: T,
    i: int,
)
    requires
        reads_all(rd, ln, lg),
    ensures
        rd(dof.s_over(num(2))) * 2real == rd(dof),
        rd(dof.s_minus(num(i)).s_over(num(2))) == rd(dof.s_over(num(2))) - i as real / 2real,
{
    reveal(reads_all);
    let two = num::<T>(2);
    assert(rd(two) == 2real);
    let v = dof.s_minus(num(i));
    assert(rd(v) == rd(dof) - i as real);
    assert(rd(dof.s_over(two)) * rd(two) == rd(dof));
    assert(rd(v.s_over(two)) * rd(two) == rd(v));
}

/// The divergence of two Wishart distributions, read.
proof fn wishart_reads<T: Dense>(
    rd: spec_fn(T) -> real,
    ln: spec_fn(real) -> real,
    lg: spec_fn(real) -> real,
    dof_q: T,
    scale_q: Seq<Seq<T>>,
    dof_p: T,
    scale_p: Seq<Seq<T>>,
    inverse_q: Seq<Seq<T>>,
    dg: spec_fn(int) -> T,
    gq: spec_fn(int) -> T,
    gp: spec_fn(int) -> T,
)
    requires
        reads_all(rd, ln, lg),
        scale_q.len() == scale_p.len(),
        dg == (|i: int| digamma_of(dof_q.s_minus(num(i)).s_over(num(2)))),
        gq == (|i: int| dof_q.s_minus(num(i)).s_over(num(2)).s_ln_gamma()),
        gp == (|i: int| dof_p.s_minus(num(i)).s_over(num(2)).s_ln_gamma()),
    ensures
        ({
            let n = scale_p.len() as int;
            let (a, b) = (rd(dof_q.s_over(num(2))), rd(dof_p.s_over(num(2))));
            let trace = rd(trace_of_product(scale_p, inverse_q));
            let log_det = rd(log_determinant(halved(scale_p))) - rd(
                log_determinant(halved(scale_q)),
            );
            rd(wishart_divergence(dof_q, scale_q, dof_p, scale_p, inverse_q)) == (a - b) * rd(
                sigma(n, dg),
            ) - b * log_det + a * (trace - n as real) + rd(sigma(n, gp)) - rd(sigma(n, gq))
        }),
{
    let n = scale_p.len() as int;
    let two = num::<T>(2);
    let d = num::<T>(n);
    half_reads(rd, ln, lg, dof_q, 0);
    half_reads(rd, ln, lg, dof_p, 0);
    reveal(reads_all);
    let (a, b) = (rd(dof_q.s_over(two)), rd(dof_p.s_over(two)));
    let trace = rd(trace_of_product(scale_p, inverse_q));
    let (lq, lp) = (
        rd(log_determinant(halved(scale_q))),
        rd(log_determinant(halved(scale_p))),
    );
    let m = n as real;
    assert(rd(two) == 2real);
    assert(rd(num::<T>(-1)) == -1real);
    assert(rd(d) == m);
    let sd = rd(sigma(n, dg));
    let neg = negative(log_determinant(halved(scale_q)));
    assert(rd(neg) == -lq) by {
        assert(rd(neg) == lq * (-1real));
        assert(lq * (-1real) == -lq) by (nonlinear_arith);
    }
    let half_gap = dof_q.s_minus(dof_p).s_over(two);
    assert(rd(half_gap) * 2real == rd(dof_q) - rd(dof_p));
    assert(rd(half_gap) == a - b);
    let expectation = wishart_expectation(dof_q, scale_q);
    assert(expectation == neg.s_plus(sigma(n, dg)));
    assert(rd(expectation) == -lq + sd);
    let half_dim = d.s_times(dof_q).s_over(two);
    assert(rd(half_dim) * 2real == m * rd(dof_q));
    let x = rd(half_dim);
    let nu = rd(dof_q);
    assert(x == a * m) by (nonlinear_arith)
        requires
            x * 2real == m * nu,
            a * 2real == nu,
    ;
    let lead = d.s_times(d.s_minus(num(1))).s_over(num(4)).s_times(T::s_pi().s_ln());
    let (zq, zp) = (wishart_normalizer(dof_q, scale_q), wishart_normalizer(dof_p, scale_p));
    let (hq, hp) = (
        dof_q.s_over(two).s_times(log_determinant(halved(scale_q))),
        dof_p.s_over(two).s_times(log_determinant(halved(scale_p))),
    );
    assert(zq == lead.s_minus(hq).s_plus(sigma(n, gq)));
    assert(zp == lead.s_minus(hp).s_plus(sigma(n, gp)));
    assert(rd(hq) == a * lq && rd(hp) == b * lp);
    let first = half_gap.s_times(expectation);
    assert(rd(first) == (a - b) * (-lq + sd));
    let part = dof_q.s_over(two).s_times(trace_of_product(scale_p, inverse_q));
    assert(rd(part) == a * trace);
    assert(wishart_divergence(dof_q, scale_q, dof_p, scale_p, inverse_q) == first.s_minus(
        half_dim,
    ).s_plus(part).s_plus(zp).s_minus(zq));
    assert((a - b) * (-lq + sd) - a * m + a * trace - b * lp + a * lq == (a - b) * sd - b * (lp
        - lq) + a * (trace - m)) by (nonlinear_arith);
}

/// The divergence of two Wishart distributions is not negative, up to the errors of
/// the digamma values, where `spectrum` are the eigenvalues of the scale of the
/// second times the inverse scale of the first.
pub proof fn wishart_divergence_not_negative<T: Dense>(
    rd: spec_fn(T) -> real,
    ln: spec_fn(real) -> real,
    lg: spec_fn(real) -> real,
    psi: spec_fn(real) -> real,
    e: real,
    dof_q: T,
    scale_q: Seq<Seq<T>>,
    dof_p: T,
    scale_p: Seq<Seq<T>>,
    inverse_q: Seq<Seq<T>>,
    spectrum: spec_fn(int) -> real,
)
    requires
        is_ln(ln),
        reads_all(rd, ln, lg),
        is_log_gamma(ln, lg, psi),
        scale_q.len() == scale_p.len(),
        forall|i: int|
            0 <= i < scale_p.len() ==> digamma_within(
                rd,
                psi,
                #[trigger] dof_q.s_minus(num(i)).s_over(num(2)),
                e,
            ),
        scale_p.len() as real - 1real < rd(dof_q),
        scale_p.len() as real - 1real < rd(dof_p),
        has_spectrum(
            ln,
            scale_p.len() as int,
            spectrum,
            rd(trace_of_product(scale_p, inverse_q)),
            rd(log_determinant(halved(scale_p))) - rd(log_determinant(halved(scale_q))),
        ),
    ensures
        0real <= 2real * rd(wishart_divergence(dof_q, scale_q, dof_p, scale_p, inverse_q)) + e
            * gap(rd(dof_q), rd(dof_p)) * scale_p.len() as real,
{
    let n = scale_p.len() as int;
    let two = num::<T>(2);
    let dg = |i: int| digamma_of(dof_q.s_minus(num(i)).s_over(num(2)));
    let gq = |i: int| dof_q.s_minus(num(i)).s_over(num(2)).s_ln_gamma();
    let gp = |i: int| dof_p.s_minus(num(i)).s_over(num(2)).s_ln_gamma();
    wishart_reads(rd, ln, lg, dof_q, scale_q, dof_p, scale_p, inverse_q, dg, gq, gp);
    read_all_sigma(rd, ln, lg, n, dg);
    read_all_sigma(rd, ln, lg, n, gq);
    read_all_sigma(rd, ln, lg, n, gp);
    let (a, b) = (rd(dof_q.s_over(two)), rd(dof_p.s_over(two)));
    let k = e * gap(a, b);
    let (rdg, rgq, rgp) = (|i: int| rd(dg(i)), |i: int| rd(gq(i)), |i: int| rd(gp(i)));
    let logs = |i: int| ln(spectrum(i));
    let f = |i: int|
        (a - b) * rdg(i) - b * logs(i) + a * (spectrum(i) - 1real) + rgp(i) - rgq(i) + k;
    assert forall|i: int| 0 <= i < n implies 0real <= #[trigger] f(i) by {
        half_reads(rd, ln, lg, dof_q, i);
        half_reads(rd, ln, lg, dof_p, i);
        assert(i as real <= n as real - 1real);
        let c = i as real / 2real;
        assert(digamma_within(rd, psi, dof_q.s_minus(num(i)).s_over(num(2)), e));
        reveal(reads_all);
        assert(rgq(i) == lg(a - c));
        assert(rgp(i) == lg(b - c));
        wishart_term(ln, lg, psi, a, b, c, spectrum(i), rdg(i), e);
    }
    dimensions_apart(n, rdg, logs, spectrum, rgp, rgq, a, b, k);
    let zero = |i: int| 0real;
    rsum_le(n, zero, f);
    rsum_zero(n, zero);
    half_reads(rd, ln, lg, dof_q, 0);
    half_reads(rd, ln, lg, dof_p, 0);
    let (w, m) = (gap(rd(dof_q), rd(dof_p)), n as real);
    assert(2real * gap(a, b) == w);
    let h = gap(a, b);
    assert(2real * (e * h * m) == e * w * m) by (nonlinear_arith)
        requires
            2real * h == w,
    ;
}

} // verus!
