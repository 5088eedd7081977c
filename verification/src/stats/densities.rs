//! What the Gaussian log-densities are, where arithmetic is exact.

use crate::covariance::store::CovarStore;
use crate::linalg::{forward_substitution, log_diagonal, substituted, Dense};
use crate::matrix::Matrix;
use crate::reading::{halves, real_sigma, real_sums, reads_real};
use crate::reals::{associates, cancels, commutes, rsum, rsum_ext};
use crate::scalar::{dec, num, sigma, Scalar};
use crate::stats::mvn::{floored, half_sum, jittered, log_density_at, log_two_pi};
use vstd::prelude::*;

verus! {

/// The variance that diagonal or spherical covariances keep for feature `f` of state `c`.
pub open spec fn kept_variance<T: Scalar>(store: &CovarStore<T>, c: int, f: int) -> T {
    match store {
        CovarStore::Diag(m) => m.at(c, f),
        CovarStore::Spherical(v) => v@[c],
        _ => num(0),
    }
}

/// The deviation of feature `f` of row `t` from the mean of state `c`.
pub open spec fn off_mean<T: Scalar>(
    rd: spec_fn(T) -> real,
    x: &Matrix<T>,
    means: &Matrix<T>,
    t: int,
    c: int,
    f: int,
) -> real {
    rd(x.at(t, f)) - rd(means.at(c, f))
}

/// Twice a negative half sum is the sum, negated.
proof fn half_sum_reads<T: Scalar>(rd: spec_fn(T) -> real, n: int, a: T, b: T)
    requires
        reads_real(rd),
    ensures
        2real * rd(half_sum(n, a, b)) + n as real * rd(num::<T>(2).s_times(T::s_pi()).s_ln()) + rd(
            a,
        ) + rd(b) == 0real,
{
    halves(rd);
    reveal(reads_real);
    let h = rd(dec::<T>(-5, -1));
    let whole = num::<T>(n).s_times(log_two_pi()).s_plus(a).s_plus(b);
    assert(rd(num::<T>(n)) == n as real);
    let w = rd(whole);
    associates(2real, h, w);
    assert((2real * h) * w == -w);
}

/// The log-density under independent features: minus twice it is `ln(2 pi)` for every
/// feature, the logarithms of the variances of the state, and the squared deviations
/// from the mean of the state, each over its own variance.
pub proof fn independent_density<T: Dense>(
    rd: spec_fn(T) -> real,
    x: &Matrix<T>,
    means: &Matrix<T>,
    store: &CovarStore<T>,
    t: int,
    c: int,
    q: spec_fn(int) -> real,
)
    requires
        reads_real(rd),
        store is Diag || store is Spherical,
        forall|f: int|
            0 <= f < means.ncols ==> {
                let v = #[trigger] kept_variance(store, c, f);
                &&& dec::<T>(22250738585072014, -324).s_below(v)
                &&& rd(v) != 0real
                &&& q(f) * rd(v) == off_mean(rd, x, means, t, c, f) * off_mean(
                    rd,
                    x,
                    means,
                    t,
                    c,
                    f,
                )
            },
    ensures
        2real * rd(log_density_at(x, means, store, t, c)) + means.ncols as real * rd(
            num::<T>(2).s_times(T::s_pi()).s_ln(),
        ) + rsum(means.ncols as int, |f: int| rd(kept_variance(store, c, f).s_ln())) + rsum(
            means.ncols as int,
            q,
        ) == 0real,
{
    let n = means.ncols as int;
    let var = match store {
        CovarStore::Diag(m) => |f: int| m.at(c, f),
        CovarStore::Spherical(v) => |f: int| v@[c],
        _ => |f: int| num::<T>(0),
    };
    let logs = |f: int| floored(var(f)).s_ln();
    let squares = |f: int|
        x.at(t, f).s_minus(means.at(c, f)).s_times(x.at(t, f).s_minus(means.at(c, f))).s_over(
            floored(var(f)),
        );
    half_sum_reads(rd, n, sigma(n, logs), sigma(n, squares));
    real_sums(rd);
    real_sigma(rd, n, logs);
    real_sigma(rd, n, squares);
    let (a, b) = (|f: int| rd(logs(f)), |f: int| rd(kept_variance(store, c, f).s_ln()));
    let d = |f: int| rd(squares(f));
    assert forall|f: int| 0 <= f < n implies #[trigger] a(f) == b(f) by {
        assert(kept_variance(store, c, f) == var(f));
    }
    assert forall|f: int| 0 <= f < n implies #[trigger] d(f) == q(f) by {
        let v = kept_variance(store, c, f);
        assert(v == var(f));
        assert(floored(v) == v);
        reveal(reads_real);
        assert(d(f) * rd(v) == q(f) * rd(v));
        cancels(d(f), q(f), rd(v));
    }
    rsum_ext(n, a, b);
    rsum_ext(n, d, q);
    assert(log_density_at(x, means, store, t, c) == half_sum(n, sigma(n, logs), sigma(n, squares)));
}

/// What is left of a right-hand side once the solved terms are taken off.
proof fn taken_off<T: Scalar>(
    rd: spec_fn(T) -> real,
    l: Seq<Seq<T>>,
    b: spec_fn(int) -> T,
    y: spec_fn(int) -> real,
    i: int,
    k: int,
)
    requires
        reads_real(rd),
        0 <= k <= i,
        forall|j: int| 0 <= j < k ==> rd(#[trigger] forward_substitution(l, b, j)) == y(j),
    ensures
        rd(substituted(l, b, i, k)) == rd(b(i)) - rsum(k, |j: int| rd(l[i][j]) * y(j)),
    decreases k,
{
    if k > 0 {
        taken_off(rd, l, b, y, i, k - 1);
        reveal(reads_real);
        assert(rd(forward_substitution(l, b, k - 1)) == y(k - 1));
    }
}

/// Forward substitution finds the one solution of a lower-triangular system.
proof fn solved_upto<T: Scalar>(
    rd: spec_fn(T) -> real,
    l: Seq<Seq<T>>,
    b: spec_fn(int) -> T,
    y: spec_fn(int) -> real,
    n: int,
)
    requires
        reads_real(rd),
        forall|i: int|
            0 <= i < n ==> rd(#[trigger] l[i][i]) != 0real && rsum(
                i + 1,
                |j: int| rd(l[i][j]) * y(j),
            ) == rd(b(i)),
    ensures
        forall|i: int| 0 <= i < n ==> rd(#[trigger] forward_substitution(l, b, i)) == y(i),
    decreases n,
{
    if n > 0 {
        solved_upto(rd, l, b, y, n - 1);
        let i = n - 1;
        taken_off(rd, l, b, y, i, i);
        let d = rd(l[i][i]);
        let f = |j: int| rd(l[i][j]) * y(j);
        assert(rsum(i + 1, f) == rsum(i, f) + d * y(i));
        let z = rd(forward_substitution(l, b, i));
        assert(z * d == rd(b(i)) - rsum(i, f)) by {
            reveal(reads_real);
        }
        commutes(d, y(i));
        cancels(z, y(i), d);
    }
}

/// The covariance matrix that full or tied covariances keep for state `c`.
pub open spec fn kept_block<T: Scalar>(store: &CovarStore<T>, c: int) -> Seq<Seq<T>> {
    match store {
        CovarStore::Full(m) => m.items@[c]@,
        CovarStore::Tied(m) => m@,
        _ => Seq::empty(),
    }
}

/// `j` is `cov` with `1e-7` added to every entry of the diagonal.
pub open spec fn nudged<T: Scalar>(cov: Seq<Seq<T>>, j: Seq<Seq<T>>) -> bool {
    &&& j.len() == cov.len()
    &&& forall|k: int| 0 <= k < cov.len() ==> (#[trigger] j[k]).len() == cov.len()
    &&& forall|k: int, l: int|
        0 <= k < cov.len() && 0 <= l < cov.len() ==> #[trigger] j[k][l] == if k == l {
            cov[k][l].s_plus(dec(1, -7))
        } else {
            cov[k][l]
        }
}

/// The log-density under a covariance matrix with Cholesky factor `l` (that of the
/// matrix with `1e-7` on the diagonal, where the matrix has none itself): minus twice it
/// is `ln(2 pi)` for every feature, twice the logarithms of the diagonal of `l`, and the
/// squared length of the `y` that `l` takes to the deviation from the mean of the state.
pub proof fn correlated_density<T: Dense>(
    rd: spec_fn(T) -> real,
    x: &Matrix<T>,
    means: &Matrix<T>,
    store: &CovarStore<T>,
    t: int,
    c: int,
    j: Seq<Seq<T>>,
    l: Seq<Seq<T>>,
    y: spec_fn(int) -> real,
)
    requires
        reads_real(rd),
        store is Full || store is Tied,
        nudged(kept_block(store, c), j),
        T::s_cholesky(kept_block(store, c)) == Some(l) || (T::s_cholesky(
            kept_block(store, c),
        ) is None && T::s_cholesky(j) == Some(l)),
        l.len() == means.ncols,
        forall|f: int|
            0 <= f < means.ncols ==> rd(#[trigger] l[f][f]) != 0real && rsum(
                f + 1,
                |k: int| rd(l[f][k]) * y(k),
            ) == off_mean(rd, x, means, t, c, f),
    ensures
        2real * rd(log_density_at(x, means, store, t, c)) + means.ncols as real * rd(
            num::<T>(2).s_times(T::s_pi()).s_ln(),
        ) + 2real * rsum(means.ncols as int, |f: int| rd(l[f][f].s_ln())) + rsum(
            means.ncols as int,
            |f: int| y(f) * y(f),
        ) == 0real,
{
    let n = means.ncols as int;
    let cov = kept_block(store, c);
    jitter_is(cov, j);
    let b = |k: int| x.at(t, k).s_minus(means.at(c, k));
    assert forall|f: int| 0 <= f < n implies rd(#[trigger] l[f][f]) != 0real && rsum(
        f + 1,
        |k: int| rd(l[f][k]) * y(k),
    ) == rd(b(f)) by {
        reveal(reads_real);
    }
    solved_upto(rd, l, b, y, n);
    let squares = |f: int|
        {
            let y = forward_substitution(l, b, f);
            y.s_times(y)
        };
    let logs = |f: int| l[f][f].s_ln();
    half_sum_reads(rd, n, sigma(n, squares), log_diagonal(l));
    real_sums(rd);
    real_sigma(rd, n, squares);
    real_sigma(rd, n, logs);
    let (a, d) = (|f: int| rd(squares(f)), |f: int| y(f) * y(f));
    assert forall|f: int| 0 <= f < n implies #[trigger] a(f) == d(f) by {
        reveal(reads_real);
        assert(rd(forward_substitution(l, b, f)) == y(f));
    }
    rsum_ext(n, a, d);
    rsum_ext(n, |f: int| rd(logs(f)), |f: int| rd(l[f][f].s_ln()));
    assert(rd(log_diagonal(l)) == 2real * rsum(n, |f: int| rd(l[f][f].s_ln()))) by {
        reveal(reads_real);
        assert(rd(num::<T>(2)) == 2real);
        assert(log_diagonal(l) == num::<T>(2).s_times(sigma(n, logs)));
    }
    assert(log_density_at(x, means, store, t, c) == half_sum(
        n,
        sigma(n, squares),
        log_diagonal(l),
    ));
}

proof fn jitter_is<T: Scalar>(cov: Seq<Seq<T>>, j: Seq<Seq<T>>)
    requires
        nudged(cov, j),
    ensures
        jittered(cov) == j,
{
    let a = jittered(cov);
    assert forall|k: int| 0 <= k < a.len() implies a[k] == j[k] by {
        assert(a[k].len() == j[k].len());
        assert forall|l: int| 0 <= l < a[k].len() implies a[k][l] == j[k][l] by {
            assert(j[k][l] == if k == l {
                cov[k][l].s_plus(dec(1, -7))
            } else {
                cov[k][l]
            });
        }
        assert(a[k] =~= j[k]);
    }
    assert(a =~= j);
}

/// Where the covariance matrix has no Cholesky factor, not even with `1e-7` on the
/// diagonal, no row has a density.
pub proof fn no_density_without_factor<T: Dense>(
    x: &Matrix<T>,
    means: &Matrix<T>,
    store: &CovarStore<T>,
    t: int,
    c: int,
    j: Seq<Seq<T>>,
)
    requires
        store is Full || store is Tied,
        nudged(kept_block(store, c), j),
        T::s_cholesky(kept_block(store, c)) is None,
        T::s_cholesky(j) is None,
    ensures
        log_density_at(x, means, store, t, c) == T::s_neg_inf(),
{
    jitter_is(kept_block(store, c), j);
}

} // verus!
