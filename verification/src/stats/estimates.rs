//! What the sample mean and covariance are, where arithmetic is exact.

use crate::matrix::{col_total, Matrix};
use crate::reading::{real_sigma, real_sums, reads_real};
use crate::reals::{rsum, rsum_ext};
use crate::scalar::{larger_of, num, sigma, Scalar};
use crate::stats::covariance::{col_mean, covariance_at};
use vstd::prelude::*;

verus! {

proof fn centred_sum(n: int, f: spec_fn(int) -> real, a: real)
    requires
        0 <= n,
    ensures
        rsum(n, |t: int| f(t) - a) == rsum(n, f) - a * n as real,
    decreases n,
{
    if n > 0 {
        centred_sum(n - 1, f, a);
        let k = (n - 1) as real;
        assert(n as real == k + 1real);
        assert(a * (k + 1real) == a * k + a) by (nonlinear_arith);
    } else {
        assert(a * 0real == 0real) by (nonlinear_arith);
    }
}

/// The mean of a column balances: the deviations of its entries add up to nothing.
pub proof fn column_mean_balances<T: Scalar>(rd: spec_fn(T) -> real, x: &Matrix<T>, j: int)
    requires
        reads_real(rd),
        x.rows.len() >= 1,
    ensures
        rsum(x.rows.len() as int, |t: int| rd(x.at(t, j)) - rd(col_mean(x, j))) == 0real,
{
    let n = x.rows.len() as int;
    let f = |t: int| x.at(t, j);
    let v = |t: int| rd(x.at(t, j));
    real_sums(rd);
    real_sigma(rd, n, f);
    rsum_ext(n, |t: int| rd(f(t)), v);
    let m = rd(col_mean(x, j));
    assert(m * n as real == rsum(n, v)) by {
        reveal(reads_real);
        assert(rd(num::<T>(n)) == n as real);
        assert(rd(col_total(x, j)) == rsum(n, v));
    }
    centred_sum(n, v, m);
    rsum_ext(n, |t: int| v(t) - m, |t: int| rd(x.at(t, j)) - rd(col_mean(x, j)));
}

/// The covariance of two columns of at least two rows, times the number of rows less
/// one, is the sum of the products of the deviations from their means; of fewer rows it
/// is that sum.
pub proof fn covariance_is_average_product<T: Scalar>(
    rd: spec_fn(T) -> real,
    x: &Matrix<T>,
    i: int,
    j: int,
)
    requires
        reads_real(rd),
    ensures
        rd(covariance_at(x, i, j)) * (if x.rows.len() >= 2 {
            x.rows.len() as real - 1real
        } else {
            1real
        }) == rsum(
            x.rows.len() as int,
            |t: int|
                (rd(x.at(t, i)) - rd(col_mean(x, i))) * (rd(x.at(t, j)) - rd(col_mean(x, j))),
        ),
{
    let n = x.rows.len() as int;
    let f = |t: int|
        x.at(t, i).s_minus(col_mean(x, i)).s_times(x.at(t, j).s_minus(col_mean(x, j)));
    let v = |t: int|
        (rd(x.at(t, i)) - rd(col_mean(x, i))) * (rd(x.at(t, j)) - rd(col_mean(x, j)));
    real_sums(rd);
    real_sigma(rd, n, f);
    reveal(reads_real);
    rsum_ext(n, |t: int| rd(f(t)), v);
    assert(rd(num::<T>(n)) == n as real);
    assert(rd(num::<T>(1)) == 1real);
    let divisor = larger_of(num::<T>(n).s_minus(num(1)), num(1));
    assert(rd(divisor) == if n >= 2 {
        n as real - 1real
    } else {
        1real
    });
    assert(covariance_at(x, i, j) == sigma(n, f).s_over(divisor));
}

} // verus!
