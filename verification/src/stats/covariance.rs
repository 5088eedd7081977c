//! The sample covariance.

use crate::matrix::{col_sum, col_total, tabulate, Matrix};
use crate::scalar::{count, larger, larger_of, num, one, sigma, sum_of, Scalar};
use vstd::prelude::*;

verus! {

/// The mean of column `j`.
pub open spec fn col_mean<T: Scalar>(x: &Matrix<T>, j: int) -> T {
    col_total(x, j).s_over(num(x.rows.len() as int))
}

/// The covariance of columns `i` and `j`, with divisor `max(n - 1, 1)`.
pub open spec fn covariance_at<T: Scalar>(x: &Matrix<T>, i: int, j: int) -> T {
    sigma(
        x.rows.len() as int,
        |t: int|
            x.at(t, i).s_minus(col_mean(x, i)).s_times(x.at(t, j).s_minus(col_mean(x, j))),
    ).s_over(larger_of(num::<T>(x.rows.len() as int).s_minus(num(1)), num(1)))
}

/// Sample covariance of the features: rows of `x` are observations, columns are
/// variables. A single observation yields zeros, not a division by zero.
pub fn sample_covariance<T: Scalar>(x: &Matrix<T>) -> (r: Matrix<T>)
    requires
        x.wf(),
        x.rows.len() >= 1,
    ensures
        r.has_dims(x.ncols as int, x.ncols as int),
        forall|i: int, j: int|
            0 <= i < x.ncols && 0 <= j < x.ncols ==> #[trigger] r.at(i, j) == covariance_at(x, i, j),
{
    let ns: usize = x.rows.len();
    let nf: usize = x.ncols;
    let m = |j: usize| -> (v: T)
        requires
            x.wf(),
            j < x.ncols,
        ensures
            v == col_mean(x, j as int),
    {
        col_sum(x, j).over(count(x.rows.len()))
    };
    let mean = tabulate(nf, m);
    let denom = larger(count::<T>(ns).minus(one()), one());
    let f = |i: usize, j: usize| -> (v: T)
        requires
            x.wf(),
            i < nf,
            j < nf,
            nf == x.ncols,
            mean.len() == nf,
            forall|k: int| 0 <= k < nf ==> #[trigger] mean@[k] == col_mean(x, k),
            denom == larger_of(num::<T>(x.rows.len() as int).s_minus(num(1)), num(1)),
        ensures
            v == covariance_at(x, i as int, j as int),
    {
        centred_products(x, i, j, mean[i], mean[j]).over(denom)
    };
    Matrix::tabulate(nf, nf, f)
}

fn centred_products<T: Scalar>(x: &Matrix<T>, i: usize, j: usize, mi: T, mj: T) -> (s: T)
    requires
        x.wf(),
        i < x.ncols,
        j < x.ncols,
        mi == col_mean(x, i as int),
        mj == col_mean(x, j as int),
    ensures
        s == sigma(
            x.rows.len() as int,
            |t: int|
                x.at(t, i as int).s_minus(col_mean(x, i as int)).s_times(
                    x.at(t, j as int).s_minus(col_mean(x, j as int)),
                ),
        ),
{
    let f = |t: usize| -> (v: T)
        requires
            x.wf(),
            t < x.rows.len(),
            i < x.ncols,
            j < x.ncols,
        ensures
            v == x.at(t as int, i as int).s_minus(mi).s_times(x.at(t as int, j as int).s_minus(mj)),
    {
        x.get(t, i).minus(mi).times(x.get(t, j).minus(mj))
    };
    sum_of(
        x.rows.len(),
        f,
        Ghost(
            |t: int|
                x.at(t, i as int).s_minus(col_mean(x, i as int)).s_times(
                    x.at(t, j as int).s_minus(col_mean(x, j as int)),
                ),
        ),
    )
}

} // verus!
