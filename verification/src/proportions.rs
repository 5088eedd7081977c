//! What log-normalisation makes of logarithms, where arithmetic is exact.

use crate::engine::agreement::{
    exact_logs, log_constants, log_subtracted, log_sum_is_log_of_sum, shares_sum_to_one,
};
use crate::exact::exact_numbers;
use crate::matrix::Matrix;
use crate::scalar::{num, sigma, sigma_ext, Scalar};
use crate::special::log_sum_exp;
use crate::util::log_normalized_at;
use vstd::prelude::*;

verus! {

/// Log-normalised along its rows, a row of at least two logarithms is that of shares: an
/// entry's exponential times the sum of all exponentials of the row is its own before,
/// and the exponentials sum to 1. A row of one entry becomes 0.
pub proof fn log_normalized_row<T: Scalar>(
    p: Set<T>,
    l: Set<T>,
    a: &Matrix<T>,
    i: int,
    j: int,
)
    requires
        exact_numbers(p),
        exact_logs(p, l),
        a.wf(),
        0 <= i < a.rows.len(),
        0 <= j < a.ncols,
        forall|k: int| 0 <= k < a.ncols ==> l.contains(#[trigger] a.at(i, k)),
        log_sum_exp(a.row_view(i)) != T::s_neg_inf(),
    ensures
        a.ncols == 1 ==> log_normalized_at(a, 1, i, j) == num::<T>(0),
        a.ncols > 1 ==> {
            &&& log_normalized_at(a, 1, i, j).s_exp().s_times(
                sigma(a.ncols as int, |k: int| a.at(i, k).s_exp()),
            ) == a.at(i, j).s_exp()
            &&& sigma(a.ncols as int, |k: int| log_normalized_at(a, 1, i, k).s_exp()) == num::<T>(1)
        },
{
    let n = a.ncols as int;
    let s = a.row_view(i);
    assert(s.len() == n);
    assert forall|k: int| 0 <= k < s.len() implies l.contains(#[trigger] s[k]) by {
        assert(a.at(i, k) == s[k]);
    }
    normalized_logs(p, l, s, j);
    sigma_ext(n, |k: int| s[k].s_exp(), |k: int| a.at(i, k).s_exp());
    if n > 1 {
        sigma_ext(
            n,
            |k: int| s[k].s_minus(log_sum_exp(s)).s_exp(),
            |k: int| log_normalized_at(a, 1, i, k).s_exp(),
        );
    }
}

/// Log-normalised along its columns, a column of at least two logarithms is that of
/// shares; a column of one entry becomes 0.
pub proof fn log_normalized_column<T: Scalar>(
    p: Set<T>,
    l: Set<T>,
    a: &Matrix<T>,
    i: int,
    j: int,
)
    requires
        exact_numbers(p),
        exact_logs(p, l),
        a.wf(),
        0 <= i < a.rows.len(),
        0 <= j < a.ncols,
        forall|k: int| 0 <= k < a.rows.len() ==> l.contains(#[trigger] a.at(k, j)),
        log_sum_exp(a.col_view(j)) != T::s_neg_inf(),
    ensures
        a.rows.len() == 1 ==> log_normalized_at(a, 0, i, j) == num::<T>(0),
        a.rows.len() > 1 ==> {
            &&& log_normalized_at(a, 0, i, j).s_exp().s_times(
                sigma(a.rows.len() as int, |k: int| a.at(k, j).s_exp()),
            ) == a.at(i, j).s_exp()
            &&& sigma(a.rows.len() as int, |k: int| log_normalized_at(a, 0, k, j).s_exp())
                == num::<T>(1)
        },
{
    let n = a.rows.len() as int;
    let s = a.col_view(j);
    assert(s.len() == n);
    assert forall|k: int| 0 <= k < s.len() implies l.contains(#[trigger] s[k]) by {
        assert(a.at(k, j) == s[k]);
    }
    normalized_logs(p, l, s, i);
    sigma_ext(n, |k: int| s[k].s_exp(), |k: int| a.at(k, j).s_exp());
    if n > 1 {
        sigma_ext(
            n,
            |k: int| s[k].s_minus(log_sum_exp(s)).s_exp(),
            |k: int| log_normalized_at(a, 0, k, j).s_exp(),
        );
    }
}

proof fn normalized_logs<T: Scalar>(p: Set<T>, l: Set<T>, s: Seq<T>, j: int)
    requires
        exact_numbers(p),
        exact_logs(p, l),
        0 <= j < s.len(),
        forall|k: int| 0 <= k < s.len() ==> l.contains(#[trigger] s[k]),
        log_sum_exp(s) != T::s_neg_inf(),
    ensures
        s[j].s_minus(log_sum_exp(s)).s_exp().s_times(
            sigma(s.len() as int, |k: int| s[k].s_exp()),
        ) == s[j].s_exp(),
        sigma(s.len() as int, |k: int| s[k].s_minus(log_sum_exp(s)).s_exp()) == num::<T>(1),
{
    log_sum_is_log_of_sum(p, l, s);
    shares_sum_to_one(p, l, s);
    log_constants(p, l);
    assert(l.contains(s[j]));
    log_subtracted(p, l, s[j], log_sum_exp(s));
}

} // verus!
