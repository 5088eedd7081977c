//! Array normalisation helpers and sequence splitting.

use crate::error::HmmError;
use crate::matrix::{col_sum, col_total, row_sum, row_total, Matrix};
use crate::scalar::{
    from_on, grown, grown_ext, lane, lanes, lanes_ext, num, one, paired_lanes, sigma, sigma_ext, sum, total, zero, Scalar,
};
use crate::special::{log_sum_exp, logsumexp};
use vstd::prelude::*;

verus! {

/// `s` with every entry divided by the sum of all; unchanged where that sum is
/// zero.
pub open spec fn normalized<T: Scalar>(s: Seq<T>) -> Seq<T> {
    if total(s).s_same(num(0)) {
        s
    } else {
        Seq::new(s.len(), |i: int| s[i].s_over(total(s)))
    }
}

/// Normalise a vector in place so that it sums to 1. A vector that sums to zero
/// is left unchanged.
pub fn normalize1<T: Scalar>(a: &mut Vec<T>)
    ensures
        final(a)@ == normalized(old(a)@),
{
    let ghost before = a@;
    let s = sum(a);
    if !s.same(zero()) {
        let mut i: usize = 0;
        while i < a.len()
            invariant
                i <= a.len(),
                a@.len() == before.len(),
                s == total(before),
                forall|k: int| 0 <= k < i ==> #[trigger] a@[k] == before[k].s_over(s),
                forall|k: int| i <= k < a@.len() ==> #[trigger] a@[k] == before[k],
            decreases a.len() - i,
        {
            let x = a[i].over(s);
            a.set(i, x);
            i += 1;
        }
        proof {
            assert(a@ =~= Seq::new(before.len(), |i: int| before[i].s_over(total(before))));
        }
    }
}

/// What the entries of a lane with sum `s` are divided by: `s`, or 1 where `s` is
/// zero.
pub open spec fn divisor<T: Scalar>(s: T) -> T {
    if s.s_same(num(0)) {
        num(1)
    } else {
        s
    }
}

fn guarded<T: Scalar>(s: T) -> (d: T)
    ensures
        d == divisor(s),
{
    if s.same(zero()) {
        one()
    } else {
        s
    }
}

/// Normalise a matrix in place so that it sums to 1 along `axis`: along axis 0
/// each column, along axis 1 each row. Lanes that sum to zero keep their zeros.
pub fn normalize_axis<T: Scalar>(a: &mut Matrix<T>, axis: usize)
    requires
        old(a).wf(),
        axis < 2,
    ensures
        final(a).has_dims(old(a).rows.len() as int, old(a).ncols as int),
        forall|i: int, j: int|
            0 <= i < old(a).rows.len() && 0 <= j < old(a).ncols ==> #[trigger] final(a).at(i, j)
                == old(a).at(i, j).s_over(
                divisor(
                    if axis == 0 {
                        col_total(&*old(a), j)
                    } else {
                        row_total(&*old(a), i)
                    },
                ),
            ),
{
    let r = axis_normalized(a, axis);
    *a = r;
}

fn axis_normalized<T: Scalar>(a: &Matrix<T>, axis: usize) -> (r: Matrix<T>)
    requires
        a.wf(),
        axis < 2,
    ensures
        r.has_dims(a.rows.len() as int, a.ncols as int),
        forall|i: int, j: int|
            0 <= i < a.rows.len() && 0 <= j < a.ncols ==> #[trigger] r.at(i, j) == a.at(
                i,
                j,
            ).s_over(
                divisor(
                    if axis == 0 {
                        col_total(a, j)
                    } else {
                        row_total(a, i)
                    },
                ),
            ),
{
    let lanes = if axis == 0 {
        let f = |j: usize| -> (d: T)
            requires
                a.wf(),
                j < a.ncols,
            ensures
                d == divisor(col_total(a, j as int)),
        {
            guarded(col_sum(a, j))
        };
        crate::matrix::tabulate(a.ncols, f)
    } else {
        let f = |i: usize| -> (d: T)
            requires
                a.wf(),
                i < a.rows.len(),
            ensures
                d == divisor(row_total(a, i as int)),
        {
            guarded(row_sum(a, i))
        };
        crate::matrix::tabulate(a.rows.len(), f)
    };
    let g = |i: usize, j: usize| -> (x: T)
        requires
            a.wf(),
            i < a.rows.len(),
            j < a.ncols,
            axis == 0 ==> lanes.len() == a.ncols,
            axis != 0 ==> lanes.len() == a.rows.len(),
        ensures
            x == a.at(i as int, j as int).s_over(
                lanes@[if axis == 0 {
                    j as int
                } else {
                    i as int
                }],
            ),
    {
        let k: usize = if axis == 0 {
            j
        } else {
            i
        };
        a.get(i, j).over(lanes[k])
    };
    Matrix::tabulate(a.rows.len(), a.ncols, g)
}

/// What log-normalisation makes of entry `(i, j)` of `a`.
pub open spec fn log_normalized_at<T: Scalar>(a: &Matrix<T>, axis: usize, i: int, j: int) -> T {
    if axis == 0 {
        if a.rows.len() == 1 {
            num(0)
        } else {
            a.at(i, j).s_minus(log_sum_exp(a.col_view(j)))
        }
    } else {
        if a.ncols == 1 {
            num(0)
        } else {
            a.at(i, j).s_minus(log_sum_exp(a.row_view(i)))
        }
    }
}

/// Log-domain normalisation in place so that the exponentials sum to 1 along
/// `axis`: each lane's log-sum-exp is subtracted. Lanes of length 1 are set to
/// zero rather than normalising a lone negative infinity.
pub fn log_normalize_axis<T: Scalar>(a: &mut Matrix<T>, axis: usize)
    requires
        old(a).wf(),
        axis < 2,
    ensures
        final(a).has_dims(old(a).rows.len() as int, old(a).ncols as int),
        forall|i: int, j: int|
            0 <= i < old(a).rows.len() && 0 <= j < old(a).ncols ==> #[trigger] final(a).at(i, j)
                == log_normalized_at(&*old(a), axis, i, j),
{
    let r = axis_log_normalized(a, axis);
    *a = r;
}

fn axis_log_normalized<T: Scalar>(a: &Matrix<T>, axis: usize) -> (r: Matrix<T>)
    requires
        a.wf(),
        axis < 2,
    ensures
        r.has_dims(a.rows.len() as int, a.ncols as int),
        forall|i: int, j: int|
            0 <= i < a.rows.len() && 0 <= j < a.ncols ==> #[trigger] r.at(i, j)
                == log_normalized_at(a, axis, i, j),
{
    let n: usize = a.rows.len();
    let m: usize = a.ncols;
    if (axis == 0 && n == 1) || (axis == 1 && m == 1) {
        return Matrix::constant(n, m, zero::<T>());
    }
    let lanes = if axis == 0 {
        let f = |j: usize| -> (x: T)
            requires
                a.wf(),
                j < a.ncols,
            ensures
                x == log_sum_exp(a.col_view(j as int)),
        {
            logsumexp(&a.col(j))
        };
        crate::matrix::tabulate(m, f)
    } else {
        let f = |i: usize| -> (x: T)
            requires
                i < a.rows.len(),
            ensures
                x == log_sum_exp(a.row_view(i as int)),
        {
            logsumexp(&a.rows[i])
        };
        crate::matrix::tabulate(n, f)
    };
    let g = |i: usize, j: usize| -> (x: T)
        requires
            a.wf(),
            i < a.rows.len(),
            j < a.ncols,
            axis == 0 ==> lanes.len() == a.ncols,
            axis != 0 ==> lanes.len() == a.rows.len(),
        ensures
            x == a.at(i as int, j as int).s_minus(
                lanes@[if axis == 0 {
                    j as int
                } else {
                    i as int
                }],
            ),
    {
        let k: usize = if axis == 0 {
            j
        } else {
            i
        };
        a.get(i, j).minus(lanes[k])
    };
    Matrix::tabulate(n, m, g)
}

/// Division by `d` distributes over addition, keeps zero, and makes `d` 1.
pub open spec fn divides_exactly<T: Scalar>(d: T) -> bool {
    &&& forall|a: T, b: T| #[trigger]
        a.s_plus(b).s_over(d) == a.s_over(d).s_plus(b.s_over(d))
    &&& num::<T>(0).s_over(d) == num::<T>(0)
    &&& d.s_over(d) == num::<T>(1)
}

pub(crate) proof fn quotient_of_sum<T: Scalar>(n: int, f: spec_fn(int) -> T, d: T)
    requires
        divides_exactly(d),
    ensures
        sigma(n, |i: int| f(i).s_over(d)) == sigma(n, f).s_over(d),
    decreases n,
{
    if n > 0 {
        quotient_of_sum(n - 1, f, d);
    }
}

proof fn quotient_of_running<T: Scalar>(before: T, n: int, f: spec_fn(int) -> T, d: T)
    requires
        divides_exactly(d),
    ensures
        grown(before.s_over(d), n, |i: int| f(i).s_over(d)) == grown(before, n, f).s_over(d),
    decreases n,
{
    if n > 0 {
        quotient_of_running(before, n - 1, f, d);
    }
}

/// A quotient distributes over a sum in lanes.
pub(crate) proof fn quotient_of_lanes<T: Scalar>(n: int, f: spec_fn(int) -> T, d: T)
    requires
        divides_exactly(d),
        0 <= n,
    ensures
        lanes(n, |i: int| f(i).s_over(d)) == lanes(n, f).s_over(d),
{
    let b = n / 8;
    let g = |i: int| f(i).s_over(d);
    let p = |k: int| sigma(b, lane(f, k));
    let q = |k: int| sigma(b, lane(g, k));
    assert forall|k: int| 0 <= k < 8 implies #[trigger] q(k) == p(k).s_over(d) by {
        quotient_of_sum(b, lane(f, k), d);
        sigma_ext(b, lane(g, k), |i: int| lane(f, k)(i).s_over(d));
    }
    assert(q(0) == p(0).s_over(d) && q(1) == p(1).s_over(d) && q(2) == p(2).s_over(d));
    assert(q(3) == p(3).s_over(d) && q(4) == p(4).s_over(d) && q(5) == p(5).s_over(d));
    assert(q(6) == p(6).s_over(d) && q(7) == p(7).s_over(d));
    assert(paired_lanes(b, g) == paired_lanes(b, f).s_over(d));
    let rest = from_on(f, 8 * b);
    quotient_of_running(paired_lanes(b, f), n % 8, rest, d);
    grown_ext(
        paired_lanes(b, g),
        n % 8,
        from_on(g, 8 * b),
        |i: int| rest(i).s_over(d),
    );
}

/// A normalised vector sums to 1, wherever its sum is not zero and division by
/// that sum is exact.
pub proof fn normalized_sums_to_one<T: Scalar>(s: Seq<T>)
    requires
        !total(s).s_same(num(0)),
        divides_exactly(total(s)),
    ensures
        total(normalized(s)) == num::<T>(1),
{
    let f = |i: int| s[i];
    let r = normalized(s);
    quotient_of_lanes(s.len() as int, f, total(s));
    lanes_ext(s.len() as int, |i: int| r[i], |i: int| f(i).s_over(total(s)));
}

/// Normalisation along `axis` makes the sum of each lane 1, wherever it is not
/// zero and division by it is exact; stated of row `i` of a matrix `b` that
/// holds the normalised rows of `a`.
pub proof fn normalized_rows_sum_to_one<T: Scalar>(a: &Matrix<T>, b: &Matrix<T>, i: int)
    requires
        a.wf(),
        b.has_dims(a.rows.len() as int, a.ncols as int),
        0 <= i < a.rows.len(),
        forall|j: int|
            0 <= j < a.ncols ==> #[trigger] b.at(i, j) == a.at(i, j).s_over(divisor(row_total(a, i))),
        !row_total(a, i).s_same(num(0)),
        divides_exactly(row_total(a, i)),
    ensures
        row_total(b, i) == num::<T>(1),
{
    let f = |j: int| a.at(i, j);
    let d = row_total(a, i);
    quotient_of_lanes(a.ncols as int, f, d);
    lanes_ext(a.ncols as int, |j: int| b.at(i, j), |j: int| f(j).s_over(d));
}

/// Normalisation keeps structural zeros: where the lane's divisor takes zero to
/// zero, a zero entry stays zero.
pub proof fn normalization_keeps_zeros<T: Scalar>(a: &Matrix<T>, b: &Matrix<T>, i: int, j: int)
    requires
        0 <= i < a.rows.len(),
        0 <= j < a.ncols,
        b.at(i, j) == a.at(i, j).s_over(divisor(row_total(a, i))),
        num::<T>(0).s_over(divisor(row_total(a, i))) == num::<T>(0),
        a.at(i, j) == num::<T>(0),
    ensures
        b.at(i, j) == num::<T>(0),
{
}

/// The sum of the first `k` lengths.
pub open spec fn prefix_total(lengths: Seq<usize>, k: int) -> int
    decreases k,
{
    if k <= 0 {
        0
    } else {
        prefix_total(lengths, k - 1) + lengths[k - 1]
    }
}

proof fn prefix_total_grows(lengths: Seq<usize>, i: int, j: int)
    requires
        0 <= i <= j <= lengths.len(),
    ensures
        0 <= prefix_total(lengths, i) <= prefix_total(lengths, j),
    decreases j,
{
    if j > i {
        prefix_total_grows(lengths, i, j - 1);
    } else if i > 0 {
        prefix_total_grows(lengths, i - 1, i - 1);
    }
}

/// The row ranges of consecutive sequences with the given lengths.
pub open spec fn ranges_of(lengths: Seq<usize>) -> Seq<(int, int)> {
    Seq::new(
        lengths.len(),
        |k: int| (prefix_total(lengths, k), prefix_total(lengths, k + 1)),
    )
}

/// The ranges as mathematical integers.
pub open spec fn as_ints(ranges: Seq<(usize, usize)>) -> Seq<(int, int)> {
    ranges.map_values(|r: (usize, usize)| (r.0 as int, r.1 as int))
}

/// Translate an optional `lengths` array into `[start, end)` index ranges over a
/// concatenated observation matrix of `n_samples` rows. `None` yields a single
/// sequence spanning all rows; lengths that do not sum to `n_samples` are an
/// error.
pub fn split_lengths(n_samples: usize, lengths: Option<&[usize]>) -> (r: Result<
    Vec<(usize, usize)>,
    HmmError,
>)
    requires
        lengths matches Some(ls) ==> prefix_total(ls@, ls@.len() as int) <= usize::MAX,
    ensures
        match lengths {
            None => r matches Ok(v) && v@ == seq![(0usize, n_samples)],
            Some(ls) => match r {
                Ok(v) => prefix_total(ls@, ls@.len() as int) == n_samples && as_ints(v@) == ranges_of(
                    ls@,
                ),
                Err(e) => prefix_total(ls@, ls@.len() as int) != n_samples && e == (
                HmmError::LengthsMismatch {
                    total: prefix_total(ls@, ls@.len() as int) as usize,
                    n_samples,
                }),
            },
        },
{
    match lengths {
        None => {
            let mut v: Vec<(usize, usize)> = Vec::new();
            v.push((0, n_samples));
            proof {
                assert(v@ =~= seq![(0usize, n_samples)]);
            }
            Ok(v)
        },
        Some(ls) => {
            let mut total: usize = 0;
            let mut i: usize = 0;
            while i < ls.len()
                invariant
                    i <= ls@.len(),
                    total == prefix_total(ls@, i as int),
                    prefix_total(ls@, ls@.len() as int) <= usize::MAX,
                decreases ls.len() - i,
            {
                proof {
                    prefix_total_grows(ls@, i as int + 1, ls@.len() as int);
                }
                total = total + ls[i];
                i += 1;
            }
            if total != n_samples {
                return Err(HmmError::LengthsMismatch { total, n_samples });
            }
            let mut ranges: Vec<(usize, usize)> = Vec::new();
            let mut start: usize = 0;
            let mut k: usize = 0;
            while k < ls.len()
                invariant
                    k <= ls@.len(),
                    start == prefix_total(ls@, k as int),
                    prefix_total(ls@, ls@.len() as int) <= usize::MAX,
                    ranges.len() == k,
                    forall|m: int|
                        0 <= m < k ==> (#[trigger] ranges[m]).0 == prefix_total(ls@, m)
                            && ranges[m].1 == prefix_total(ls@, m + 1),
                decreases ls.len() - k,
            {
                proof {
                    prefix_total_grows(ls@, k as int + 1, ls@.len() as int);
                }
                let l: usize = ls[k];
                ranges.push((start, start + l));
                start = start + l;
                k += 1;
            }
            proof {
                assert(as_ints(ranges@) =~= ranges_of(ls@));
            }
            Ok(ranges)
        },
    }
}

/// The ranges of a split cover `[0, n)` without gap or overlap: the first starts
/// at 0, each next one starts where the one before ends, the last ends at the
/// total, and each is as long as its entry in `lengths`.
pub proof fn ranges_partition(lengths: Seq<usize>, k: int)
    requires
        0 <= k < lengths.len(),
    ensures
        ranges_of(lengths)[0].0 == 0,
        ranges_of(lengths).last().1 == prefix_total(lengths, lengths.len() as int),
        ranges_of(lengths)[k].1 - ranges_of(lengths)[k].0 == lengths[k],
        k + 1 < lengths.len() ==> ranges_of(lengths)[k].1 == ranges_of(lengths)[k + 1].0,
{
}

} // verus!
