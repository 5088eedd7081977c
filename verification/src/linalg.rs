//! Small dense linear algebra.
//!
//! The factorisations come with the arithmetic ([`Dense`]); what is built from
//! them stands here.

use crate::exact::{
    added, constants, distributed, exact_numbers, lanes_are_sum, multiplied, sum_in,
    sum_of_multiples, sum_of_pairs, sum_of_zeros, sum_swapped, values_in,
};
use crate::matrix::{filled, Matrix};
use crate::scalar::{
    at_most, dec, lanes_ext, magnitude, num, one, sigma, sigma_ext, sum_of, total, zero, Scalar,
};
use crate::sign::Sign;
use vstd::prelude::*;

verus! {

/// A type of numbers that comes with the factorisations of square matrices.
pub trait Dense: Scalar {
    /// The lower-triangular factor `L` of `a = L L^T`; `None` where `a` is not
    /// positive-definite.
    closed spec fn s_cholesky(a: Seq<Seq<Self>>) -> Option<Seq<Seq<Self>>> {
        arbitrary()
    }

    /// The eigenvalues of a symmetric matrix, in no particular order.
    closed spec fn s_eigenvalues(a: Seq<Seq<Self>>) -> Seq<Self> {
        arbitrary()
    }

    /// The determinant.
    closed spec fn s_determinant(a: Seq<Seq<Self>>) -> Self {
        arbitrary()
    }

    /// The inverse; `None` where `a` is singular.
    closed spec fn s_inverse(a: Seq<Seq<Self>>) -> Option<Seq<Seq<Self>>> {
        arbitrary()
    }

    /// The solution `x` of `a x = b`; `None` where `a` is singular.
    closed spec fn s_solve(a: Seq<Seq<Self>>, b: Seq<Self>) -> Option<Seq<Self>> {
        arbitrary()
    }

    /// The lower-triangular Cholesky factor.
    fn cholesky(a: &Matrix<Self>) -> (r: Option<Matrix<Self>>)
        requires
            a.has_dims(a.ncols as int, a.ncols as int),
        ensures
            match r {
                Some(l) => l.has_dims(a.ncols as int, a.ncols as int) && Self::s_cholesky(a@)
                    == Some(l@),
                None => Self::s_cholesky(a@) is None,
            },
    ;

    /// The eigenvalues of a symmetric matrix.
    fn eigenvalues(a: &Matrix<Self>) -> (r: Vec<Self>)
        requires
            a.has_dims(a.ncols as int, a.ncols as int),
        ensures
            r@ == Self::s_eigenvalues(a@),
            r.len() == a.ncols,
    ;

    /// The determinant.
    fn determinant(a: &Matrix<Self>) -> (r: Self)
        requires
            a.has_dims(a.ncols as int, a.ncols as int),
        ensures
            r == Self::s_determinant(a@),
    ;

    /// The inverse.
    fn inverse(a: &Matrix<Self>) -> (r: Option<Matrix<Self>>)
        requires
            a.has_dims(a.ncols as int, a.ncols as int),
        ensures
            match r {
                Some(m) => m.has_dims(a.ncols as int, a.ncols as int) && Self::s_inverse(a@) == Some(
                    m@,
                ),
                None => Self::s_inverse(a@) is None,
            },
    ;

    /// The solution of a linear system.
    fn solve(a: &Matrix<Self>, b: &Vec<Self>) -> (r: Option<Vec<Self>>)
        requires
            a.has_dims(a.ncols as int, a.ncols as int),
            b.len() == a.ncols,
        ensures
            match r {
                Some(x) => x.len() == a.ncols && Self::s_solve(a@, b@) == Some(x@),
                None => Self::s_solve(a@, b@) is None,
            },
    ;
}

/// Signs alone settle no factorisation.
impl Dense for Sign {
    open spec fn s_cholesky(a: Seq<Seq<Sign>>) -> Option<Seq<Seq<Sign>>> {
        None
    }

    open spec fn s_eigenvalues(a: Seq<Seq<Sign>>) -> Seq<Sign> {
        Seq::new(a.len(), |i: int| Sign::Unknown)
    }

    open spec fn s_determinant(a: Seq<Seq<Sign>>) -> Sign {
        Sign::Unknown
    }

    open spec fn s_inverse(a: Seq<Seq<Sign>>) -> Option<Seq<Seq<Sign>>> {
        None
    }

    open spec fn s_solve(a: Seq<Seq<Sign>>, b: Seq<Sign>) -> Option<Seq<Sign>> {
        None
    }

    fn cholesky(a: &Matrix<Sign>) -> Option<Matrix<Sign>> {
        None
    }

    fn eigenvalues(a: &Matrix<Sign>) -> Vec<Sign> {
        filled(a.ncols, Sign::Unknown)
    }

    fn determinant(a: &Matrix<Sign>) -> Sign {
        Sign::Unknown
    }

    fn inverse(a: &Matrix<Sign>) -> Option<Matrix<Sign>> {
        None
    }

    fn solve(a: &Matrix<Sign>, b: &Vec<Sign>) -> Option<Vec<Sign>> {
        None
    }
}

/// The lower-triangular Cholesky factor of a matrix that is symmetric within
/// `1e-8`; none of one that is not, nor of one that is not positive-definite.
pub open spec fn lower_factor<T: Dense>(a: &Matrix<T>) -> Option<Seq<Seq<T>>> {
    if symmetric_within(a, dec(1, -8)) {
        T::s_cholesky(a@)
    } else {
        None
    }
}

/// Lower-triangular Cholesky factor `L` with `a = L L^T`, or `None` if `a` is not
/// symmetric (within `1e-8`) positive-definite.
pub fn cholesky_lower<T: Dense>(a: &Matrix<T>) -> (r: Option<Matrix<T>>)
    requires
        a.has_dims(a.ncols as int, a.ncols as int),
    ensures
        match r {
            Some(l) => l.has_dims(a.ncols as int, a.ncols as int) && lower_factor(a) == Some(l@),
            None => lower_factor(a) is None,
        },
{
    if is_symmetric(a, T::decimal(1, -8)) {
        T::cholesky(a)
    } else {
        None
    }
}

/// Entry `i` of the solution of `l x = b` for a lower-triangular `l`, where `b`
/// gives the right-hand side.
pub open spec fn forward_substitution<T: Scalar>(l: Seq<Seq<T>>, b: spec_fn(int) -> T, i: int) -> T
    decreases i,
{
    if i < 0 {
        num(0)
    } else {
        substituted(l, b, i, i).s_over(l[i][i])
    }
}

/// `b(i)` less the first `k` solved terms of row `i`, subtracted in order.
pub open spec fn substituted<T: Scalar>(l: Seq<Seq<T>>, b: spec_fn(int) -> T, i: int, k: int) -> T
    decreases i, k,
    when 0 <= k <= i
{
    if k <= 0 {
        b(i)
    } else {
        substituted(l, b, i, k - 1).s_minus(
            l[i][k - 1].s_times(forward_substitution(l, b, k - 1)),
        )
    }
}

/// Solve `l x = b` for a lower-triangular `l` by forward substitution, column by
/// column; only the lower triangle and the diagonal of `l` are read.
pub fn solve_lower_triangular<T: Scalar>(l: &Matrix<T>, b: &Matrix<T>) -> (x: Matrix<T>)
    requires
        l.has_dims(l.ncols as int, l.ncols as int),
        b.has_dims(l.ncols as int, b.ncols as int),
    ensures
        x.has_dims(l.ncols as int, b.ncols as int),
        forall|i: int, c: int|
            0 <= i < l.ncols && 0 <= c < b.ncols ==> #[trigger] x.at(i, c) == forward_substitution(
                l@,
                |k: int| b.at(k, c),
                i,
            ),
{
    let n: usize = l.ncols;
    let m: usize = b.ncols;
    let mut rows: Vec<Vec<T>> = Vec::new();
    let mut i: usize = 0;
    while i < n
        invariant
            i <= n,
            n == l.ncols,
            m == b.ncols,
            l.has_dims(n as int, n as int),
            b.has_dims(n as int, m as int),
            rows.len() == i,
            forall|k: int| 0 <= k < i ==> (#[trigger] rows@[k])@.len() == m,
            forall|k: int, c: int|
                0 <= k < i && 0 <= c < m ==> #[trigger] rows@[k]@[c] == forward_substitution(
                    l@,
                    |q: int| b.at(q, c),
                    k,
                ),
        decreases n - i,
    {
        let mut row: Vec<T> = Vec::new();
        let mut col: usize = 0;
        while col < m
            invariant
                i < n,
                col <= m,
                n == l.ncols,
                m == b.ncols,
                l.has_dims(n as int, n as int),
                b.has_dims(n as int, m as int),
                rows.len() == i,
                forall|k: int| 0 <= k < i ==> (#[trigger] rows@[k])@.len() == m,
                forall|k: int, c: int|
                    0 <= k < i && 0 <= c < m ==> #[trigger] rows@[k]@[c] == forward_substitution(
                        l@,
                        |q: int| b.at(q, c),
                        k,
                    ),
                row.len() == col,
                forall|c: int|
                    0 <= c < col ==> #[trigger] row@[c] == forward_substitution(
                        l@,
                        |q: int| b.at(q, c),
                        i as int,
                    ),
            decreases m - col,
        {
            let ghost rhs = |q: int| b.at(q, col as int);
            let mut acc = b.get(i, col);
            let mut k: usize = 0;
            while k < i
                invariant
                    k <= i,
                    i < n,
                    col < m,
                    n == l.ncols,
                    m == b.ncols,
                    l.has_dims(n as int, n as int),
                    rows.len() == i,
                    forall|k: int| 0 <= k < i ==> (#[trigger] rows@[k])@.len() == m,
                    forall|k: int, c: int|
                        0 <= k < i && 0 <= c < m ==> #[trigger] rows@[k]@[c]
                            == forward_substitution(l@, |q: int| b.at(q, c), k),
                    rhs == (|q: int| b.at(q, col as int)),
                    acc == substituted(l@, rhs, i as int, k as int),
                decreases i - k,
            {
                assert(rows@[k as int]@[col as int] == forward_substitution(l@, rhs, k as int));
                assert(rows@[k as int]@.len() == m);
                assert(l@[i as int][k as int] == l.at(i as int, k as int));
                acc = acc.minus(l.get(i, k).times(rows[k][col]));
                k += 1;
            }
            assert(l@[i as int][i as int] == l.at(i as int, i as int));
            row.push(acc.over(l.get(i, i)));
            col += 1;
        }
        rows.push(row);
        i += 1;
    }
    Matrix { rows, ncols: m }
}

/// `x` put into `s` behind the last entry that `x` is not below.
pub open spec fn inserted<T: Scalar>(s: Seq<T>, x: T) -> Seq<T>
    decreases s.len(),
{
    if s.len() == 0 || !x.s_below(s.last()) {
        s.push(x)
    } else {
        inserted(s.drop_last(), x).push(s.last())
    }
}

/// The first `n` entries of `s`, in ascending order, equal ones in the order they
/// came in.
pub open spec fn ascending<T: Scalar>(s: Seq<T>, n: int) -> Seq<T>
    decreases n,
{
    if n <= 0 {
        Seq::empty()
    } else {
        inserted(ascending(s, n - 1), s[n - 1])
    }
}

proof fn inserted_at<T: Scalar>(s: Seq<T>, x: T, k: int)
    requires
        0 <= k <= s.len(),
        forall|i: int| k <= i < s.len() ==> x.s_below(#[trigger] s[i]),
        k == 0 || !x.s_below(s[k - 1]),
    ensures
        inserted(s, x) == s.insert(k, x),
    decreases s.len(),
{
    if k < s.len() {
        let t = s.drop_last();
        assert(x.s_below(s.last()));
        assert(k == 0 || !x.s_below(t[k - 1]));
        inserted_at(t, x, k);
        assert(t.insert(k, x).push(s.last()) =~= s.insert(k, x));
    } else {
        assert(s.insert(k, x) =~= s.push(x));
    }
}

/// Sorting keeps the entries: the sorted sequence is a rearrangement.
pub proof fn ascending_rearranges<T: Scalar>(s: Seq<T>, n: int)
    requires
        0 <= n <= s.len(),
    ensures
        ascending(s, n).to_multiset() == s.take(n).to_multiset(),
    decreases n,
{
    broadcast use vstd::seq_lib::group_to_multiset_ensures;

    if n > 0 {
        ascending_rearranges(s, n - 1);
        inserted_rearranges(ascending(s, n - 1), s[n - 1]);
        assert(s.take(n) =~= s.take(n - 1).push(s[n - 1]));
    } else {
        assert(s.take(0) =~= Seq::<T>::empty());
    }
}

proof fn inserted_rearranges<T: Scalar>(s: Seq<T>, x: T)
    ensures
        inserted(s, x).to_multiset() == s.to_multiset().insert(x),
    decreases s.len(),
{
    broadcast use vstd::seq_lib::group_to_multiset_ensures;

    if s.len() == 0 || !x.s_below(s.last()) {
    } else {
        let t = s.drop_last();
        inserted_rearranges(t, x);
        assert(s =~= t.push(s.last()));
        assert(s.to_multiset().insert(x) =~= t.to_multiset().insert(x).insert(s.last()));
    }
}

/// The entries of `v` in ascending order.
pub fn sort_ascending<T: Scalar>(v: &Vec<T>) -> (r: Vec<T>)
    ensures
        r@ == ascending(v@, v@.len() as int),
        r.len() == v.len(),
{
    let mut r: Vec<T> = Vec::new();
    let mut i: usize = 0;
    while i < v.len()
        invariant
            i <= v.len(),
            r.len() == i,
            r@ == ascending(v@, i as int),
        decreases v.len() - i,
    {
        let x = v[i];
        let mut k: usize = r.len();
        while k > 0 && x.below(r[k - 1])
            invariant
                k <= r.len(),
                forall|j: int| k <= j < r.len() ==> x.s_below(#[trigger] r@[j]),
            decreases k,
        {
            k = k - 1;
        }
        proof {
            inserted_at(r@, x, k as int);
        }
        r.insert(k, x);
        i += 1;
    }
    r
}

/// The eigenvalues of `a` in ascending order.
pub open spec fn sorted_eigenvalues<T: Dense>(a: Seq<Seq<T>>) -> Seq<T> {
    ascending(T::s_eigenvalues(a), T::s_eigenvalues(a).len() as int)
}

/// Eigenvalues of a symmetric matrix, in ascending order.
pub fn eigvalsh<T: Dense>(a: &Matrix<T>) -> (r: Vec<T>)
    requires
        a.has_dims(a.ncols as int, a.ncols as int),
    ensures
        r@ == sorted_eigenvalues(a@),
        r.len() == a.ncols,
{
    let vals = T::eigenvalues(a);
    sort_ascending(&vals)
}

/// Sign and natural log of the absolute determinant.
pub fn slogdet<T: Dense>(a: &Matrix<T>) -> (r: (T, T))
    requires
        a.has_dims(a.ncols as int, a.ncols as int),
    ensures
        r.0 == T::s_determinant(a@).s_signum(),
        r.1 == magnitude(T::s_determinant(a@)).s_ln(),
{
    let det = T::determinant(a);
    (det.signum(), crate::scalar::abs(det).ln())
}

/// Twice the sum of the logarithms of the diagonal.
pub open spec fn log_diagonal<T: Scalar>(l: Seq<Seq<T>>) -> T {
    num::<T>(2).s_times(sigma(l.len() as int, |i: int| l[i][i].s_ln()))
}

/// Twice the sum of the logarithms of the diagonal of `l`: the log-determinant of
/// `l l^T`.
pub fn factor_logdet<T: Scalar>(l: &Matrix<T>) -> (r: T)
    requires
        l.has_dims(l.ncols as int, l.ncols as int),
    ensures
        r == log_diagonal(l@),
{
    let f = |i: usize| -> (x: T)
        requires
            l.has_dims(l.ncols as int, l.ncols as int),
            i < l.ncols,
        ensures
            x == l@[i as int][i as int].s_ln(),
    {
        l.get(i, i).ln()
    };
    T::of_int(2).times(sum_of(l.ncols, f, Ghost(|i: int| l@[i][i].s_ln())))
}

/// Log-determinant of a symmetric positive-definite matrix through its Cholesky
/// factor, or `None` if it has none.
pub fn logdet_spd<T: Dense>(a: &Matrix<T>) -> (r: Option<T>)
    requires
        a.has_dims(a.ncols as int, a.ncols as int),
    ensures
        match lower_factor(a) {
            Some(l) => r == Some(log_diagonal(l)),
            None => r is None,
        },
{
    match cholesky_lower(a) {
        Some(l) => Some(factor_logdet(&l)),
        None => None,
    }
}

/// `ln|det(a)|`, no number where the determinant is negative.
pub open spec fn log_determinant<T: Dense>(a: Seq<Seq<T>>) -> T {
    if T::s_determinant(a).s_signum().s_below(num(0)) {
        T::s_nan()
    } else {
        magnitude(T::s_determinant(a)).s_ln()
    }
}

/// Log of the absolute determinant, no number where the determinant is negative.
pub fn logdet<T: Dense>(a: &Matrix<T>) -> (r: T)
    requires
        a.has_dims(a.ncols as int, a.ncols as int),
    ensures
        r == log_determinant(a@),
{
    let (sign, logabs) = slogdet(a);
    if sign.below(zero()) {
        T::nan()
    } else {
        logabs
    }
}

/// Matrix inverse, or `None` if singular.
pub fn inv<T: Dense>(a: &Matrix<T>) -> (r: Option<Matrix<T>>)
    requires
        a.has_dims(a.ncols as int, a.ncols as int),
    ensures
        match r {
            Some(m) => m.has_dims(a.ncols as int, a.ncols as int) && T::s_inverse(a@) == Some(m@),
            None => T::s_inverse(a@) is None,
        },
{
    T::inverse(a)
}

/// The system whose solution is the stationary distribution of `p`: the rows of
/// `p^T - I`, the last of them replaced by ones.
pub open spec fn stationary_system<T: Scalar>(p: Seq<Seq<T>>) -> Seq<Seq<T>> {
    let n = p.len();
    Seq::new(
        n,
        |i: int|
            Seq::new(
                n,
                |j: int|
                    if i == n - 1 {
                        num(1)
                    } else {
                        p[j][i].s_minus(
                            if i == j {
                                num(1)
                            } else {
                                num(0)
                            },
                        )
                    },
            ),
    )
}

/// The right-hand side of that system: zeros, and 1 in the last place.
pub open spec fn stationary_target<T: Scalar>(n: nat) -> Seq<T> {
    Seq::new(
        n,
        |i: int|
            if i == n - 1 {
                num(1)
            } else {
                num(0)
            },
    )
}

/// Stationary distribution `v` of a row-stochastic transition matrix `p`: the
/// solution of `v^T p = v^T` with entries that sum to 1. `None` where the system
/// is singular.
pub fn stationary_distribution<T: Dense>(p: &Matrix<T>) -> (r: Option<Vec<T>>)
    requires
        p.has_dims(p.ncols as int, p.ncols as int),
        p.ncols >= 1,
    ensures
        match r {
            Some(v) => v.len() == p.ncols && T::s_solve(
                stationary_system(p@),
                stationary_target(p.ncols as nat),
            ) == Some(v@),
            None => T::s_solve(stationary_system(p@), stationary_target(p.ncols as nat)) is None,
        },
{
    let n: usize = p.ncols;
    let f = |i: usize, j: usize| -> (x: T)
        requires
            p.has_dims(n as int, n as int),
            i < n,
            j < n,
        ensures
            x == stationary_system(p@)[i as int][j as int],
    {
        if i == n - 1 {
            one()
        } else if i == j {
            p.get(j, i).minus(one())
        } else {
            p.get(j, i).minus(zero())
        }
    };
    let a = Matrix::tabulate(n, n, f);
    let g = |i: usize| -> (x: T)
        requires
            i < n,
        ensures
            x == stationary_target::<T>(n as nat)[i as int],
    {
        if i == n - 1 {
            one()
        } else {
            zero()
        }
    };
    let b = crate::matrix::tabulate(n, g);
    proof {
        assert forall|i: int| 0 <= i < n implies #[trigger] a@[i] == stationary_system(p@)[i] by {
            assert(a.rows@[i].len() == n);
            assert forall|j: int| 0 <= j < n implies #[trigger] a@[i][j] == stationary_system(p@)[i][j] by {
                assert(a.at(i, j) == stationary_system(p@)[i][j]);
            }
            assert(a@[i] =~= stationary_system(p@)[i]);
        }
        assert(a@ =~= stationary_system(p@));
        assert(b@ =~= stationary_target::<T>(n as nat));
    }
    T::solve(&a, &b)
}

/// The numbers of `q` subtract exactly: taking away undoes adding.
pub open spec fn exact_differences<T: Scalar>(q: Set<T>) -> bool {
    &&& exact_numbers(q)
    &&& forall|a: T, b: T| q.contains(a) && q.contains(b) ==> q.contains(#[trigger] a.s_minus(b))
    &&& forall|a: T, b: T|
        q.contains(a) && q.contains(b) ==> (#[trigger] a.s_minus(b)).s_plus(b) == a
    &&& forall|a: T, b: T|
        q.contains(a) && q.contains(b) ==> (#[trigger] a.s_plus(b)).s_minus(b) == a
}

/// `x` solves `a x = b`.
pub open spec fn solves<T: Scalar>(a: Seq<Seq<T>>, b: Seq<T>, x: Seq<T>) -> bool {
    forall|i: int|
        0 <= i < b.len() ==> sigma(x.len() as int, |j: int| a[i][j].s_times(x[j])) == #[trigger] b[i]
}

/// Entry `i` of `v^T p`.
pub open spec fn pushed<T: Scalar>(p: Seq<Seq<T>>, v: Seq<T>, i: int) -> T {
    sigma(v.len() as int, |j: int| p[j][i].s_times(v[j]))
}

/// A sum in which all terms but one are zero is that term.
proof fn single_term<T: Scalar>(q: Set<T>, n: int, f: spec_fn(int) -> T, i: int)
    requires
        exact_numbers(q),
        values_in(q, n, f),
        0 <= i < n,
        forall|j: int| 0 <= j < n && j != i ==> #[trigger] f(j) == num::<T>(0),
    ensures
        sigma(n, f) == f(i),
    decreases n,
{
    constants(q);
    assert(q.contains(f(i)));
    added(q, f(i), num(0));
    if i == n - 1 {
        sum_of_zeros(q, n - 1, f);
    } else {
        single_term(q, n - 1, f, i);
        assert(f(n - 1) == num::<T>(0));
    }
}

/// The stationary distribution is a fixed point: where the solution is exact, its
/// entries sum to 1, and `v^T p = v^T` for every transition matrix whose rows sum
/// to 1.
pub proof fn stationary_is_fixed_point<T: Scalar>(q: Set<T>, p: Seq<Seq<T>>, v: Seq<T>, i: int)
    requires
        exact_differences(q),
        p.len() == v.len(),
        forall|k: int| 0 <= k < v.len() ==> q.contains(#[trigger] v[k]),
        forall|k: int, j: int|
            0 <= k < v.len() && 0 <= j < v.len() ==> q.contains(#[trigger] p[k][j]),
        forall|k: int|
            0 <= k < v.len() ==> (#[trigger] p[k]).len() == v.len() && total(p[k]) == num::<T>(1),
        solves(stationary_system(p), stationary_target(v.len()), v),
        0 <= i < v.len(),
    ensures
        total(v) == num::<T>(1),
        pushed(p, v, i) == v[i],
{
    let n = v.len() as int;
    let a = stationary_system(p);
    let b = stationary_target::<T>(v.len());
    let whole = |j: int| v[j];
    let one = num::<T>(1);
    let zero = num::<T>(0);
    constants(q);
    // The last equation: the entries sum to 1.
    let ones = |j: int| a[n - 1][j].s_times(v[j]);
    assert forall|j: int| 0 <= j < n implies #[trigger] ones(j) == whole(j) by {
        assert(q.contains(v[j]));
        multiplied(q, v[j], one);
    }
    sigma_ext(n, ones, whole);
    assert(b[n - 1] == one);
    assert(sigma(n, |j: int| a[n - 1][j].s_times(v[j])) == one);
    assert forall|k: int| 0 <= k < n implies q.contains(#[trigger] whole(k)) by {
        assert(q.contains(v[k]));
    }
    lanes_are_sum(q, n, whole);
    // The other equations: what arrives at a state is what it holds.
    assert forall|k: int| 0 <= k < n - 1 implies #[trigger] pushed(p, v, k) == v[k] by {
        arrives(q, p, v, k);
    }
    if i == n - 1 {
        // All that arrives is all there is, so the last equation holds too.
        let f = |k: int, j: int| p[j][k].s_times(v[j]);
        assert forall|k: int, j: int| 0 <= k < n && 0 <= j < n implies q.contains(
            #[trigger] f(k, j),
        ) by {
            assert(q.contains(p[j][k]));
            assert(q.contains(v[j]));
            multiplied(q, p[j][k], v[j]);
        }
        sum_swapped(q, n, n, f);
        let arrive = |k: int| pushed(p, v, k);
        assert forall|k: int| 0 <= k < n implies #[trigger] arrive(k) == (|k: int|
            sigma(n, |j: int| f(k, j)))(k) by {
            sigma_ext(n, |j: int| p[j][k].s_times(v[j]), |j: int| f(k, j));
        }
        sigma_ext(n, arrive, |k: int| sigma(n, |j: int| f(k, j)));
        let leave = |j: int| sigma(n, |k: int| f(k, j));
        assert forall|j: int| 0 <= j < n implies #[trigger] leave(j) == whole(j) by {
            let row = |k: int| p[j][k];
            assert forall|k: int| 0 <= k < n implies q.contains(#[trigger] row(k)) by {
                assert(q.contains(p[j][k]));
            }
            assert(q.contains(v[j]));
            sum_of_multiples(q, n, row, v[j]);
            sigma_ext(n, |k: int| f(k, j), |k: int| row(k).s_times(v[j]));
            assert(total(p[j]) == one);
            lanes_are_sum(q, n, row);
            lanes_ext(n, row, |k: int| p[j][k]);
            multiplied(q, v[j], one);
        }
        sigma_ext(n, leave, whole);
        sigma_ext(n - 1, arrive, whole);
        assert(sigma(n, arrive) == sigma(n - 1, arrive).s_plus(arrive(n - 1)));
        assert(sigma(n, whole) == sigma(n - 1, whole).s_plus(whole(n - 1)));
        sum_in(q, n - 1, whole);
        let x = sigma(n - 1, whole);
        let last = |j: int| p[j][n - 1].s_times(v[j]);
        assert forall|j: int| 0 <= j < n implies q.contains(#[trigger] last(j)) by {
            assert(q.contains(f(n - 1, j)));
        }
        sum_in(q, n, last);
        added(q, x, arrive(n - 1));
        added(q, x, whole(n - 1));
        assert(arrive(n - 1).s_plus(x).s_minus(x) == arrive(n - 1));
        assert(whole(n - 1).s_plus(x).s_minus(x) == whole(n - 1));
    }
}

/// An equation of the stationary system other than the last.
proof fn arrives<T: Scalar>(q: Set<T>, p: Seq<Seq<T>>, v: Seq<T>, i: int)
    requires
        exact_differences(q),
        p.len() == v.len(),
        forall|k: int| 0 <= k < v.len() ==> q.contains(#[trigger] v[k]),
        forall|k: int, j: int|
            0 <= k < v.len() && 0 <= j < v.len() ==> q.contains(#[trigger] p[k][j]),
        solves(stationary_system(p), stationary_target(v.len()), v),
        0 <= i < v.len() - 1,
    ensures
        pushed(p, v, i) == v[i],
{
    let n = v.len() as int;
    let a = stationary_system(p);
    let b = stationary_target::<T>(v.len());
    let one = num::<T>(1);
    let zero = num::<T>(0);
    constants(q);
    let unit = |j: int|
        if i == j {
            one
        } else {
            zero
        };
    let f = |j: int| a[i][j].s_times(v[j]);
    let g = |j: int| unit(j).s_times(v[j]);
    let h = |j: int| p[j][i].s_times(v[j]);
    assert forall|j: int| 0 <= j < n implies q.contains(#[trigger] f(j)) && q.contains(g(j))
        && h(j) == f(j).s_plus(g(j)) by {
        let x = p[j][i];
        let u = unit(j);
        assert(q.contains(x));
        assert(q.contains(v[j]));
        assert(a[i][j] == x.s_minus(u));
        assert(q.contains(x.s_minus(u)));
        assert(x.s_minus(u).s_plus(u) == x);
        multiplied(q, x.s_minus(u), v[j]);
        multiplied(q, u, v[j]);
        distributed(q, x.s_minus(u), u, v[j]);
    }
    assert forall|j: int| 0 <= j < n implies q.contains(#[trigger] g(j)) by {
        assert(q.contains(f(j)));
    }
    sum_of_pairs(q, n, f, g);
    sigma_ext(n, h, |j: int| f(j).s_plus(g(j)));
    assert(b[i] == zero);
    assert(sigma(n, |j: int| a[i][j].s_times(v[j])) == zero);
    assert forall|j: int| 0 <= j < n && j != i implies #[trigger] g(j) == zero by {
        assert(q.contains(v[j]));
        multiplied(q, v[j], one);
    }
    single_term(q, n, g, i);
    assert(q.contains(v[i]));
    multiplied(q, v[i], one);
    added(q, v[i], zero);
}

/// `a` is square and equals its transpose within `tol`.
pub open spec fn symmetric_within<T: Scalar>(a: &Matrix<T>, tol: T) -> bool {
    a.rows.len() == a.ncols && forall|i: int, j: int|
        0 <= i < j < a.ncols ==> !tol.s_below(
            magnitude((#[trigger] a.at(i, j)).s_minus(a.at(j, i))),
        )
}

/// Whether `a` is square and equals its transpose within `tol` (absolute).
pub fn is_symmetric<T: Scalar>(a: &Matrix<T>, tol: T) -> (r: bool)
    requires
        a.wf(),
    ensures
        r == symmetric_within(a, tol),
{
    let n: usize = a.rows.len();
    if a.ncols != n {
        return false;
    }
    let mut i: usize = 0;
    while i < n
        invariant
            i <= n,
            a.has_dims(n as int, n as int),
            forall|p: int, q: int|
                0 <= p < i && p < q < n ==> !tol.s_below(
                    magnitude((#[trigger] a.at(p, q)).s_minus(a.at(q, p))),
                ),
        decreases n - i,
    {
        let mut j: usize = i + 1;
        while j < n
            invariant
                i < j <= n,
                a.has_dims(n as int, n as int),
                forall|q: int|
                    i < q < j ==> !tol.s_below(
                        magnitude((#[trigger] a.at(i as int, q)).s_minus(a.at(q, i as int))),
                    ),
            decreases n - j,
        {
            if tol.below(crate::scalar::abs(a.get(i, j).minus(a.get(j, i)))) {
                assert(tol.s_below(
                    magnitude(a.at(i as int, j as int).s_minus(a.at(j as int, i as int))),
                ));
                return false;
            }
            j += 1;
        }
        i += 1;
    }
    true
}

/// Some entry is not above zero.
pub open spec fn some_not_positive<T: Scalar>(s: Seq<T>) -> bool {
    exists|i: int| 0 <= i < s.len() && at_most(#[trigger] s[i], num(0))
}

/// Whether some entry is at most zero.
pub fn any_not_positive<T: Scalar>(v: &Vec<T>) -> (r: bool)
    ensures
        r == some_not_positive(v@),
{
    let mut i: usize = 0;
    while i < v.len()
        invariant
            i <= v.len(),
            forall|k: int| 0 <= k < i ==> !at_most(#[trigger] v@[k], num(0)),
        decreases v.len() - i,
    {
        if crate::scalar::le(v[i], zero()) {
            assert(at_most(v@[i as int], num(0)));
            return true;
        }
        i += 1;
    }
    false
}

} // verus!
