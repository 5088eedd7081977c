//! What valid covariances are, where arithmetic is exact.

use crate::covariance::store::CovarStore;
use crate::covariance::validate::{covars_valid, positive_definite};
use crate::linalg::{ascending, inserted, some_not_positive, sorted_eigenvalues, Dense};
use crate::matrix::Matrix;
use crate::reading::{power_of_ten, reads_real};
use crate::scalar::{at_most, dec, num, Scalar};
use vstd::prelude::*;

verus! {

/// Putting a number in its place keeps what else there is.
proof fn inserted_keeps<T: Scalar>(s: Seq<T>, x: T, y: T)
    ensures
        inserted(s, x).contains(y) <==> s.contains(y) || y == x,
    decreases s.len(),
{
    if s.len() == 0 || !x.s_below(s.last()) {
        assert(s.push(x)[s.len() as int] == x);
        if s.contains(y) {
            let i = choose|i: int| 0 <= i < s.len() && s[i] == y;
            assert(s.push(x)[i] == y);
        }
    } else {
        let rest = s.drop_last();
        inserted_keeps(rest, x, y);
        let r = inserted(rest, x);
        let out = r.push(s.last());
        assert(out[r.len() as int] == s.last());
        if r.contains(y) {
            let i = choose|i: int| 0 <= i < r.len() && r[i] == y;
            assert(out[i] == y);
        }
        if rest.contains(y) {
            let i = choose|i: int| 0 <= i < rest.len() && rest[i] == y;
            assert(s[i] == y);
        }
        if s.contains(y) {
            let i = choose|i: int| 0 <= i < s.len() && s[i] == y;
            if i < s.len() - 1 {
                assert(rest[i] == y);
            }
        }
    }
}

/// Sorting keeps what there is.
proof fn ascending_keeps<T: Scalar>(s: Seq<T>, n: int, y: T)
    requires
        0 <= n <= s.len(),
    ensures
        ascending(s, n).contains(y) <==> exists|i: int| 0 <= i < n && #[trigger] s[i] == y,
    decreases n,
{
    if n > 0 {
        ascending_keeps(s, n - 1, y);
        inserted_keeps(ascending(s, n - 1), s[n - 1], y);
        if s[n - 1] == y {
            assert(exists|i: int| 0 <= i < n && #[trigger] s[i] == y);
        }
    }
}

/// `a` and `b` differ by no more than `1e-8`.
pub open spec fn within_a_hair(a: real, b: real) -> bool {
    &&& 100000000real * (a - b) <= 1real
    &&& 100000000real * (b - a) <= 1real
}

/// A matrix is taken as positive-definite where it is square, equals its transpose
/// within `1e-8`, and has no eigenvalue but positive ones.
pub proof fn positive_definite_by_eigenvalues<T: Dense>(rd: spec_fn(T) -> real, a: &Matrix<T>)
    requires
        reads_real(rd),
    ensures
        positive_definite(a) <==> {
            &&& a.rows.len() == a.ncols
            &&& forall|i: int, j: int|
                0 <= i < j < a.ncols ==> within_a_hair(rd(#[trigger] a.at(i, j)), rd(a.at(j, i)))
            &&& forall|i: int|
                0 <= i < T::s_eigenvalues(a@).len() ==> rd(#[trigger] T::s_eigenvalues(a@)[i])
                    > 0real
        },
{
    let s = T::s_eigenvalues(a@);
    let n = s.len() as int;
    let sorted = ascending(s, n);
    reveal_with_fuel(power_of_ten, 9);
    assert(power_of_ten(8) == 100000000real);
    assert(rd(dec::<T>(1, -8)) * power_of_ten(8) == 1real && rd(num::<T>(0)) == 0real && rd(
        num::<T>(-1),
    ) == -1real) by {
        reveal(reads_real);
    }
    assert(some_not_positive(sorted) <==> exists|i: int| 0 <= i < n && rd(#[trigger] s[i]) <= 0real)
        by {
        reveal(reads_real);
        if some_not_positive(sorted) {
            let i = choose|i: int| 0 <= i < sorted.len() && at_most(#[trigger] sorted[i], num(0));
            ascending_keeps(s, n, sorted[i]);
            let k = choose|k: int| 0 <= k < n && #[trigger] s[k] == sorted[i];
            assert(rd(s[k]) <= 0real);
        }
        if exists|i: int| 0 <= i < n && rd(#[trigger] s[i]) <= 0real {
            let k = choose|k: int| 0 <= k < n && rd(#[trigger] s[k]) <= 0real;
            ascending_keeps(s, n, s[k]);
            let i = choose|i: int| 0 <= i < sorted.len() && sorted[i] == s[k];
            assert(at_most(sorted[i], num(0)));
        }
    }
    reveal(reads_real);
}

/// Spherical covariances are valid where there is a positive one for every state,
/// diagonal ones where every variance is positive, and full ones where those of every
/// state would be valid as tied ones.
pub proof fn valid_covariances<T: Dense>(rd: spec_fn(T) -> real, covars: &CovarStore<T>, nc: int)
    requires
        reads_real(rd),
        covars.wf(),
    ensures
        covars_valid(covars, nc) <==> match covars {
            CovarStore::Spherical(v) => v.len() == nc && forall|c: int|
                0 <= c < v.len() ==> rd(#[trigger] v@[c]) > 0real,
            CovarStore::Diag(m) => forall|c: int, f: int|
                0 <= c < m.rows.len() && 0 <= f < m.ncols ==> rd(#[trigger] m.at(c, f)) > 0real,
            CovarStore::Tied(m) => positive_definite(m),
            CovarStore::Full(m) => m.nrows == m.ncols && forall|c: int|
                0 <= c < m.items.len() ==> covars_valid(
                    &CovarStore::Tied(#[trigger] m.items@[c]),
                    nc,
                ),
        },
{
    reveal(reads_real);
    assert(rd(num::<T>(0)) == 0real);
    match covars {
        CovarStore::Full(m) => {
            if m.nrows == m.ncols {
                assert forall|c: int| 0 <= c < m.items.len() implies (covars_valid(
                    &CovarStore::Tied(#[trigger] m.items@[c]),
                    nc,
                ) <==> positive_definite(&m.items@[c])) by {
                }
            }
        },
        CovarStore::Tied(m) => {
            positive_definite_by_eigenvalues(rd, m);
        },
        _ => {},
    }
}

/// `s` is in ascending order.
pub open spec fn ascends<T>(rd: spec_fn(T) -> real, s: Seq<T>) -> bool {
    forall|i: int, j: int| 0 <= i < j < s.len() ==> rd(#[trigger] s[i]) <= rd(#[trigger] s[j])
}

proof fn inserted_ascends<T: Scalar>(rd: spec_fn(T) -> real, s: Seq<T>, x: T)
    requires
        reads_real(rd),
        ascends(rd, s),
    ensures
        ascends(rd, inserted(s, x)),
        inserted(s, x).len() == s.len() + 1,
    decreases s.len(),
{
    if s.len() > 0 {
        let last = s.last();
        assert(x.s_below(last) <==> rd(x) < rd(last)) by {
            reveal(reads_real);
        }
        assert(forall|i: int| 0 <= i < s.len() ==> rd(#[trigger] s[i]) <= rd(last));
        if x.s_below(last) {
            let rest = s.drop_last();
            assert forall|i: int, j: int| 0 <= i < j < rest.len() implies rd(#[trigger] rest[i])
                <= rd(#[trigger] rest[j]) by {
                assert(s[i] == rest[i] && s[j] == rest[j]);
            }
            inserted_ascends(rd, rest, x);
            let r = inserted(rest, x);
            assert forall|i: int| 0 <= i < r.len() implies rd(#[trigger] r[i]) <= rd(last) by {
                inserted_keeps(rest, x, r[i]);
                if r[i] != x {
                    let k = choose|k: int| 0 <= k < rest.len() && rest[k] == r[i];
                    assert(s[k] == r[i]);
                }
            }
        }
    }
}

/// The eigenvalues of a matrix come out in ascending order, all of them and no others.
pub proof fn eigenvalues_ascend<T: Dense>(rd: spec_fn(T) -> real, a: Seq<Seq<T>>, y: T)
    requires
        reads_real(rd),
    ensures
        sorted_eigenvalues(a).len() == T::s_eigenvalues(a).len(),
        ascends(rd, sorted_eigenvalues(a)),
        sorted_eigenvalues(a).contains(y) <==> T::s_eigenvalues(a).contains(y),
{
    let s = T::s_eigenvalues(a);
    let n = s.len() as int;
    sorted_ascends(rd, s, n);
    ascending_keeps(s, n, y);
    if s.contains(y) {
        let i = choose|i: int| 0 <= i < s.len() && s[i] == y;
        assert(s[i] == y);
    }
}

proof fn sorted_ascends<T: Scalar>(rd: spec_fn(T) -> real, s: Seq<T>, n: int)
    requires
        reads_real(rd),
        0 <= n <= s.len(),
    ensures
        ascends(rd, ascending(s, n)),
        ascending(s, n).len() == n,
    decreases n,
{
    if n > 0 {
        sorted_ascends(rd, s, n - 1);
        inserted_ascends(rd, ascending(s, n - 1), s[n - 1]);
    }
}

} // verus!
