//! Rectangular arrays of two and three dimensions.

use crate::scalar::{lanes, lanes_of, sigma, sum_of, Scalar};
use vstd::prelude::*;

verus! {

/// The vector `f(0), f(1), ..., f(n - 1)`.
pub fn tabulate<T, F: Fn(usize) -> T>(n: usize, f: F) -> (v: Vec<T>)
    requires
        forall|i: usize| i < n ==> call_requires(f, (i,)),
    ensures
        v.len() == n,
        forall|i: int| 0 <= i < n ==> call_ensures(f, (i as usize,), #[trigger] v@[i]),
{
    let mut v: Vec<T> = Vec::new();
    let mut i: usize = 0;
    while i < n
        invariant
            i <= n,
            v.len() == i,
            forall|i: usize| i < n ==> call_requires(f, (i,)),
            forall|k: int| 0 <= k < i ==> call_ensures(f, (k as usize,), #[trigger] v@[k]),
        decreases n - i,
    {
        v.push(f(i));
        i += 1;
    }
    v
}

/// `n` copies of `x`.
pub fn filled<T: Copy>(n: usize, x: T) -> (v: Vec<T>)
    ensures
        v@ == Seq::new(n as nat, |i: int| x),
{
    let mut v: Vec<T> = Vec::new();
    let mut i: usize = 0;
    while i < n
        invariant
            i <= n,
            v@ == Seq::new(i as nat, |i: int| x),
        decreases n - i,
    {
        v.push(x);
        i += 1;
    }
    v
}

/// A copy of `v`.
pub fn copied<T: Copy>(v: &Vec<T>) -> (r: Vec<T>)
    ensures
        r@ == v@,
{
    let mut r: Vec<T> = Vec::new();
    let mut i: usize = 0;
    while i < v.len()
        invariant
            i <= v.len(),
            r@ == v@.take(i as int),
        decreases v.len() - i,
    {
        r.push(v[i]);
        i += 1;
        proof {
            assert(v@.take(i as int) =~= v@.take(i as int - 1).push(v@[i as int - 1]));
        }
    }
    proof {
        assert(v@.take(v@.len() as int) =~= v@);
    }
    r
}

/// A matrix, stored by rows.
#[derive(Debug, Clone, PartialEq)]
pub struct Matrix<T> {
    /// The rows, all of them `ncols` long.
    pub rows: Vec<Vec<T>>,
    /// The number of columns.
    pub ncols: usize,
}

impl<T> Matrix<T> {
    /// Every row is as long as the number of columns.
    pub open spec fn wf(&self) -> bool {
        forall|i: int| 0 <= i < self.rows.len() ==> (#[trigger] self.rows[i]).len() == self.ncols
    }

    /// The number of rows and of columns.
    pub open spec fn dims(&self) -> (int, int) {
        (self.rows.len() as int, self.ncols as int)
    }

    /// Well formed, with `n` rows and `m` columns.
    pub open spec fn has_dims(&self, n: int, m: int) -> bool {
        self.wf() && self.rows.len() == n && self.ncols == m
    }

    /// The entry in row `i`, column `j`.
    pub open spec fn at(&self, i: int, j: int) -> T {
        self.rows@[i]@[j]
    }

    /// Row `i`.
    pub open spec fn row_view(&self, i: int) -> Seq<T> {
        self.rows@[i]@
    }

    /// Column `j`.
    pub open spec fn col_view(&self, j: int) -> Seq<T> {
        Seq::new(self.rows.len() as nat, |i: int| self.at(i, j))
    }

    /// The entries, by rows.
    pub open spec fn view(&self) -> Seq<Seq<T>> {
        Seq::new(self.rows.len() as nat, |i: int| self.rows@[i]@)
    }

    /// The number of rows.
    pub fn nrows(&self) -> (n: usize)
        ensures
            n == self.rows.len(),
    {
        self.rows.len()
    }

    /// A matrix of the given rows, each `ncols` long.
    pub fn from_rows(rows: Vec<Vec<T>>, ncols: usize) -> (m: Matrix<T>)
        requires
            forall|i: int| 0 <= i < rows.len() ==> (#[trigger] rows[i]).len() == ncols,
        ensures
            m.has_dims(rows.len() as int, ncols as int),
            m.rows == rows,
    {
        Matrix { rows, ncols }
    }
}

impl<T: Copy> Matrix<T> {
    /// The entry in row `i`, column `j`.
    pub fn get(&self, i: usize, j: usize) -> (x: T)
        requires
            self.wf(),
            i < self.rows.len(),
            j < self.ncols,
        ensures
            x == self.at(i as int, j as int),
    {
        self.rows[i][j]
    }

    /// Replace the entry in row `i`, column `j`.
    pub fn put(&mut self, i: usize, j: usize, x: T)
        requires
            old(self).wf(),
            i < old(self).rows.len(),
            j < old(self).ncols,
        ensures
            final(self).has_dims(old(self).rows.len() as int, old(self).ncols as int),
            forall|p: int, q: int|
                0 <= p < old(self).rows.len() && 0 <= q < old(self).ncols ==> #[trigger] final(self).at(p, q)
                    == if p == i && q == j {
                    x
                } else {
                    old(self).at(p, q)
                },
    {
        let row = &mut self.rows[i];
        row[j] = x;
    }

    /// A copy of column `j`.
    pub fn col(&self, j: usize) -> (v: Vec<T>)
        requires
            self.wf(),
            j < self.ncols,
        ensures
            v@ == self.col_view(j as int),
    {
        let f = |i: usize| -> (x: T)
            requires
                self.wf(),
                i < self.rows.len(),
                j < self.ncols,
            ensures
                x == self.at(i as int, j as int),
        {
            self.get(i, j)
        };
        let v = tabulate(self.rows.len(), f);
        proof {
            assert(v@ =~= self.col_view(j as int));
        }
        v
    }

    /// The matrix with entry `f(i, j)` in row `i`, column `j`.
    pub fn tabulate<F: Fn(usize, usize) -> T>(n: usize, m: usize, f: F) -> (r: Matrix<T>)
        requires
            forall|i: usize, j: usize| i < n && j < m ==> call_requires(f, (i, j)),
        ensures
            r.has_dims(n as int, m as int),
            forall|i: int, j: int|
                0 <= i < n && 0 <= j < m ==> call_ensures(
                    f,
                    (i as usize, j as usize),
                    #[trigger] r.at(i, j),
                ),
    {
        let mut rows: Vec<Vec<T>> = Vec::new();
        let mut i: usize = 0;
        while i < n
            invariant
                i <= n,
                rows.len() == i,
                forall|i: usize, j: usize| i < n && j < m ==> call_requires(f, (i, j)),
                forall|k: int| 0 <= k < i ==> (#[trigger] rows@[k])@.len() == m,
                forall|k: int, j: int|
                    0 <= k < i && 0 <= j < m ==> call_ensures(
                        f,
                        (k as usize, j as usize),
                        #[trigger] rows@[k]@[j],
                    ),
            decreases n - i,
        {
            let mut row: Vec<T> = Vec::new();
            let mut j: usize = 0;
            while j < m
                invariant
                    i < n,
                    j <= m,
                    row.len() == j,
                    forall|i: usize, j: usize| i < n && j < m ==> call_requires(f, (i, j)),
                    forall|k: int|
                        0 <= k < j ==> call_ensures(f, (i, k as usize), #[trigger] row@[k]),
                decreases m - j,
            {
                row.push(f(i, j));
                j += 1;
            }
            rows.push(row);
            i += 1;
        }
        Matrix { rows, ncols: m }
    }

    /// The `n` by `m` matrix filled with `x`.
    pub fn constant(n: usize, m: usize, x: T) -> (r: Matrix<T>)
        ensures
            r.has_dims(n as int, m as int),
            forall|i: int, j: int| 0 <= i < n && 0 <= j < m ==> #[trigger] r.at(i, j) == x,
    {
        let f = |i: usize, j: usize| -> (v: T)
            ensures
                v == x,
        {
            x
        };
        Matrix::tabulate(n, m, f)
    }

    /// A copy of the matrix.
    pub fn duplicate(&self) -> (r: Matrix<T>)
        requires
            self.wf(),
        ensures
            r.has_dims(self.rows.len() as int, self.ncols as int),
            r@ == self@,
            forall|i: int, j: int|
                0 <= i < self.rows.len() && 0 <= j < self.ncols ==> #[trigger] r.at(i, j) == self.at(
                    i,
                    j,
                ),
    {
        let f = |i: usize, j: usize| -> (v: T)
            requires
                self.wf(),
                i < self.rows.len(),
                j < self.ncols,
            ensures
                v == self.at(i as int, j as int),
        {
            self.rows[i][j]
        };
        let r = Matrix::tabulate(self.rows.len(), self.ncols, f);
        proof {
            assert forall|i: int| 0 <= i < self.rows.len() implies r.rows@[i]@ == #[trigger] self.rows@[i]@ by {
                assert(self.rows[i].len() == self.ncols);
                assert forall|j: int| 0 <= j < self.ncols implies r.rows@[i]@[j] == self.rows@[i]@[j] by {
                    assert(r.at(i, j) == self.at(i, j));
                }
                assert(r.rows[i].len() == r.ncols);
                assert(r.rows@[i]@ =~= self.rows@[i]@);
            }
            assert(r@ =~= self@);
        }
        r
    }

    /// The rows from `start` up to, not including, `end`.
    pub fn slice_rows(&self, start: usize, end: usize) -> (r: Matrix<T>)
        requires
            self.wf(),
            start <= end <= self.rows.len(),
        ensures
            r.has_dims(end - start, self.ncols as int),
            forall|i: int, j: int|
                0 <= i < end - start && 0 <= j < self.ncols ==> #[trigger] r.at(i, j) == self.at(
                    start + i,
                    j,
                ),
            r@ == self@.subrange(start as int, end as int),
    {
        let f = |i: usize, j: usize| -> (v: T)
            requires
                self.wf(),
                i < end - start,
                start <= end <= self.rows.len(),
                j < self.ncols,
            ensures
                v == self.at(start + i, j as int),
        {
            self.rows[start + i][j]
        };
        let r = Matrix::tabulate(end - start, self.ncols, f);
        proof {
            assert forall|i: int| 0 <= i < end - start implies #[trigger] r.rows@[i]@ == self.rows@[start + i]@ by {
                assert(self.rows[start + i].len() == self.ncols);
                assert forall|j: int| 0 <= j < self.ncols implies r.rows@[i]@[j] == self.rows@[start + i]@[j] by {
                    assert(r.at(i, j) == self.at(start + i, j));
                }
                assert(r.rows[i].len() == r.ncols);
                assert(r.rows@[i]@ =~= self.rows@[start + i]@);
            }
            assert(r@ =~= self@.subrange(start as int, end as int));
        }
        r
    }
}

/// A matrix whose entries are those of `entries` has them as its view.
pub proof fn view_from_entries<T>(m: &Matrix<T>, entries: Seq<Seq<T>>, n: int, k: int)
    requires
        m.has_dims(n, k),
        entries.len() == n,
        forall|i: int| 0 <= i < n ==> (#[trigger] entries[i]).len() == k,
        forall|i: int, j: int|
            0 <= i < n && 0 <= j < k ==> #[trigger] m.at(i, j) == entries[i][j],
    ensures
        m@ == entries,
{
    assert forall|i: int| 0 <= i < n implies #[trigger] m@[i] == entries[i] by {
        assert(m.rows@[i].len() == k);
        assert forall|j: int| 0 <= j < k implies #[trigger] m@[i][j] == entries[i][j] by {
            assert(m.at(i, j) == entries[i][j]);
        }
        assert(m@[i] =~= entries[i]);
    }
    assert(m@ =~= entries);
}


/// The matrix with entry `f(k, i, j)` in row `i`, column `j`.
fn slab<T: Copy, F: Fn(usize, usize, usize) -> T>(k: usize, n: usize, m: usize, f: &F) -> (r:
    Matrix<T>)
    requires
        forall|i: usize, j: usize| i < n && j < m ==> call_requires(*f, (k, i, j)),
    ensures
        r.has_dims(n as int, m as int),
        forall|i: int, j: int|
            0 <= i < n && 0 <= j < m ==> call_ensures(
                *f,
                (k, i as usize, j as usize),
                #[trigger] r.at(i, j),
            ),
{
    let mut rows: Vec<Vec<T>> = Vec::new();
    let mut i: usize = 0;
    while i < n
        invariant
            i <= n,
            rows.len() == i,
            forall|i: usize, j: usize| i < n && j < m ==> call_requires(*f, (k, i, j)),
            forall|p: int| 0 <= p < i ==> (#[trigger] rows@[p])@.len() == m,
            forall|p: int, j: int|
                0 <= p < i && 0 <= j < m ==> call_ensures(
                    *f,
                    (k, p as usize, j as usize),
                    #[trigger] rows@[p]@[j],
                ),
        decreases n - i,
    {
        let mut row: Vec<T> = Vec::new();
        let mut j: usize = 0;
        while j < m
            invariant
                i < n,
                j <= m,
                row.len() == j,
                forall|i: usize, j: usize| i < n && j < m ==> call_requires(*f, (k, i, j)),
                forall|q: int|
                    0 <= q < j ==> call_ensures(*f, (k, i, q as usize), #[trigger] row@[q]),
            decreases m - j,
        {
            row.push(f(k, i, j));
            j += 1;
        }
        rows.push(row);
        i += 1;
    }
    Matrix { rows, ncols: m }
}

/// A stack of matrices of one shape.
#[derive(Debug, Clone, PartialEq)]
pub struct Cube<T> {
    /// The matrices, all of them `nrows` by `ncols`.
    pub items: Vec<Matrix<T>>,
    /// The number of rows of each matrix.
    pub nrows: usize,
    /// The number of columns of each matrix.
    pub ncols: usize,
}

impl<T> Cube<T> {
    /// Every matrix has the declared shape.
    pub open spec fn wf(&self) -> bool {
        forall|i: int|
            0 <= i < self.items.len() ==> (#[trigger] self.items[i]).has_dims(
                self.nrows as int,
                self.ncols as int,
            )
    }

    /// Well formed, with `k` matrices of `n` rows and `m` columns.
    pub open spec fn has_dims(&self, k: int, n: int, m: int) -> bool {
        self.wf() && self.items.len() == k && self.nrows == n && self.ncols == m
    }

    /// Entry `(i, j)` of matrix `k`.
    pub open spec fn at(&self, k: int, i: int, j: int) -> T {
        self.items@[k].at(i, j)
    }
}

impl<T: Copy> Cube<T> {
    /// Entry `(i, j)` of matrix `k`.
    pub fn get(&self, k: usize, i: usize, j: usize) -> (x: T)
        requires
            self.wf(),
            k < self.items.len(),
            i < self.nrows,
            j < self.ncols,
        ensures
            x == self.at(k as int, i as int, j as int),
    {
        self.items[k].get(i, j)
    }

    /// The stack with entry `f(k, i, j)` in matrix `k`, row `i`, column `j`.
    pub fn tabulate<F: Fn(usize, usize, usize) -> T>(c: usize, n: usize, m: usize, f: F) -> (r:
        Cube<T>)
        requires
            forall|k: usize, i: usize, j: usize|
                k < c && i < n && j < m ==> call_requires(f, (k, i, j)),
        ensures
            r.has_dims(c as int, n as int, m as int),
            forall|k: int, i: int, j: int|
                0 <= k < c && 0 <= i < n && 0 <= j < m ==> call_ensures(
                    f,
                    (k as usize, i as usize, j as usize),
                    #[trigger] r.at(k, i, j),
                ),
    {
        let mut items: Vec<Matrix<T>> = Vec::new();
        let mut k: usize = 0;
        while k < c
            invariant
                k <= c,
                items.len() == k,
                forall|k: usize, i: usize, j: usize|
                    k < c && i < n && j < m ==> call_requires(f, (k, i, j)),
                forall|p: int| 0 <= p < k ==> (#[trigger] items@[p]).has_dims(n as int, m as int),
                forall|p: int, i: int, j: int|
                    0 <= p < k && 0 <= i < n && 0 <= j < m ==> call_ensures(
                        f,
                        (p as usize, i as usize, j as usize),
                        #[trigger] items@[p].at(i, j),
                    ),
            decreases c - k,
        {
            let item = slab(k, n, m, &f);
            items.push(item);
            k += 1;
        }
        Cube { items, nrows: n, ncols: m }
    }

    /// A copy of the stack.
    pub fn duplicate(&self) -> (r: Cube<T>)
        requires
            self.wf(),
        ensures
            r.has_dims(self.items.len() as int, self.nrows as int, self.ncols as int),
            forall|k: int, i: int, j: int|
                0 <= k < self.items.len() && 0 <= i < self.nrows && 0 <= j < self.ncols
                    ==> #[trigger] r.at(k, i, j) == self.at(k, i, j),
    {
        let f = |k: usize, i: usize, j: usize| -> (v: T)
            requires
                self.wf(),
                k < self.items.len(),
                i < self.nrows,
                j < self.ncols,
            ensures
                v == self.at(k as int, i as int, j as int),
        {
            self.get(k, i, j)
        };
        Cube::tabulate(self.items.len(), self.nrows, self.ncols, f)
    }
}

/// The sum of the entries of row `i`, added in lanes.
pub open spec fn row_total<T: Scalar>(a: &Matrix<T>, i: int) -> T {
    lanes(a.ncols as int, |j: int| a.at(i, j))
}

/// The sum of the entries of column `j`, added from the top.
pub open spec fn col_total<T: Scalar>(a: &Matrix<T>, j: int) -> T {
    sigma(a.rows.len() as int, |i: int| a.at(i, j))
}

/// The sum of the entries of row `i`.
pub fn row_sum<T: Scalar>(a: &Matrix<T>, i: usize) -> (s: T)
    requires
        a.wf(),
        i < a.rows.len(),
    ensures
        s == row_total(a, i as int),
{
    let f = |j: usize| -> (x: T)
        requires
            a.wf(),
            i < a.rows.len(),
            j < a.ncols,
        ensures
            x == a.at(i as int, j as int),
    {
        a.get(i, j)
    };
    lanes_of(a.ncols, f, Ghost(|j: int| a.at(i as int, j)))
}

/// The sum of the entries of column `j`.
pub fn col_sum<T: Scalar>(a: &Matrix<T>, j: usize) -> (s: T)
    requires
        a.wf(),
        j < a.ncols,
    ensures
        s == col_total(a, j as int),
{
    let f = |i: usize| -> (x: T)
        requires
            a.wf(),
            i < a.rows.len(),
            j < a.ncols,
        ensures
            x == a.at(i as int, j as int),
    {
        a.get(i, j)
    };
    sum_of(a.rows.len(), f, Ghost(|i: int| a.at(i, j as int)))
}

} // verus!
