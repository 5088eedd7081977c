//! Compact covariance storage and its expansion to full matrices.

use crate::covariance::types::CovarianceType;
use crate::matrix::{filled, Cube, Matrix};
use crate::scalar::{count, num, sum, total, zero, Scalar};
use vstd::prelude::*;

verus! {

/// Covariance parameters in their compact, per-type form.
#[derive(Debug, Clone, PartialEq)]
pub enum CovarStore<T> {
    /// `(n_components,)` scalar variances.
    Spherical(Vec<T>),
    /// `(n_components, n_features)` per-feature variances.
    Diag(Matrix<T>),
    /// `(n_components, n_features, n_features)` full matrices.
    Full(Cube<T>),
    /// `(n_features, n_features)` single shared matrix.
    Tied(Matrix<T>),
}

/// `x` on the diagonal, zero off it.
pub open spec fn on_diagonal<T: Scalar>(x: T, i: int, j: int) -> T {
    if i == j {
        x
    } else {
        num(0)
    }
}

impl<T: Scalar> CovarStore<T> {
    /// Every array inside is rectangular.
    pub open spec fn wf(&self) -> bool {
        match self {
            CovarStore::Spherical(c) => true,
            CovarStore::Diag(c) => c.wf(),
            CovarStore::Full(c) => c.wf(),
            CovarStore::Tied(c) => c.wf(),
        }
    }

    /// The store holds the covariances of `nc` states over `nf` features.
    pub open spec fn fits(&self, nc: int, nf: int) -> bool {
        match self {
            CovarStore::Spherical(c) => c.len() == nc,
            CovarStore::Diag(c) => c.has_dims(nc, nf),
            CovarStore::Full(c) => c.has_dims(nc, nf, nf),
            CovarStore::Tied(c) => c.has_dims(nf, nf),
        }
    }

    /// The store holds the covariances of `nc` states over `nf` features, and maybe
    /// of more states.
    pub open spec fn covers(&self, nc: int, nf: int) -> bool {
        match self {
            CovarStore::Spherical(c) => c.len() >= nc,
            CovarStore::Diag(c) => c.has_dims(c.rows.len() as int, nf) && c.rows.len() >= nc,
            CovarStore::Full(c) => c.has_dims(c.items.len() as int, nf, nf) && c.items.len() >= nc,
            CovarStore::Tied(c) => c.has_dims(nf, nf),
        }
    }

    /// The type tag.
    pub open spec fn tag(&self) -> CovarianceType {
        match self {
            CovarStore::Spherical(_) => CovarianceType::Spherical,
            CovarStore::Diag(_) => CovarianceType::Diag,
            CovarStore::Full(_) => CovarianceType::Full,
            CovarStore::Tied(_) => CovarianceType::Tied,
        }
    }

    /// The covariance of features `i` and `j` in a state.
    pub open spec fn cov_at(&self, state: int, i: int, j: int) -> T {
        match self {
            CovarStore::Spherical(c) => on_diagonal(c@[state], i, j),
            CovarStore::Diag(c) => on_diagonal(c.at(state, i), i, j),
            CovarStore::Full(c) => c.at(state, i, j),
            CovarStore::Tied(c) => c.at(i, j),
        }
    }

    /// The covariance type tag.
    pub fn covariance_type(&self) -> (t: CovarianceType)
        ensures
            t == self.tag(),
    {
        match self {
            CovarStore::Spherical(_) => CovarianceType::Spherical,
            CovarStore::Diag(_) => CovarianceType::Diag,
            CovarStore::Full(_) => CovarianceType::Full,
            CovarStore::Tied(_) => CovarianceType::Tied,
        }
    }

    /// Whether the store holds the covariances of `nc` states over `nf` features.
    pub fn has_shape(&self, nc: usize, nf: usize) -> (r: bool)
        requires
            self.wf(),
        ensures
            r == self.fits(nc as int, nf as int),
    {
        match self {
            CovarStore::Spherical(c) => c.len() == nc,
            CovarStore::Diag(c) => c.rows.len() == nc && c.ncols == nf,
            CovarStore::Full(c) => c.items.len() == nc && c.nrows == nf && c.ncols == nf,
            CovarStore::Tied(c) => c.rows.len() == nf && c.ncols == nf,
        }
    }

    /// Whether the store holds the covariances of `nc` states over `nf` features, and
    /// maybe of more states.
    pub fn has_states(&self, nc: usize, nf: usize) -> (r: bool)
        requires
            self.wf(),
        ensures
            r == self.covers(nc as int, nf as int),
    {
        match self {
            CovarStore::Spherical(c) => c.len() >= nc,
            CovarStore::Diag(c) => c.rows.len() >= nc && c.ncols == nf,
            CovarStore::Full(c) => c.items.len() >= nc && c.nrows == nf && c.ncols == nf,
            CovarStore::Tied(c) => c.rows.len() == nf && c.ncols == nf,
        }
    }

    /// The covariance of features `i` and `j` in a state.
    pub(crate) fn entry(&self, state: usize, i: usize, j: usize, Ghost(nf): Ghost<int>) -> (x: T)
        requires
            self.covers(state + 1, nf),
            i < nf,
            j < nf,
        ensures
            x == self.cov_at(state as int, i as int, j as int),
    {
        match self {
            CovarStore::Full(c) => c.get(state, i, j),
            CovarStore::Tied(c) => c.get(i, j),
            CovarStore::Diag(c) => if i == j {
                c.get(state, i)
            } else {
                zero()
            },
            CovarStore::Spherical(c) => if i == j {
                c[state]
            } else {
                zero()
            },
        }
    }

    /// Expand to dense `(n_components, n_features, n_features)` matrices:
    /// spherical and diagonal variances fill the diagonals, a tied matrix is
    /// repeated for every state, full matrices are copied.
    pub fn full(&self, n_components: usize, n_features: usize) -> (out: Cube<T>)
        requires
            self.fits(n_components as int, n_features as int),
        ensures
            out.has_dims(n_components as int, n_features as int, n_features as int),
            forall|k: int, i: int, j: int|
                0 <= k < n_components && 0 <= i < n_features && 0 <= j < n_features
                    ==> #[trigger] out.at(k, i, j) == self.cov_at(k, i, j),
    {
        let f = |k: usize, i: usize, j: usize| -> (x: T)
            requires
                self.fits(n_components as int, n_features as int),
                k < n_components,
                i < n_features,
                j < n_features,
            ensures
                x == self.cov_at(k as int, i as int, j as int),
        {
            self.entry(k, i, j, Ghost(n_features as int))
        };
        Cube::tabulate(n_components, n_features, n_features, f)
    }

    /// The dense `(n_features, n_features)` covariance of a single state. A tied
    /// store ignores the state.
    pub fn covariance_of(&self, state: usize, n_features: usize) -> (out: Matrix<T>)
        requires
            self.covers(state + 1, n_features as int),
        ensures
            out.has_dims(n_features as int, n_features as int),
            forall|i: int, j: int|
                0 <= i < n_features && 0 <= j < n_features ==> #[trigger] out.at(i, j)
                    == self.cov_at(state as int, i, j),
    {
        let f = |i: usize, j: usize| -> (x: T)
            requires
                self.covers(state + 1, n_features as int),
                i < n_features,
                j < n_features,
            ensures
                x == self.cov_at(state as int, i as int, j as int),
        {
            self.entry(state, i, j, Ghost(n_features as int))
        };
        Matrix::tabulate(n_features, n_features, f)
    }

    /// A copy of the store.
    pub fn duplicate(&self) -> (r: CovarStore<T>)
        requires
            self.wf(),
        ensures
            r.wf(),
            r.tag() == self.tag(),
            forall|nc: int, nf: int| self.fits(nc, nf) ==> #[trigger] r.fits(nc, nf),
            forall|nc: int, nf: int, k: int, i: int, j: int|
                #![trigger self.fits(nc, nf), r.cov_at(k, i, j)]
                self.fits(nc, nf) && 0 <= k < nc && 0 <= i < nf && 0 <= j < nf ==> r.cov_at(k, i, j)
                    == self.cov_at(k, i, j),
    {
        match self {
            CovarStore::Spherical(c) => CovarStore::Spherical(crate::matrix::copied(c)),
            CovarStore::Diag(c) => CovarStore::Diag(c.duplicate()),
            CovarStore::Full(c) => CovarStore::Full(c.duplicate()),
            CovarStore::Tied(c) => CovarStore::Tied(c.duplicate()),
        }
    }
}

/// A spherical store and a diagonal store that repeats each variance for every
/// feature stand for the same covariances.
pub proof fn spherical_is_constant_diagonal<T: Scalar>(c: Vec<T>, d: Matrix<T>, k: int, i: int, j: int)
    requires
        d.has_dims(c.len() as int, d.ncols as int),
        forall|s: int, f: int| 0 <= s < c.len() && 0 <= f < d.ncols ==> #[trigger] d.at(s, f) == c@[s],
        0 <= k < c.len(),
        0 <= i < d.ncols,
        0 <= j < d.ncols,
    ensures
        CovarStore::Spherical(c).cov_at(k, i, j) == CovarStore::Diag(d).cov_at(k, i, j),
{
}

/// A tied store and a full store that repeats the matrix for every state stand
/// for the same covariances.
pub proof fn tied_is_constant_full<T: Scalar>(c: Matrix<T>, f: Cube<T>, k: int, i: int, j: int)
    requires
        c.has_dims(c.ncols as int, c.ncols as int),
        f.has_dims(f.items.len() as int, c.ncols as int, c.ncols as int),
        forall|s: int, p: int, q: int|
            0 <= s < f.items.len() && 0 <= p < c.ncols && 0 <= q < c.ncols ==> #[trigger] f.at(
                s,
                p,
                q,
            ) == c.at(p, q),
        0 <= k < f.items.len(),
        0 <= i < c.ncols,
        0 <= j < c.ncols,
    ensures
        CovarStore::Tied(c).cov_at(k, i, j) == CovarStore::Full(f).cov_at(k, i, j),
{
}

/// The mean of all entries; zero where there are none.
pub open spec fn grand_mean<T: Scalar>(a: &Matrix<T>) -> T {
    let all = in_order(a, a.rows.len() as int);
    if all.len() == 0 {
        num(0)
    } else {
        total(all).s_over(num(all.len() as int))
    }
}

/// The entries of the first `n` rows, row after row.
pub open spec fn in_order<T>(a: &Matrix<T>, n: int) -> Seq<T>
    decreases n,
{
    if n <= 0 {
        Seq::empty()
    } else {
        in_order(a, n - 1) + a.row_view(n - 1)
    }
}

/// The mean of all entries; zero where there are none.
pub fn mean_of_all<T: Scalar>(a: &Matrix<T>) -> (r: T)
    requires
        a.wf(),
    ensures
        r == grand_mean(a),
{
    let mut all: Vec<T> = Vec::new();
    let mut i: usize = 0;
    while i < a.rows.len()
        invariant
            a.wf(),
            i <= a.rows.len(),
            all@ == in_order(a, i as int),
        decreases a.rows.len() - i,
    {
        let mut j: usize = 0;
        while j < a.ncols
            invariant
                a.wf(),
                i < a.rows.len(),
                j <= a.ncols,
                all@ == in_order(a, i as int) + a.row_view(i as int).take(j as int),
            decreases a.ncols - j,
        {
            all.push(a.get(i, j));
            proof {
                let row = a.row_view(i as int);
                assert(row.take(j + 1) =~= row.take(j as int).push(row[j as int]));
            }
            j += 1;
        }
        proof {
            let row = a.row_view(i as int);
            assert(row.take(a.ncols as int) =~= row);
        }
        i += 1;
    }
    if all.len() == 0 {
        zero()
    } else {
        sum(&all).over(count(all.len()))
    }
}

/// The covariance of features `i` and `j` in every state, when the template
/// `tied_cv` is brought to the shape of `covariance_type`.
pub open spec fn distributed_at<T: Scalar>(
    tied_cv: &Matrix<T>,
    covariance_type: CovarianceType,
    i: int,
    j: int,
) -> T {
    match covariance_type {
        CovarianceType::Spherical => on_diagonal(grand_mean(tied_cv), i, j),
        CovarianceType::Diag => on_diagonal(tied_cv.at(i, i), i, j),
        CovarianceType::Tied => tied_cv.at(i, j),
        CovarianceType::Full => tied_cv.at(i, j),
    }
}

/// Broadcast a single `(n_features, n_features)` covariance template to the
/// storage shape of `covariance_type`: spherical takes the mean of the template
/// (zero if empty), diagonal its diagonal, tied keeps it, full repeats it for
/// every state.
pub fn distribute_covar<T: Scalar>(
    tied_cv: &Matrix<T>,
    covariance_type: CovarianceType,
    n_components: usize,
) -> (r: CovarStore<T>)
    requires
        tied_cv.has_dims(tied_cv.ncols as int, tied_cv.ncols as int),
    ensures
        r.tag() == covariance_type,
        r.fits(n_components as int, tied_cv.ncols as int),
        forall|k: int, i: int, j: int|
            0 <= k < n_components && 0 <= i < tied_cv.ncols && 0 <= j < tied_cv.ncols
                ==> #[trigger] r.cov_at(k, i, j) == distributed_at(tied_cv, covariance_type, i, j),
{
    let nf: usize = tied_cv.ncols;
    match covariance_type {
        CovarianceType::Spherical => CovarStore::Spherical(
            filled(n_components, mean_of_all(tied_cv)),
        ),
        CovarianceType::Diag => {
            let f = |c: usize, i: usize| -> (x: T)
                requires
                    tied_cv.has_dims(nf as int, nf as int),
                    i < nf,
                ensures
                    x == tied_cv.at(i as int, i as int),
            {
                tied_cv.get(i, i)
            };
            CovarStore::Diag(Matrix::tabulate(n_components, nf, f))
        },
        CovarianceType::Tied => CovarStore::Tied(tied_cv.duplicate()),
        CovarianceType::Full => {
            let f = |c: usize, i: usize, j: usize| -> (x: T)
                requires
                    tied_cv.has_dims(nf as int, nf as int),
                    i < nf,
                    j < nf,
                ensures
                    x == tied_cv.at(i as int, j as int),
            {
                tied_cv.get(i, j)
            };
            CovarStore::Full(Cube::tabulate(n_components, nf, nf, f))
        },
    }
}

} // verus!
