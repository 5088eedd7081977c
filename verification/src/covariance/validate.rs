//! Covariance validation.

use crate::covariance::store::CovarStore;
use crate::covariance::types::CovarianceType;
use crate::error::HmmError;
use crate::linalg::{
    any_not_positive, eigvalsh, is_symmetric, some_not_positive, sorted_eigenvalues,
    symmetric_within, Dense,
};
use crate::matrix::Matrix;
use crate::scalar::{at_most, dec, num, Scalar};
use crate::text::{decimal, digits, joined};
use vstd::prelude::*;
use vstd::string::StringExecFns;

verus! {

/// `a` is symmetric within `1e-8` and none of its eigenvalues is zero or below.
pub open spec fn positive_definite<T: Dense>(a: &Matrix<T>) -> bool {
    symmetric_within(a, dec(1, -8)) && !some_not_positive(sorted_eigenvalues(a@))
}

/// Whether `a` is symmetric within `1e-8` and positive-definite.
pub fn is_positive_definite<T: Dense>(a: &Matrix<T>) -> (r: bool)
    requires
        a.wf(),
    ensures
        r == positive_definite(a),
{
    if !is_symmetric(a, T::decimal(1, -8)) {
        return false;
    }
    !any_not_positive(&eigvalsh(a))
}

/// Some entry of the matrix is at most zero.
pub open spec fn some_entry_not_positive<T: Scalar>(a: &Matrix<T>) -> bool {
    exists|i: int, j: int|
        0 <= i < a.rows.len() && 0 <= j < a.ncols && at_most(#[trigger] a.at(i, j), num(0))
}

fn any_entry_not_positive<T: Scalar>(a: &Matrix<T>) -> (r: bool)
    requires
        a.wf(),
    ensures
        r == some_entry_not_positive(a),
{
    let mut i: usize = 0;
    while i < a.rows.len()
        invariant
            i <= a.rows.len(),
            a.wf(),
            forall|p: int, q: int|
                0 <= p < i && 0 <= q < a.ncols ==> !at_most(#[trigger] a.at(p, q), num(0)),
        decreases a.rows.len() - i,
    {
        if any_not_positive(&a.rows[i]) {
            proof {
                let s = a.rows@[i as int]@;
                let j = choose|j: int| 0 <= j < s.len() && at_most(#[trigger] s[j], num(0));
                assert(at_most(a.at(i as int, j), num(0)));
            }
            return true;
        }
        proof {
            assert forall|q: int| 0 <= q < a.ncols implies !at_most(
                #[trigger] a.at(i as int, q),
                num(0),
            ) by {
                assert(!at_most(a.rows@[i as int]@[q], num(0)));
            }
        }
        i += 1;
    }
    false
}

/// What validation finds: every shape right, every spherical and diagonal
/// variance positive, every tied or full matrix positive-definite.
pub open spec fn covars_valid<T: Dense>(covars: &CovarStore<T>, n_components: int) -> bool {
    match covars {
        CovarStore::Spherical(c) => c.len() == n_components && !some_not_positive(c@),
        CovarStore::Diag(c) => !some_entry_not_positive(c),
        CovarStore::Tied(c) => c.rows.len() == c.ncols && positive_definite(c),
        CovarStore::Full(c) => c.nrows == c.ncols && forall|k: int|
            0 <= k < c.items.len() ==> positive_definite(#[trigger] &c.items@[k]),
    }
}

/// The error for covariances that are not valid. For the full form it names the
/// first component that fails.
pub open spec fn covars_flaw<T: Dense>(covars: &CovarStore<T>, nc: int, e: HmmError) -> bool {
    match covars {
        CovarStore::Spherical(c) => if c.len() != nc {
            e matches HmmError::DimensionMismatch(m) && m@
                == "'spherical' covars have length n_components"@
        } else {
            e matches HmmError::InvalidParameter(m) && m@
                == "'spherical' covars must be positive"@
        },
        CovarStore::Diag(c) => e matches HmmError::InvalidParameter(m) && m@
            == "'diag' covars must be positive"@,
        CovarStore::Tied(c) => if c.rows.len() != c.ncols {
            e matches HmmError::DimensionMismatch(m) && m@
                == "'tied' covars must have shape (n_dim, n_dim)"@
        } else {
            e matches HmmError::NotPositiveDefinite(m) && m@
                == "'tied' covars must be symmetric, positive-definite"@
        },
        CovarStore::Full(c) => if c.nrows != c.ncols {
            e matches HmmError::DimensionMismatch(m) && m@
                == "'full' covars must have shape (n_components, n_dim, n_dim)"@
        } else {
            e matches HmmError::NotPositiveDefinite(m) && exists|n: int|
                0 <= n < c.items.len() && !positive_definite(#[trigger] &c.items@[n]) && (forall|
                    k: int,
                |
                    0 <= k < n ==> positive_definite(#[trigger] &c.items@[k])) && m@
                    == "component "@ + digits(n as nat)
                    + " of 'full' covars must be symmetric, positive-definite"@
        },
    }
}

/// What is said of covariances that do not have the shape of their type.
pub open spec fn shape_message(t: CovarianceType) -> Seq<char> {
    match t {
        CovarianceType::Spherical => "'spherical' covars have length n_components"@,
        CovarianceType::Diag => "'diag' covars must have shape (n_components, n_dim)"@,
        CovarianceType::Tied => "'tied' covars must have shape (n_dim, n_dim)"@,
        CovarianceType::Full => "'full' covars must have shape (n_components, n_dim, n_dim)"@,
    }
}

/// The covariances are valid and those of `nc` states over `nf` features.
pub open spec fn covars_right<T: Dense>(covars: &CovarStore<T>, nc: int, nf: int) -> bool {
    covars.fits(nc, nf) && covars_valid(covars, nc)
}

/// The error for covariances that are not right: a wrong shape first.
pub open spec fn covars_wrong<T: Dense>(
    covars: &CovarStore<T>,
    nc: int,
    nf: int,
    e: HmmError,
) -> bool {
    if !covars.fits(nc, nf) {
        e matches HmmError::DimensionMismatch(m) && m@ == shape_message(covars.tag())
    } else {
        covars_flaw(covars, nc, e)
    }
}

/// Validate that the covariances are those of `n_components` states over
/// `n_features` features, and positive-definite.
pub fn check_covars<T: Dense>(
    covars: &CovarStore<T>,
    n_components: usize,
    n_features: usize,
) -> (r: Result<(), HmmError>)
    requires
        covars.wf(),
    ensures
        r is Ok <==> covars_right(covars, n_components as int, n_features as int),
        r matches Err(e) ==> covars_wrong(covars, n_components as int, n_features as int, e),
{
    if !covars.has_shape(n_components, n_features) {
        let m = match covars {
            CovarStore::Spherical(_) => "'spherical' covars have length n_components",
            CovarStore::Diag(_) => "'diag' covars must have shape (n_components, n_dim)",
            CovarStore::Tied(_) => "'tied' covars must have shape (n_dim, n_dim)",
            CovarStore::Full(_) => "'full' covars must have shape (n_components, n_dim, n_dim)",
        };
        return Err(HmmError::DimensionMismatch(m.to_owned()));
    }
    validate_covars(covars, n_components)
}

/// Validate covariance shapes and positive-definiteness.
///
/// The number of components is enforced for the spherical form alone. The error
/// for the full form names the first component that fails.
pub fn validate_covars<T: Dense>(covars: &CovarStore<T>, n_components: usize) -> (r: Result<
    (),
    HmmError,
>)
    requires
        covars.wf(),
    ensures
        r is Ok <==> covars_valid(covars, n_components as int),
        r matches Err(e) ==> covars_flaw(covars, n_components as int, e),
{
    match covars {
        // Length must equal the state count; every scalar variance must be positive.
        CovarStore::Spherical(c) => {
            if c.len() != n_components {
                return Err(
                    HmmError::DimensionMismatch(
                        "'spherical' covars have length n_components".to_owned(),
                    ),
                );
            }
            if any_not_positive(c) {
                return Err(
                    HmmError::InvalidParameter("'spherical' covars must be positive".to_owned()),
                );
            }
        },
        // Every per-feature variance must be positive.
        CovarStore::Diag(c) => {
            if any_entry_not_positive(c) {
                return Err(HmmError::InvalidParameter("'diag' covars must be positive".to_owned()));
            }
        },
        // Single shared matrix: square, symmetric, and positive-definite.
        CovarStore::Tied(c) => {
            if c.rows.len() != c.ncols {
                return Err(
                    HmmError::DimensionMismatch(
                        "'tied' covars must have shape (n_dim, n_dim)".to_owned(),
                    ),
                );
            }
            if !is_positive_definite(c) {
                return Err(
                    HmmError::NotPositiveDefinite(
                        "'tied' covars must be symmetric, positive-definite".to_owned(),
                    ),
                );
            }
        },
        // Each per-state matrix: square, symmetric, and positive-definite.
        CovarStore::Full(c) => {
            if c.nrows != c.ncols {
                return Err(
                    HmmError::DimensionMismatch(
                        "'full' covars must have shape (n_components, n_dim, n_dim)".to_owned(),
                    ),
                );
            }
            let mut n: usize = 0;
            while n < c.items.len()
                invariant
                    n <= c.items.len(),
                    c.wf(),
                    c.nrows == c.ncols,
                    *covars == CovarStore::Full(*c),
                    forall|k: int| 0 <= k < n ==> positive_definite(#[trigger] &c.items@[k]),
                decreases c.items.len() - n,
            {
                if !is_positive_definite(&c.items[n]) {
                    let mut m = joined("component ", decimal(n).as_str());
                    m.append(" of 'full' covars must be symmetric, positive-definite");
                    assert(!positive_definite(&c.items@[n as int]));
                    return Err(HmmError::NotPositiveDefinite(m));
                }
                n += 1;
            }
        },
    }
    Ok(())
}

} // verus!
