//! Error type shared across the crate.

use crate::text::{decimal, digits, joined};
use vstd::prelude::*;
use vstd::string::StringExecFns;

verus! {

/// Errors produced while building, fitting, or using a model.
#[derive(Debug, Clone, PartialEq)]
pub enum HmmError {
    /// An operation requiring fitted parameters was called on an unfitted model.
    NotFitted,
    /// `lengths` did not sum to the number of provided samples.
    LengthsMismatch {
        /// Sum of the supplied `lengths` array.
        total: usize,
        /// Number of samples actually provided.
        n_samples: usize,
    },
    /// The `scaling` forward pass underflowed (a column summed below `1e-300`).
    ScalingUnderflow,
    /// A constructor or input parameter was invalid.
    InvalidParameter(String),
    /// Input array had the wrong shape or was inconsistent with the model.
    DimensionMismatch(String),
    /// A covariance or scale matrix was not symmetric positive-definite.
    NotPositiveDefinite(String),
}

impl HmmError {
    /// The one-line description of the error.
    pub open spec fn message(&self) -> Seq<char> {
        match self {
            HmmError::NotFitted => "model is not fitted"@,
            HmmError::LengthsMismatch { total, n_samples } => "lengths array sums to "@ + digits(
                *total as nat,
            ) + " but "@ + digits(*n_samples as nat) + " samples were provided"@,
            HmmError::ScalingUnderflow => "forward pass failed; for sequences with negligible probability under the model consider the `log` implementation"@,
            HmmError::InvalidParameter(msg) => "invalid parameter: "@ + msg@,
            HmmError::DimensionMismatch(msg) => "dimension mismatch: "@ + msg@,
            HmmError::NotPositiveDefinite(msg) => "matrix is not symmetric positive-definite: "@
                + msg@,
        }
    }

    /// The one-line description of the error, as a `String`.
    pub fn to_text(&self) -> (s: String)
        ensures
            s@ == self.message(),
    {
        match self {
            HmmError::NotFitted => "model is not fitted".to_owned(),
            HmmError::LengthsMismatch { total, n_samples } => {
                let mut s = joined("lengths array sums to ", decimal(*total).as_str());
                s.append(" but ");
                s.append(decimal(*n_samples).as_str());
                s.append(" samples were provided");
                s
            },
            HmmError::ScalingUnderflow =>
                "forward pass failed; for sequences with negligible probability under the model consider the `log` implementation".to_owned(),
            HmmError::InvalidParameter(msg) => joined("invalid parameter: ", msg.as_str()),
            HmmError::DimensionMismatch(msg) => joined("dimension mismatch: ", msg.as_str()),
            HmmError::NotPositiveDefinite(msg) => joined(
                "matrix is not symmetric positive-definite: ",
                msg.as_str(),
            ),
        }
    }
}

} // verus!
