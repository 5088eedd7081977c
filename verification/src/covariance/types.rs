//! The covariance-parameterisation tag shared by the Gaussian-family models.

use crate::error::HmmError;
use crate::text::{joined, quoted, quoted_text, same_text};
use vstd::prelude::*;

verus! {

/// How a Gaussian model parameterises its covariance.
#[derive(Debug, Clone, Copy, PartialEq, Eq, Structural)]
pub enum CovarianceType {
    /// One scalar variance per state: stored `(n_components,)`.
    Spherical,
    /// One variance per feature per state: stored `(n_components, n_features)`.
    Diag,
    /// A full matrix per state: stored `(n_components, n_features, n_features)`.
    Full,
    /// A single full matrix shared by all states: stored `(n_features, n_features)`.
    Tied,
}

impl CovarianceType {
    /// The lowercase name of the parameterisation.
    pub open spec fn name(self) -> Seq<char> {
        match self {
            CovarianceType::Spherical => "spherical"@,
            CovarianceType::Diag => "diag"@,
            CovarianceType::Full => "full"@,
            CovarianceType::Tied => "tied"@,
        }
    }

    /// Whether `s` names one of the four parameterisations.
    pub open spec fn is_name(s: Seq<char>) -> bool {
        s == "spherical"@ || s == "diag"@ || s == "full"@ || s == "tied"@
    }

    /// The lowercase name (`"spherical"`, `"diag"`, `"full"`, `"tied"`).
    pub fn as_str(self) -> (s: &'static str)
        ensures
            s@ == self.name(),
    {
        match self {
            CovarianceType::Spherical => "spherical",
            CovarianceType::Diag => "diag",
            CovarianceType::Full => "full",
            CovarianceType::Tied => "tied",
        }
    }

    /// The name as an owned string.
    pub fn to_text(self) -> (s: String)
        ensures
            s@ == self.name(),
    {
        self.as_str().to_owned()
    }

    /// Parses one of the four names; any other string yields
    /// [`HmmError::InvalidParameter`].
    pub fn parse(s: &str) -> (r: Result<Self, HmmError>)
        ensures
            match r {
                Ok(t) => s@ == t.name(),
                Err(e) => !Self::is_name(s@) && e.message() == "invalid parameter: "@ + (
                "covariance_type must be one of spherical/diag/full/tied, got "@ + quoted_text(s@)),
            },
    {
        if same_text(s, "spherical") {
            Ok(CovarianceType::Spherical)
        } else if same_text(s, "diag") {
            Ok(CovarianceType::Diag)
        } else if same_text(s, "full") {
            Ok(CovarianceType::Full)
        } else if same_text(s, "tied") {
            Ok(CovarianceType::Tied)
        } else {
            Err(
                HmmError::InvalidParameter(
                    joined(
                        "covariance_type must be one of spherical/diag/full/tied, got ",
                        quoted(s).as_str(),
                    ),
                ),
            )
        }
    }
}

impl std::str::FromStr for CovarianceType {
    type Err = HmmError;

    fn from_str(s: &str) -> (r: Result<Self, HmmError>)
        ensures
            match r {
                Ok(t) => s@ == t.name(),
                Err(e) => !Self::is_name(s@) && e.message() == "invalid parameter: "@ + ("covariance_type must be one of spherical/diag/full/tied, got "@
                    + quoted_text(s@)),
            },
    {
        CovarianceType::parse(s)
    }
}

/// Parsing the name of a parameterisation gives that parameterisation back: the
/// four names are distinct, so a successful parse of `t`'s name is `t`.
pub proof fn names_are_distinct(t: CovarianceType, u: CovarianceType)
    ensures
        CovarianceType::is_name(t.name()),
        t.name() == u.name() ==> t == u,
{
    reveal_strlit("spherical");
    reveal_strlit("diag");
    reveal_strlit("full");
    reveal_strlit("tied");
    assert("diag"@[0] == 'd');
    assert("full"@[0] == 'f');
    assert("tied"@[0] == 't');
    assert("spherical"@[0] == 's');
}

} // verus!
