//! Covariance parameterisations, their storage and their validation.

pub mod store;
pub mod types;
pub mod validate;
pub mod validity;

pub use store::{distribute_covar, CovarStore};
pub use types::CovarianceType;
pub use validate::validate_covars;
