//! Variational models.

pub mod categorical;
pub mod gaussian;
pub mod objective;
pub mod updates;

pub use categorical::{VariationalCategoricalEm, VariationalCategoricalHmm};
pub use gaussian::{Dof, VariationalGaussianEm, VariationalGaussianHmm};
