//! Probability densities and estimators used by the emission models.

pub mod covariance;
pub mod densities;
pub mod estimates;
pub mod mvn;

pub use covariance::sample_covariance;
pub use mvn::log_multivariate_normal_density;
