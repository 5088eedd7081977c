//! Hidden Markov models with categorical, multinomial, Poisson, Gaussian and
//! Gaussian-mixture emissions, trained by expectation-maximisation or by
//! mean-field variational inference.
//!
//! Every algorithm is written over an abstract arithmetic ([`scalar::Scalar`]),
//! so that its contract says exactly which operations it performs on which
//! entries, in which order.

pub mod cluster;
pub mod clustering;
pub mod counting;
pub mod covariance;
pub mod divergence;
pub mod engine;
pub mod error;
pub mod exact;
pub mod kl;
pub mod linalg;
pub mod matrix;
pub mod models;
pub mod proportions;
pub mod reading;
pub mod reals;
pub mod rng;
pub mod scalar;
pub mod sign;
pub mod special;
pub mod stats;
pub mod text;
pub mod util;

pub use crate::error::HmmError;
