//! Concrete models and their builders.

pub mod averages;
pub mod categorical;
pub mod dimensions;
pub mod drawing;
pub mod gaussian;
pub mod gmm;
pub mod learning;
pub mod likelihoods;
pub mod mixing;
pub mod mixture;
pub mod moments;
pub mod multinomial;
pub mod poisson;
pub mod rising;
pub mod rising_multinomial;
pub mod rising_poisson;
pub mod shared;
pub mod starting;
pub mod tallies;
pub mod validity;
pub mod variational;
pub mod weighing;

pub use categorical::{CategoricalEm, CategoricalHmm};
pub use gaussian::{GaussianEm, GaussianHmm};
pub use gmm::{GmmCovars, GmmEm, GmmHmm};
pub use multinomial::{MultinomialEm, MultinomialHmm};
pub use poisson::{PoissonEm, PoissonHmm};
pub use variational::{
    Dof, VariationalCategoricalEm, VariationalCategoricalHmm, VariationalGaussianEm,
    VariationalGaussianHmm,
};
