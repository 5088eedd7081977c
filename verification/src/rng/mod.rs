//! NumPy's legacy `RandomState`, draw for draw.
//!
//! [`NumpyRandomState`] wraps an [`mt19937::Mt19937`] generator and the cached
//! Gaussian used by `standard_normal`. Every draw is specified as a function of
//! the generator's state: the value drawn and the state left behind.

pub mod choice;
pub mod discrete;
pub mod gamma;
pub mod gauss;
pub mod mt19937;
pub mod pairs;
pub mod shares;
pub mod state;
pub mod uniform;

pub use state::NumpyRandomState;
