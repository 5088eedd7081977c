//! The engine: parameter selection, recursions, inference and fitting.

pub mod agreement;
pub mod algorithms;
pub mod ascent;
pub mod choosing;
pub mod counts;
pub mod criteria;
pub mod emission;
pub mod expected;
pub mod fit;
pub mod fitted;
pub mod history;
pub mod hmm;
pub mod inference;
pub mod joined;
pub mod laws;
pub mod monitor;
pub mod opening;
pub mod optimality;
pub mod params;
pub mod powers;
pub mod raising;
pub mod rising;
pub mod sampling;
pub mod scaled;
pub mod shares;
pub mod stopping;
pub mod tables;
pub mod unique;
pub mod variational;

pub use emission::EmissionModel;
pub use fitted::Fitted;
pub use hmm::Hmm;
pub use inference::{Em, Inference};
pub use monitor::ConvergenceMonitor;
pub use params::{DecoderAlgorithm, Implementation, Param, ParamSet};
pub use variational::Variational;
