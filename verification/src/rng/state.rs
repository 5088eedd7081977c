//! The random state: a bit generator and the cached Gaussian.

use crate::rng::mt19937::{seeded, seeded_by_array, Mt19937, MtView};
use crate::scalar::Scalar;
use vstd::prelude::*;

verus! {

/// How often a rejection loop draws before it gives up. No draw of the
/// distributions here comes near it.
pub const ATTEMPTS: u64 = 0x7fff_ffff_ffff_ffff;

/// The state of a [`NumpyRandomState`].
pub struct RngView<T> {
    /// The bit generator.
    pub mt: MtView,
    /// The second value of the last Gaussian pair, while it is not used.
    pub gauss: Option<T>,
}

impl<T> RngView<T> {
    /// The bit generator is well formed.
    pub open spec fn wf(self) -> bool {
        self.mt.wf()
    }
}

/// A random state that reproduces NumPy's `RandomState`.
#[derive(Clone)]
pub struct NumpyRandomState<T> {
    /// The bit generator driving every draw.
    pub mt: Mt19937,
    /// Cached second value of the polar Box-Muller pair.
    pub gauss: Option<T>,
}

impl<T: Scalar> NumpyRandomState<T> {
    /// The state as a mathematical value.
    pub open spec fn view(&self) -> RngView<T> {
        RngView { mt: self.mt@, gauss: self.gauss }
    }

    /// The bit generator is well formed.
    pub open spec fn wf(&self) -> bool {
        self.mt.wf()
    }

    /// A state seeded by a 32-bit word, with an empty Gaussian cache.
    pub fn new(seed: u32) -> (r: Self)
        ensures
            r.wf(),
            r@ == fresh_state::<T>(seed),
    {
        NumpyRandomState { mt: Mt19937::new_seed(seed), gauss: None }
    }

    /// A state seeded by a non-empty array, with an empty Gaussian cache.
    pub fn from_array_seed(key: &[u32]) -> (r: Self)
        requires
            key@.len() >= 1,
        ensures
            r.wf(),
            r@ == (RngView::<T> { mt: seeded_by_array(key@), gauss: None }),
    {
        NumpyRandomState { mt: Mt19937::new_by_array(key), gauss: None }
    }
}

/// The state that a 32-bit seed gives.
pub open spec fn fresh_state<T>(seed: u32) -> RngView<T> {
    RngView { mt: seeded(seed), gauss: None }
}

} // verus!
