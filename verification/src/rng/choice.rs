//! Weighted `choice` (with replacement).

use crate::rng::state::NumpyRandomState;
use crate::rng::uniform::sample_of;
use crate::scalar::{at_most, le, sigma, zero, Scalar};
use vstd::prelude::*;

verus! {

/// The sum of the first `k + 1` weights.
pub open spec fn cumulated<T: Scalar>(p: Seq<T>, k: int) -> T {
    sigma(k + 1, |i: int| p[i])
}

/// How many of the first `n` normalised cumulative weights lie at or below `u`,
/// counted from the front up to the first that does not.
pub open spec fn leading_at_most<T: Scalar>(p: Seq<T>, u: T, k: int) -> int
    decreases p.len() - k,
{
    if 0 <= k < p.len() && at_most(
        cumulated(p, k).s_over(cumulated(p, p.len() - 1)),
        u,
    ) {
        leading_at_most(p, u, k + 1)
    } else {
        k
    }
}

/// The index that the uniform number `u` picks among the weights `p`: the first
/// whose normalised cumulative weight is above `u`, and the last one where none
/// is.
pub open spec fn picked<T: Scalar>(p: Seq<T>, u: T) -> int {
    let k = leading_at_most(p, u, 0);
    if k < p.len() - 1 {
        k
    } else {
        p.len() - 1
    }
}

/// The index that the uniform number `u` picks among the weights `p`.
pub fn pick<T: Scalar>(p: &Vec<T>, u: T) -> (idx: usize)
    requires
        p.len() >= 1,
    ensures
        idx == picked(p@, u),
        idx < p.len(),
{
    let n: usize = p.len();
    let ghost w = |i: int| p@[i];
    let mut cdf: Vec<T> = Vec::new();
    let mut acc: T = zero();
    let mut i: usize = 0;
    while i < n
        invariant
            i <= n,
            n == p.len(),
            w == (|i: int| p@[i]),
            cdf.len() == i,
            acc == sigma(i as int, w),
            forall|k: int| 0 <= k < i ==> #[trigger] cdf@[k] == cumulated(p@, k),
        decreases n - i,
    {
        acc = acc.plus(p[i]);
        cdf.push(acc);
        i += 1;
    }
    let total = cdf[n - 1];
    let mut idx: usize = 0;
    while idx < n && le(cdf[idx].over(total), u)
        invariant
            idx <= n,
            n == p.len(),
            n >= 1,
            cdf.len() == n,
            total == cumulated(p@, n - 1),
            forall|k: int| 0 <= k < n ==> #[trigger] cdf@[k] == cumulated(p@, k),
            leading_at_most(p@, u, 0) == leading_at_most(p@, u, idx as int),
        decreases n - idx,
    {
        idx += 1;
    }
    if idx < n - 1 {
        idx
    } else {
        n - 1
    }
}

impl<T: Scalar> NumpyRandomState<T> {
    /// Draw one index in `0..p.len()` with probabilities proportional to `p`.
    pub fn choice_weighted(&mut self, p: &Vec<T>) -> (idx: usize)
        requires
            old(self).wf(),
            p.len() >= 1,
        ensures
            final(self).wf(),
            final(self)@ == old(self)@.sampled(),
            idx == picked(p@, sample_of::<T>(old(self)@.mt)),
            idx < p.len(),
    {
        let u = self.random_sample();
        pick(p, u)
    }
}

} // verus!
