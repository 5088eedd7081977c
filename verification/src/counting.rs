//! Counts that stop at the largest machine integer.

use vstd::prelude::*;

verus! {

/// `n`, or the largest count that a machine integer holds where `n` is larger.
pub open spec fn saturated(n: int) -> int {
    if n > usize::MAX {
        usize::MAX as int
    } else {
        n
    }
}

/// `a + b`, clamped to the largest machine integer.
pub fn clamped_sum(a: usize, b: usize) -> (r: usize)
    ensures
        r == saturated(a + b),
{
    match a.checked_add(b) {
        Some(x) => x,
        None => usize::MAX,
    }
}

/// `a * b`, clamped to the largest machine integer.
pub fn clamped_product(a: usize, b: usize) -> (r: usize)
    ensures
        r == saturated(a * b),
{
    match a.checked_mul(b) {
        Some(x) => x,
        None => usize::MAX,
    }
}

/// Clamping a factor before multiplying does not change the clamped product.
pub proof fn saturated_factor(n: int, b: int)
    requires
        0 <= n,
        0 <= b,
    ensures
        saturated(saturated(n) * b) == saturated(n * b),
        0 <= n * b,
{
    assert(0 <= n * b) by (nonlinear_arith)
        requires
            0 <= n,
            0 <= b,
    ;
    if n > usize::MAX {
        if b >= 1 {
            let m = usize::MAX as int;
            assert(n * b >= n && m * b >= m) by (nonlinear_arith)
                requires
                    b >= 1,
                    n >= 0,
                    m >= 0,
            ;
        } else {
            assert(n * 0 == 0) by (nonlinear_arith);
            assert(saturated(n) * 0 == 0) by (nonlinear_arith);
        }
    }
}

} // verus!
