//! Adaptive spin budget of a polling engine.

use vstd::prelude::*;

verus! {

/// Upper bound of the spin budget.
pub const DP_LIMIT: usize = 131072;

/// The budget after one doubling, saturating at [`DP_LIMIT`].
pub open spec fn doubled(b: usize) -> usize {
    if 2 * b <= DP_LIMIT {
        (2 * b) as usize
    } else {
        DP_LIMIT
    }
}

/// The budget after one halving, never below one.
pub open spec fn halved(b: usize) -> usize {
    if b / 2 >= 1 {
        b / 2
    } else {
        1
    }
}

/// Doubles a spin budget, saturating at [`DP_LIMIT`].
pub fn double(b: usize) -> (r: usize)
    requires
        1 <= b <= DP_LIMIT,
    ensures
        r == doubled(b),
        1 <= r <= DP_LIMIT,
{
    if b <= DP_LIMIT / 2 {
        b * 2
    } else {
        DP_LIMIT
    }
}

/// Halves a spin budget, never below one.
pub fn halve(b: usize) -> (r: usize)
    requires
        1 <= b <= DP_LIMIT,
    ensures
        r == halved(b),
        1 <= r <= DP_LIMIT,
{
    let h: usize = b / 2;
    if h >= 1 {
        h
    } else {
        1
    }
}

} // verus!
