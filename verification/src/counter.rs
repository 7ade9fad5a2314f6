//! Event counters that stop at their maximum instead of wrapping.
use vstd::prelude::*;

verus! {

/// A counter one further; it stays at its maximum once there.
pub open spec fn bump(c: u64) -> u64 {
    if c < u64::MAX {
        (c + 1) as u64
    } else {
        c
    }
}

/// Counts one more event.
pub fn bumped(c: u64) -> (r: u64)
    ensures
        r == bump(c),
{
    if c < u64::MAX {
        c + 1
    } else {
        c
    }
}

} // verus!
