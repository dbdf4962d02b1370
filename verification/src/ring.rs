//! Arithmetic over the circular 128-bit identifier space.
//!
//! The ring is the set of integers modulo 2^128, ordered clockwise. Every
//! routing decision of the node reduces to the strictly-between predicate
//! defined here.

use vstd::prelude::*;

verus! {

/// Number of bits in a ring identifier.
pub const RING_BIT_LENGTH: usize = 128;

/// Number of entries in a successor list.
pub const SUCCESSOR_LIST_LENGTH: usize = 5;

/// Whether `pos` lies strictly inside the clockwise open interval from
/// `start` to `end` on the ring: for `start < end` the ordinary open
/// interval, for `start > end` the wrapped one, and the empty interval
/// when `start == end`.
pub open spec fn spec_strictly_between(pos: u128, start: u128, end: u128) -> bool {
    if start < end {
        start < pos && pos < end
    } else if start > end {
        pos > start || pos < end
    } else {
        false
    }
}

/// Decides whether `pos` is strictly between `start` and `end` when walking
/// the ring clockwise from `start`.
pub fn strictly_between(pos: u128, start: u128, end: u128) -> (r: bool)
    ensures
        r == spec_strictly_between(pos, start, end),
{
    if start > end {
        pos > start || pos < end
    } else if start < end {
        pos > start && pos < end
    } else {
        false
    }
}

/// The clockwise open interval from a point to itself is empty: no position
/// lies strictly between a bound and itself.
pub proof fn lemma_strictly_between_empty_range(pos: u128, bound: u128)
    ensures
        !spec_strictly_between(pos, bound, bound),
{
}

} // verus!

