//! A board value constrained to exactly one set bit: a single square.

use vstd::prelude::*;

use crate::bits::{popcnt64, popcount_u64};

verus! {

/// A board-shaped value with exactly one bit set, identifying a single
/// square. The only public way to obtain one is the checked constructor or
/// decomposition of a full board, so the single-bit invariant always holds.
#[derive(Clone, Copy, Debug, PartialEq, Eq, Structural, Hash)]
pub struct Position {
    mask: u64,
}

impl View for Position {
    type V = u64;

    closed spec fn view(&self) -> u64 {
        self.mask
    }
}

impl Position {
    /// The single-bit invariant: exactly one bit of the mask is set.
    pub open spec fn wf(self) -> bool {
        popcnt64(self@) == 1
    }

    /// Unchecked construction, restricted to decomposition code paths that
    /// are single-bit by construction.
    pub(crate) fn new_unchecked(mask: u64) -> (r: Position)
        requires
            popcnt64(mask) == 1,
        ensures
            r@ == mask,
            r.wf(),
    {
        Position { mask }
    }

    /// Checked construction: accepts exactly the masks with one set bit and
    /// rejects every other raw value.
    pub fn new(mask: u64) -> (r: Option<Position>)
        ensures
            r is Some <==> popcnt64(mask) == 1,
            r matches Some(p) ==> p@ == mask && p.wf(),
    {
        if popcount_u64(mask) == 1 {
            Some(Position { mask })
        } else {
            None
        }
    }

    /// Retrieves the underlying single-bit mask.
    #[must_use]
    pub fn raw(self) -> (r: u64)
        ensures
            r == self@,
    {
        self.mask
    }
}

} // verus!
