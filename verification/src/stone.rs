//! The two player markers that can occupy a board square.

use vstd::prelude::*;

verus! {

/// One of the two stone colors available on a standard Othello board.
#[derive(Copy, Clone, Debug, Eq, PartialEq, Hash, Structural)]
pub enum Stone {
    Black,
    White,
}

/// The opposite color of a stone.
pub open spec fn flip_spec(s: Stone) -> Stone {
    match s {
        Stone::Black => Stone::White,
        Stone::White => Stone::Black,
    }
}

impl Stone {
    /// Returns the opposite side of a standard Othello stone.
    #[must_use]
    pub fn flip(&self) -> (r: Self)
        ensures
            r == flip_spec(*self),
    {
        match &self {
            Self::Black => Self::White,
            Self::White => Self::Black,
        }
    }
}

/// Flipping a stone never returns the same color, and flipping twice
/// returns the original color.
pub proof fn lemma_stone_flip_equality(s: Stone)
    ensures
        flip_spec(s) != s,
        flip_spec(flip_spec(s)) == s,
{
}

} // verus!
