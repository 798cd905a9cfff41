//! The derived score of a board.

use vstd::prelude::*;

verus! {

/// The total value of the pieces on the board for each color. A score is
/// derived from a board, never stored.
#[derive(Debug, Clone, Copy, PartialEq, Eq, Structural)]
pub struct Score {
    pub black: usize,
    pub white: usize,
}

} // verus!
