//! The two piece colors.

use vstd::prelude::*;

verus! {

/// A type that represents the color of a `Piece`.
#[derive(Debug, PartialEq, Eq, Structural, Hash, Clone, Copy)]
pub enum Color {
    Black,
    White,
}

impl Color {
    /// The opposite color: the opponent of `self`.
    pub open spec fn spec_opposite(self) -> Color {
        match self {
            Color::Black => Color::White,
            Color::White => Color::Black,
        }
    }
}

} // verus!
