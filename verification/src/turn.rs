//! The turn of play.

use vstd::prelude::*;

use crate::color::Color;

verus! {

/// The side whose move it is. The association of a turn with a human or
/// computer controller is a concern of the caller, not of the rule
/// engine.
#[derive(Debug, Clone, Copy, PartialEq, Eq, Structural)]
pub struct Turn {
    pub color: Color,
}

impl Turn {
    /// Advances the turn to the opponent color.
    pub fn change(&self) -> (r: Self)
        ensures
            r.color == self.color.spec_opposite(),
    {
        match &self.color {
            Color::Black => Turn { color: Color::White },
            Color::White => Turn { color: Color::Black },
        }
    }
}

} // verus!
