//! Grid coordinates and located capture brackets.

use vstd::prelude::*;

verus! {

/// A position on the 8x8 board: `x` selects the column of squares,
/// `y` the row within it. Both coordinates lie in `[0, 8)` on a valid
/// board position.
#[derive(Debug, Clone, Copy, PartialEq, Eq, Structural, Hash)]
pub struct Position {
    pub x: usize,
    pub y: usize,
}

impl Position {
    /// True iff the position lies on the 8x8 board.
    pub open spec fn in_bounds(self) -> bool {
        self.x < 8 && self.y < 8
    }

    /// Adds a signed `(x, y)` offset and yields signed coordinates, so
    /// that a caller can bounds-check the neighbour before re-validating
    /// it as an unsigned `Position`.
    pub fn next_position(&self, d: (isize, isize)) -> (r: (isize, isize))
        requires
            self.in_bounds(),
            -1 <= d.0 <= 1,
            -1 <= d.1 <= 1,
        ensures
            r.0 == self.x + d.0,
            r.1 == self.y + d.1,
    {
        (self.x as isize + d.0, self.y as isize + d.1)
    }
}

/// The mathematical image of one capture bracket: the anchor position
/// and the run of reversible positions as a sequence.
pub ghost struct CandidateModel {
    pub opposite: Position,
    pub positions: Seq<Position>,
}

impl CandidateModel {
    /// The anchor and every run position lie on the board, and the run
    /// is non-empty: a direction with no opponent piece before the
    /// anchor yields no bracket at all.
    pub open spec fn wf(self) -> bool {
        self.opposite.in_bounds() && self.positions.len() >= 1 && forall|i: int|
            0 <= i < self.positions.len() ==> (#[trigger] self.positions[i]).in_bounds()
    }
}

/// One directional capture bracket located from a candidate placement
/// square: `positions` are the opponent-colored squares strictly between
/// the placement square and `opposite`, ordered nearest-to-placement
/// first; `opposite` holds the same-color anchor piece that closes the
/// bracket.
#[derive(Debug, PartialEq)]
pub struct ReversibleCandidates {
    pub opposite: Position,
    pub positions: Vec<Position>,
}

impl Clone for ReversibleCandidates {
    /// A clone has the same anchor and the same run.
    fn clone(&self) -> (r: Self)
        ensures
            r@ == self@,
    {
        let n = self.positions.len();
        let mut positions: Vec<Position> = Vec::new();
        let mut i: usize = 0;
        while i < n
            invariant
                i <= n,
                n == self.positions@.len(),
                positions@.len() == i,
                forall|j: int| 0 <= j < i ==> positions@[j] == self.positions@[j],
            decreases n - i,
        {
            positions.push(self.positions[i]);
            i += 1;
        }
        proof {
            assert(positions@ =~= self.positions@);
        }
        Self { opposite: self.opposite, positions }
    }
}

impl View for ReversibleCandidates {
    type V = CandidateModel;

    open spec fn view(&self) -> CandidateModel {
        CandidateModel { opposite: self.opposite, positions: self.positions@ }
    }
}

impl ReversibleCandidates {
    /// Bundles an anchor and its run of reversible positions.
    pub fn new(opposite: Position, positions: Vec<Position>) -> (r: Self)
        ensures
            r.opposite == opposite,
            r.positions == positions,
    {
        Self { opposite, positions }
    }
}

} // verus!
