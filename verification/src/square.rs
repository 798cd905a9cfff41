//! The tagged state of one board square, and its mathematical image.

use vstd::prelude::*;

use crate::piece::Piece;
use crate::position::{CandidateModel, ReversibleCandidates};

verus! {

/// Represents a square on the board.
#[derive(Debug, PartialEq)]
pub enum Square {
    /// The square is empty and is not currently a legal placement.
    Empty,
    /// The square holds a placed piece; a piece is reversed in place but
    /// never removed.
    Put(Piece),
    /// The square is empty and choosing it as a move target captures the
    /// listed bracket groups.
    Puttable(Vec<ReversibleCandidates>),
}

/// The mathematical image of a square: the same three tags over
/// sequences instead of vectors.
pub ghost enum SquareModel {
    Empty,
    Put(Piece),
    Puttable(Seq<CandidateModel>),
}

impl View for Square {
    type V = SquareModel;

    open spec fn view(&self) -> SquareModel {
        match self {
            Square::Empty => SquareModel::Empty,
            Square::Put(p) => SquareModel::Put(*p),
            Square::Puttable(v) => SquareModel::Puttable(
                v@.map(|i: int, rc: ReversibleCandidates| rc@),
            ),
        }
    }
}

impl Clone for Square {
    /// A clone carries the same tag, piece and bracket groups.
    fn clone(&self) -> (r: Self)
        ensures
            r@ == self@,
    {
        match self {
            Square::Empty => Square::Empty,
            Square::Put(p) => Square::Put(*p),
            Square::Puttable(v) => {
                let n = v.len();
                let mut cands: Vec<ReversibleCandidates> = Vec::new();
                let mut i: usize = 0;
                while i < n
                    invariant
                        i <= n,
                        n == v@.len(),
                        cands@.len() == i,
                        forall|j: int| 0 <= j < i ==> (#[trigger] cands@[j])@ == v@[j]@,
                    decreases n - i,
                {
                    cands.push(v[i].clone());
                    i += 1;
                }
                proof {
                    assert(cands@.map(|j: int, rc: ReversibleCandidates| rc@) =~= v@.map(
                        |j: int, rc: ReversibleCandidates| rc@,
                    ));
                }
                Square::Puttable(cands)
            },
        }
    }
}

impl SquareModel {
    /// Every bracket group attached to a puttable square is well formed.
    pub open spec fn wf(self) -> bool {
        match self {
            SquareModel::Puttable(gs) => gs.len() >= 1 && forall|k: int|
                0 <= k < gs.len() ==> (#[trigger] gs[k]).wf(),
            _ => true,
        }
    }
}

} // verus!
