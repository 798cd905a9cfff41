//! The pass rule: when the side to move has no legal placement, skip
//! its turn and compensate the other side with one previously placed
//! piece.

use vstd::prelude::*;

use crate::board::{spec_has_puttable, Board};
use crate::color::Color;
use crate::piece::{ledger_has_color, max_of_color, Piece, UsedPiece};
use crate::pieces::{add_model, spec_rest, Pieces};
use crate::scan::{check_puttable_position_exists, scan_model};
use crate::turn::Turn;

verus! {

/// Pass compensation for `comp_color` is possible: the ledger holds a
/// piece of that color, its highest-valued such piece has a value the
/// inventory covers, and the matching inventory count can still grow.
pub open spec fn check_pass_enabled(
    comp_color: Color,
    used_set: Set<Piece>,
    pieces_m: (Seq<u8>, Seq<u8>),
) -> bool {
    &&& ledger_has_color(used_set, comp_color)
    &&& 1 <= max_of_color(used_set, comp_color).value <= 10
    &&& spec_rest(pieces_m, comp_color, max_of_color(used_set, comp_color).value as int) < 255
}

/// Decides whether the side to move must pass. When the board holds a
/// puttable square the state is returned unchanged. Otherwise the turn
/// flips back to the other side, that side's highest-valued ledger
/// piece moves from the ledger to its inventory, and the board is
/// rescanned for the restored mover.
pub fn check_pass(turn: Turn, board: Board, used: UsedPiece, pieces: Pieces) -> (r: (
    Turn,
    UsedPiece,
    Pieces,
    Board,
))
    requires
        board.wf(),
        used.wf(),
        pieces.wf(),
        !spec_has_puttable(board@) ==> check_pass_enabled(
            turn.color.spec_opposite(),
            used@,
            pieces@,
        ),
    ensures
        r.1.wf(),
        r.2.wf(),
        r.3.wf(),
        spec_has_puttable(board@) ==> r == (turn, used, pieces, board),
        !spec_has_puttable(board@) ==> {
            let comp = max_of_color(used@, turn.color.spec_opposite());
            &&& r.0 == (Turn { color: turn.color.spec_opposite() })
            &&& r.1@ == used@.remove(comp)
            &&& r.2@ == add_model(pieces@, comp)
            &&& r.3@ == scan_model(board@, turn.color.spec_opposite())
        },
{
    if board.has_puttable() {
        (turn, used, pieces, board)
    } else {
        let turn = turn.change();
        let add_piece = used.get_add_piece(turn);
        let used = used.remove_piece(add_piece);
        let pieces = pieces.add(&add_piece);
        let board = check_puttable_position_exists(board, turn);
        (turn, used, pieces, board)
    }
}

} // verus!
