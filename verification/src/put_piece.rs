//! The move orchestrator: one state transition per attempted move,
//! including the automatic pass-and-compensate rule.

use vstd::prelude::*;

use crate::board::{spec_has_puttable, Board, BoardModel};
use crate::check_pass::{check_pass, check_pass_enabled};
use crate::color::Color;
use crate::piece::{max_of_color, Piece, UsedPiece};
use crate::pieces::{add_model, remove_model, spec_rest, Pieces};
use crate::position::{CandidateModel, Position, ReversibleCandidates};
use crate::reverse::{reverse, reverse_model};
use crate::scan::{cand_views, check_puttable_position_exists, scan_model};
use crate::square::{Square, SquareModel};
use crate::turn::Turn;

verus! {

/// The board with `piece` placed at `pos` and every other square
/// unchanged.
pub open spec fn placed_model(b: BoardModel, pos: Position, piece: Piece) -> BoardModel {
    b.update(pos.x as int, b[pos.x as int].update(pos.y as int, SquareModel::Put(piece)))
}

/// The board an accepted move hands to the pass check: `piece` placed
/// at `pos`, the target square's bracket groups captured, and the
/// board rescanned first for the mover and again for the opponent.
pub open spec fn after_move_model(b: BoardModel, pos: Position, piece: Piece, mover: Color) -> BoardModel {
    scan_model(
        scan_model(
            reverse_model(
                placed_model(b, pos, piece),
                piece,
                b[pos.x as int][pos.y as int]->Puttable_0,
            ),
            mover,
        ),
        mover.spec_opposite(),
    )
}

/// What an accepted move demands of its inputs: the chosen piece can
/// be removed from the inventory, and if the opponent will have no
/// placement, compensation for the mover is possible.
pub open spec fn accepted_move_requires(
    position: Position,
    piece: Piece,
    b: BoardModel,
    turn: Turn,
    pieces_m: (Seq<u8>, Seq<u8>),
    used_set: Set<Piece>,
) -> bool {
    &&& 1 <= piece.value <= 10
    &&& spec_rest(pieces_m, piece.color, piece.value as int) > 0
    &&& (!spec_has_puttable(after_move_model(b, position, piece, turn.color))
        ==> check_pass_enabled(
        turn.color,
        used_set.insert(piece),
        remove_model(pieces_m, piece),
    ))
}

/// A square holds a piece after the capture pass iff it held one
/// before: a reversal changes a piece's color, never the occupancy.
pub proof fn lemma_reverse_preserves_occupancy(
    b: BoardModel,
    piece: Piece,
    cands: Seq<CandidateModel>,
    x: int,
    y: int,
)
    requires
        0 <= x < 8,
        0 <= y < 8,
    ensures
        (reverse_model(b, piece, cands)[x][y] is Put) == (b[x][y] is Put),
{
}

/// A square holds a piece after a scan iff it held one before: the
/// scan only retags squares that hold no piece.
pub proof fn lemma_scan_preserves_occupancy(b: BoardModel, c: Color, x: int, y: int)
    requires
        0 <= x < 8,
        0 <= y < 8,
    ensures
        (scan_model(b, c)[x][y] is Put) == (b[x][y] is Put),
{
}

/// An accepted move occupies exactly the target square in addition to
/// the squares already occupied: the occupied-square count never
/// decreases, and grows by one square per accepted move.
pub proof fn lemma_move_occupancy(
    b: BoardModel,
    pos: Position,
    piece: Piece,
    mover: Color,
    x: int,
    y: int,
)
    requires
        b.len() == 8,
        forall|i: int| 0 <= i < 8 ==> (#[trigger] b[i]).len() == 8,
        pos.in_bounds(),
        0 <= x < 8,
        0 <= y < 8,
    ensures
        (after_move_model(b, pos, piece, mover)[x][y] is Put) == (b[x][y] is Put || (x
            == pos.x as int && y == pos.y as int)),
{
    let placed = placed_model(b, pos, piece);
    let captured = reverse_model(placed, piece, b[pos.x as int][pos.y as int]->Puttable_0);
    lemma_reverse_preserves_occupancy(
        placed,
        piece,
        b[pos.x as int][pos.y as int]->Puttable_0,
        x,
        y,
    );
    lemma_scan_preserves_occupancy(captured, mover, x, y);
    lemma_scan_preserves_occupancy(scan_model(captured, mover), mover.spec_opposite(), x, y);
}

/// Copies a square's bracket groups.
fn clone_candidates(candidates: &Vec<ReversibleCandidates>) -> (r: Vec<ReversibleCandidates>)
    ensures
        cand_views(r@) == cand_views(candidates@),
{
    let n = candidates.len();
    let mut r: Vec<ReversibleCandidates> = Vec::new();
    let mut i: usize = 0;
    while i < n
        invariant
            i <= n,
            n == candidates@.len(),
            r@.len() == i,
            forall|j: int| 0 <= j < i ==> (#[trigger] r@[j])@ == candidates@[j]@,
        decreases n - i,
    {
        r.push(candidates[i].clone());
        i += 1;
    }
    proof {
        assert(cand_views(r@) =~= cand_views(candidates@));
    }
    r
}

/// Applies one move of `turn`: places `piece` on `position`, captures
/// the target square's bracket groups, rescans for both sides in turn,
/// updates the inventory and the used-piece ledger, and applies the
/// pass rule. A target square not tagged `Puttable` is an illegal
/// move: every input is returned unchanged. The returned piece is the
/// default next selection, of value 1 in the next mover's color.
pub fn put_piece(
    position: Position,
    piece: Piece,
    board: Board,
    turn: Turn,
    pieces: Pieces,
    used: UsedPiece,
) -> (r: (Board, Turn, Pieces, Piece, UsedPiece))
    requires
        board.wf(),
        pieces.wf(),
        used.wf(),
        position.in_bounds(),
        board@[position.x as int][position.y as int] is Puttable ==> accepted_move_requires(
            position,
            piece,
            board@,
            turn,
            pieces@,
            used@,
        ),
    ensures
        r.0.wf(),
        r.2.wf(),
        r.4.wf(),
        !(board@[position.x as int][position.y as int] is Puttable) ==> r == (
            board,
            turn,
            pieces,
            piece,
            used,
        ),
        board@[position.x as int][position.y as int] is Puttable ==> {
            let after = after_move_model(board@, position, piece, turn.color);
            if spec_has_puttable(after) {
                &&& r.0@ == after
                &&& r.1 == (Turn { color: turn.color.spec_opposite() })
                &&& r.2@ == remove_model(pieces@, piece)
                &&& r.3 == (Piece { color: turn.color.spec_opposite(), value: 1 })
                &&& r.4@ == used@.insert(piece)
            } else {
                let comp = max_of_color(used@.insert(piece), turn.color);
                &&& r.0@ == scan_model(after, turn.color)
                &&& r.1 == (Turn { color: turn.color })
                &&& r.2@ == add_model(remove_model(pieces@, piece), comp)
                &&& r.3 == (Piece { color: turn.color, value: 1 })
                &&& r.4@ == used@.insert(piece).remove(comp)
            }
        },
{
    let ghost b0 = board@;
    let row = &board.squares[position.x];
    match &row[position.y] {
        Square::Puttable(c) => {
            proof {
                assert(b0[position.x as int][position.y as int] == row@[position.y as int]@);
            }
            let candidates = clone_candidates(c);
            let ghost groups = b0[position.x as int][position.y as int]->Puttable_0;
            proof {
                assert(cand_views(candidates@) == groups);
                assert(b0[position.x as int][position.y as int].wf());
                assert forall|i: int| 0 <= i < candidates@.len() implies (
                #[trigger] candidates@[i])@.wf() by {
                    assert(candidates@[i]@ == groups[i]);
                }
            }
            let board = board.put_piece(position, piece);
            let board = reverse(board, piece, candidates);
            let board = check_puttable_position_exists(board, turn);
            let pieces = pieces.remove(&piece);
            let used = used.add_piece(piece);
            let turn2 = turn.change();
            let board = check_puttable_position_exists(board, turn2);
            proof {
                assert(board@ == after_move_model(b0, position, piece, turn.color));
            }
            let (turn3, used, pieces, board) = check_pass(turn2, board, used, pieces);
            (board, turn3, pieces, Piece::new(turn3.color, 1), used)
        },
        _ => (board, turn, pieces, piece, used),
    }
}

} // verus!
