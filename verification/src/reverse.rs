//! The capture pass: apply the numeric-dominance flip rule to the
//! bracket groups located for a placement.

use vstd::prelude::*;

use crate::board::{Board, BoardModel};
use crate::piece::Piece;
use crate::position::{CandidateModel, ReversibleCandidates};
use crate::scan::cand_views;
use crate::square::{Square, SquareModel};

verus! {

/// Within group `i`, run entry `j` names the cell `(x, y)` and the
/// numeric-dominance rule flips it: the group's anchor holds a piece of
/// value `a`, the cell holds a piece of value `r`, and
/// `r < piece.value + a`.
pub open spec fn flip_by(
    b: BoardModel,
    piece: Piece,
    cands: Seq<CandidateModel>,
    i: int,
    j: int,
    x: int,
    y: int,
) -> bool {
    &&& 0 <= i < cands.len()
    &&& 0 <= j < cands[i].positions.len()
    &&& cands[i].positions[j].x as int == x
    &&& cands[i].positions[j].y as int == y
    &&& b[cands[i].opposite.x as int][cands[i].opposite.y as int] matches SquareModel::Put(o)
        && b[x][y] matches SquareModel::Put(rp) && (rp.value as int) < piece.value + o.value
}

/// Some group's run names the cell `(x, y)` and flips it.
pub open spec fn flips(b: BoardModel, piece: Piece, cands: Seq<CandidateModel>, x: int, y: int) -> bool {
    exists|i: int, j: int| flip_by(b, piece, cands, i, j, x, y)
}

/// The cell `(x, y)` with its piece replaced by the color-reversed
/// counterpart of the piece it held on `b`.
pub open spec fn flipped_square(b: BoardModel, x: int, y: int) -> SquareModel {
    SquareModel::Put(b[x][y]->Put_0.spec_reverse())
}

/// One square after the capture pass: flipped when some group's rule
/// fires for it, untouched otherwise. Every read is against the board
/// as it stood before the pass.
pub open spec fn reversed_square(
    b: BoardModel,
    piece: Piece,
    cands: Seq<CandidateModel>,
    x: int,
    y: int,
) -> SquareModel {
    if flips(b, piece, cands, x, y) {
        flipped_square(b, x, y)
    } else {
        b[x][y]
    }
}

/// The whole board after the capture pass.
pub open spec fn reverse_model(b: BoardModel, piece: Piece, cands: Seq<CandidateModel>) -> BoardModel {
    Seq::new(8, |x: int| Seq::new(8, |y: int| reversed_square(b, piece, cands, x, y)))
}

/// As `flips`, but only counting group entries before `(k, l)` in the
/// order the pass visits them: all of groups `0..k`, and entries
/// `0..l` of group `k`.
pub open spec fn flips_before(
    b: BoardModel,
    piece: Piece,
    cands: Seq<CandidateModel>,
    k: int,
    l: int,
    x: int,
    y: int,
) -> bool {
    exists|i: int, j: int| #[trigger] flip_by(b, piece, cands, i, j, x, y) && (i < k || (i == k && j < l))
}

/// The capture-threshold law: when the cell `(x, y)` is named by
/// exactly one run entry, entry `j` of group `i`, the capture pass
/// flips the cell if and only if that entry's numeric-dominance
/// condition fires: the group's anchor holds a piece whose value,
/// added to the placed piece's value, strictly exceeds the value of
/// the piece on the cell.
pub proof fn lemma_capture_threshold(
    b: BoardModel,
    piece: Piece,
    cands: Seq<CandidateModel>,
    i: int,
    j: int,
    x: int,
    y: int,
)
    requires
        0 <= i < cands.len(),
        0 <= j < cands[i].positions.len(),
        cands[i].positions[j].x as int == x,
        cands[i].positions[j].y as int == y,
        forall|i2: int, j2: int|
            (0 <= i2 < cands.len() && 0 <= j2 < cands[i2].positions.len() && (
            #[trigger] cands[i2].positions[j2]).x as int == x && cands[i2].positions[j2].y as int
                == y) ==> i2 == i && j2 == j,
    ensures
        flips(b, piece, cands, x, y) <==> flip_by(b, piece, cands, i, j, x, y),
        reversed_square(b, piece, cands, x, y) == (if flip_by(b, piece, cands, i, j, x, y) {
            flipped_square(b, x, y)
        } else {
            b[x][y]
        }),
{
    if flips(b, piece, cands, x, y) {
        let (i2, j2) = choose|i2: int, j2: int| flip_by(b, piece, cands, i2, j2, x, y);
        assert(cands[i2].positions[j2].x as int == x && cands[i2].positions[j2].y as int == y);
        assert(i2 == i && j2 == j);
    }
}

/// Reverses the pieces that the located bracket groups capture. For
/// each group whose anchor square holds a piece, each run position
/// whose current piece value is strictly below the sum of the placed
/// piece's value and the anchor piece's value is replaced by its
/// color-reversed counterpart; every other square is left untouched.
/// All values are read from the board as given, so the order of the
/// groups does not matter.
pub fn reverse(board: Board, piece: Piece, candidates: Vec<ReversibleCandidates>) -> (r: Board)
    requires
        board.wf(),
        forall|i: int| 0 <= i < candidates@.len() ==> (#[trigger] candidates@[i])@.wf(),
    ensures
        r.wf(),
        r@ == reverse_model(board@, piece, cand_views(candidates@)),
{
    let ghost b0 = board@;
    let ghost cs = cand_views(candidates@);
    let mut new_board = board.clone();
    let n = candidates.len();
    let mut i: usize = 0;
    while i < n
        invariant
            board.wf(),
            b0 == board@,
            cs == cand_views(candidates@),
            n == candidates@.len(),
            forall|k: int| 0 <= k < n ==> (#[trigger] candidates@[k])@.wf(),
            i <= n,
            new_board@.len() == 8,
            forall|k: int| 0 <= k < 8 ==> (#[trigger] new_board@[k]).len() == 8,
            forall|x: int, y: int|
                0 <= x < 8 && 0 <= y < 8 ==> #[trigger] new_board@[x][y] == (
                if flips_before(b0, piece, cs, i as int, 0, x, y) {
                    flipped_square(b0, x, y)
                } else {
                    b0[x][y]
                }),
        decreases n - i,
    {
        let c = &candidates[i];
        let ghost gi = i as int;
        let opp_row = &board.squares[c.opposite.x];
        let anchor_put = match &opp_row[c.opposite.y] {
            Square::Put(opposite) => Some(*opposite),
            _ => None,
        };
        proof {
            assert(b0[c.opposite.x as int][c.opposite.y as int] == opp_row@[c.opposite.y as int]@);
        }
        match anchor_put {
            Some(opposite) => {
                let threshold: u16 = piece.value as u16 + opposite.value as u16;
                let m = c.positions.len();
                let mut j: usize = 0;
                while j < m
                    invariant
                        board.wf(),
                        b0 == board@,
                        cs == cand_views(candidates@),
                        n == candidates@.len(),
                        forall|k: int| 0 <= k < n ==> (#[trigger] candidates@[k])@.wf(),
                        gi < n,
                        gi == i as int,
                        c == &candidates@[gi],
                        m == c.positions@.len(),
                        j <= m,
                        b0[c.opposite.x as int][c.opposite.y as int] == SquareModel::Put(
                            opposite,
                        ),
                        threshold == piece.value + opposite.value,
                        new_board@.len() == 8,
                        forall|k: int| 0 <= k < 8 ==> (#[trigger] new_board@[k]).len() == 8,
                        forall|x: int, y: int|
                            0 <= x < 8 && 0 <= y < 8 ==> #[trigger] new_board@[x][y] == (
                            if flips_before(b0, piece, cs, gi, j as int, x, y) {
                                flipped_square(b0, x, y)
                            } else {
                                b0[x][y]
                            }),
                    decreases m - j,
                {
                    let p = c.positions[j];
                    proof {
                        assert(cs[gi].positions[j as int] == p);
                        assert(p.in_bounds());
                    }
                    let run_row = &board.squares[p.x];
                    let ghost px = p.x as int;
                    let ghost py = p.y as int;
                    proof {
                        assert(b0[px][py] == run_row@[py]@);
                    }
                    match &run_row[p.y] {
                        Square::Put(rp) => {
                            if (rp.value as u16) < threshold {
                                proof {
                                    assert(flip_by(b0, piece, cs, gi, j as int, px, py));
                                }
                                new_board.set_square(p.x, p.y, Square::Put(rp.reverse()));
                                proof {
                                    lemma_flips_step(b0, piece, cs, gi, j as int);
                                }
                            } else {
                                proof {
                                    assert(!flip_by(b0, piece, cs, gi, j as int, px, py));
                                    lemma_flips_step(b0, piece, cs, gi, j as int);
                                }
                            }
                        },
                        _ => {
                            proof {
                                assert(!flip_by(b0, piece, cs, gi, j as int, px, py));
                                lemma_flips_step(b0, piece, cs, gi, j as int);
                            }
                        },
                    }
                    j += 1;
                }
                proof {
                    lemma_flips_group_done(b0, piece, cs, gi);
                }
            },
            None => {
                proof {
                    lemma_flips_group_skipped(b0, piece, cs, gi);
                }
            },
        }
        i += 1;
    }
    proof {
        assert forall|x: int, y: int| 0 <= x < 8 && 0 <= y < 8 implies flips_before(
            b0,
            piece,
            cs,
            n as int,
            0,
            x,
            y,
        ) == flips(b0, piece, cs, x, y) by {
            if flips(b0, piece, cs, x, y) {
                let (i2, j2) = choose|i2: int, j2: int| flip_by(b0, piece, cs, i2, j2, x, y);
                assert(flip_by(b0, piece, cs, i2, j2, x, y) && (i2 < n as int || (i2 == n as int
                    && j2 < 0)));
            }
        }
        assert(new_board@ =~~= reverse_model(b0, piece, cs));
    }
    new_board
}

/// Visiting one more run entry extends the flipped set by at most that
/// entry's cell.
proof fn lemma_flips_step(b: BoardModel, piece: Piece, cands: Seq<CandidateModel>, i: int, j: int)
    requires
        0 <= i < cands.len(),
        0 <= j < cands[i].positions.len(),
    ensures
        forall|x: int, y: int|
            #[trigger] flips_before(b, piece, cands, i, j + 1, x, y) == (flips_before(
                b,
                piece,
                cands,
                i,
                j,
                x,
                y,
            ) || flip_by(b, piece, cands, i, j, x, y)),
{
    assert forall|x: int, y: int|
        #[trigger] flips_before(b, piece, cands, i, j + 1, x, y) == (flips_before(
            b,
            piece,
            cands,
            i,
            j,
            x,
            y,
        ) || flip_by(b, piece, cands, i, j, x, y)) by {
        if flips_before(b, piece, cands, i, j + 1, x, y) {
            let (i2, j2) = choose|i2: int, j2: int|
                #[trigger] flip_by(b, piece, cands, i2, j2, x, y) && (i2 < i || (i2 == i && j2 < j
                    + 1));
            if i2 == i && j2 == j {
                assert(flip_by(b, piece, cands, i, j, x, y));
            } else {
                assert(flip_by(b, piece, cands, i2, j2, x, y) && (i2 < i || (i2 == i && j2 < j)));
            }
        }
        if flips_before(b, piece, cands, i, j, x, y) {
            let (i2, j2) = choose|i2: int, j2: int|
                #[trigger] flip_by(b, piece, cands, i2, j2, x, y) && (i2 < i || (i2 == i && j2
                    < j));
            assert(flip_by(b, piece, cands, i2, j2, x, y) && (i2 < i || (i2 == i && j2 < j + 1)));
        }
        if flip_by(b, piece, cands, i, j, x, y) {
            assert(flip_by(b, piece, cands, i, j, x, y) && (i < i || (i == i && j < j + 1)));
        }
    }
}

/// A group whose anchor square holds no piece flips nothing.
proof fn lemma_flips_group_skipped(b: BoardModel, piece: Piece, cands: Seq<CandidateModel>, i: int)
    requires
        0 <= i < cands.len(),
        !(b[cands[i].opposite.x as int][cands[i].opposite.y as int] is Put),
    ensures
        forall|x: int, y: int|
            #[trigger] flips_before(b, piece, cands, i + 1, 0, x, y) == flips_before(
                b,
                piece,
                cands,
                i,
                0,
                x,
                y,
            ),
{
    assert forall|x: int, y: int|
        #[trigger] flips_before(b, piece, cands, i + 1, 0, x, y) == flips_before(
            b,
            piece,
            cands,
            i,
            0,
            x,
            y,
        ) by {
        if flips_before(b, piece, cands, i + 1, 0, x, y) {
            let (i2, j2) = choose|i2: int, j2: int|
                #[trigger] flip_by(b, piece, cands, i2, j2, x, y) && (i2 < i + 1 || (i2 == i + 1
                    && j2 < 0));
            assert(i2 != i);
            assert(flip_by(b, piece, cands, i2, j2, x, y) && (i2 < i || (i2 == i && j2 < 0)));
        }
        if flips_before(b, piece, cands, i, 0, x, y) {
            let (i2, j2) = choose|i2: int, j2: int|
                #[trigger] flip_by(b, piece, cands, i2, j2, x, y) && (i2 < i || (i2 == i && j2
                    < 0));
            assert(flip_by(b, piece, cands, i2, j2, x, y) && (i2 < i + 1 || (i2 == i + 1 && j2
                < 0)));
        }
    }
}

/// Finishing a group's run leaves the flipped set exactly where the
/// next group starts.
proof fn lemma_flips_group_done(b: BoardModel, piece: Piece, cands: Seq<CandidateModel>, i: int)
    requires
        0 <= i < cands.len(),
    ensures
        forall|x: int, y: int|
            #[trigger] flips_before(b, piece, cands, i, cands[i].positions.len() as int, x, y)
                == flips_before(b, piece, cands, i + 1, 0, x, y),
{
    assert forall|x: int, y: int|
        #[trigger] flips_before(b, piece, cands, i, cands[i].positions.len() as int, x, y)
            == flips_before(b, piece, cands, i + 1, 0, x, y) by {
        let m = cands[i].positions.len() as int;
        if flips_before(b, piece, cands, i, m, x, y) {
            let (i2, j2) = choose|i2: int, j2: int|
                #[trigger] flip_by(b, piece, cands, i2, j2, x, y) && (i2 < i || (i2 == i && j2
                    < m));
            assert(flip_by(b, piece, cands, i2, j2, x, y) && (i2 < i + 1 || (i2 == i + 1 && j2
                < 0)));
        }
        if flips_before(b, piece, cands, i + 1, 0, x, y) {
            let (i2, j2) = choose|i2: int, j2: int|
                #[trigger] flip_by(b, piece, cands, i2, j2, x, y) && (i2 < i + 1 || (i2 == i + 1
                    && j2 < 0));
            if i2 == i {
                assert(flip_by(b, piece, cands, i2, j2, x, y) && (i2 < i || (i2 == i && j2 < m)));
            } else {
                assert(flip_by(b, piece, cands, i2, j2, x, y) && (i2 < i || (i2 == i && j2 < m)));
            }
        }
    }
}

} // verus!
