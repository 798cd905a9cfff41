//! The eight-direction bracket search: from a candidate placement
//! square, find a run of opponent pieces terminated by a same-color
//! anchor.

use vstd::prelude::*;

use crate::board::{Board, BoardModel};
use crate::color::Color;
use crate::position::{CandidateModel, Position, ReversibleCandidates};
use crate::square::{Square, SquareModel};
use crate::turn::Turn;

verus! {

/// The cell `(x, y)` lies on the board and holds a piece of color `c`.
pub open spec fn cell_has_color(b: BoardModel, x: int, y: int, c: Color) -> bool {
    0 <= x < 8 && 0 <= y < 8 && (b[x][y] matches SquareModel::Put(p) && p.color == c)
}

/// The cell `(x, y)` lies on the board and holds an opponent piece of
/// the mover's color `c`.
pub open spec fn opponent_cell(b: BoardModel, x: int, y: int, c: Color) -> bool {
    cell_has_color(b, x, y, c.spec_opposite())
}

/// The `i`-th cell of a walk from `(x, y)` in direction `(dx, dy)`
/// holds an opponent piece of the mover's color `c`.
pub open spec fn run_cell_ok(
    b: BoardModel,
    x: int,
    y: int,
    dx: int,
    dy: int,
    c: Color,
    i: int,
) -> bool {
    opponent_cell(b, x + i * dx, y + i * dy, c)
}

/// Walking from `(x, y)` in direction `(dx, dy)`, the `k` cells after
/// the start all hold opponent pieces and the cell after them holds a
/// same-color anchor: a capture bracket of run length `k` for the
/// mover's color `c`.
pub open spec fn bracket_at(
    b: BoardModel,
    x: int,
    y: int,
    dx: int,
    dy: int,
    c: Color,
    k: int,
) -> bool {
    &&& 1 <= k
    &&& forall|i: int| 1 <= i <= k ==> #[trigger] run_cell_ok(b, x, y, dx, dy, c, i)
    &&& cell_has_color(b, x + (k + 1) * dx, y + (k + 1) * dy, c)
}

/// Some capture bracket exists from `(x, y)` in direction `(dx, dy)`.
pub open spec fn has_bracket(b: BoardModel, x: int, y: int, dx: int, dy: int, c: Color) -> bool {
    exists|k: int| bracket_at(b, x, y, dx, dy, c, k)
}

/// The run length of the bracket from `(x, y)` in direction
/// `(dx, dy)`; meaningful only when `has_bracket` holds, in which
/// case it is unique.
pub open spec fn bracket_len(b: BoardModel, x: int, y: int, dx: int, dy: int, c: Color) -> int {
    choose|k: int| bracket_at(b, x, y, dx, dy, c, k)
}

/// The position `k` steps from `(x, y)` in direction `(dx, dy)`.
pub open spec fn step_position(x: int, y: int, dx: int, dy: int, k: int) -> Position {
    Position { x: (x + k * dx) as usize, y: (y + k * dy) as usize }
}

/// The run of the bracket from `(x, y)`: the opponent positions
/// strictly between the start and the anchor, nearest first.
pub open spec fn bracket_run(b: BoardModel, x: int, y: int, dx: int, dy: int, c: Color) -> Seq<
    Position,
> {
    Seq::new(
        bracket_len(b, x, y, dx, dy, c) as nat,
        |i: int| step_position(x, y, dx, dy, i + 1),
    )
}

/// The anchor position of the bracket from `(x, y)`.
pub open spec fn bracket_anchor(
    b: BoardModel,
    x: int,
    y: int,
    dx: int,
    dy: int,
    c: Color,
) -> Position {
    step_position(x, y, dx, dy, bracket_len(b, x, y, dx, dy, c) + 1)
}

/// The bracket group that one direction contributes for the candidate
/// square `(x, y)`: present iff the square holds no piece and a bracket
/// exists in that direction.
pub open spec fn dir_candidate(
    b: BoardModel,
    x: int,
    y: int,
    dx: int,
    dy: int,
    c: Color,
) -> Option<CandidateModel> {
    if !(b[x][y] is Put) && has_bracket(b, x, y, dx, dy, c) {
        Some(
            CandidateModel {
                opposite: bracket_anchor(b, x, y, dx, dy, c),
                positions: bracket_run(b, x, y, dx, dy, c),
            },
        )
    } else {
        None
    }
}

/// At most one run length forms a bracket in a given direction.
pub proof fn lemma_bracket_unique(
    b: BoardModel,
    x: int,
    y: int,
    dx: int,
    dy: int,
    c: Color,
    k1: int,
    k2: int,
)
    requires
        bracket_at(b, x, y, dx, dy, c, k1),
        bracket_at(b, x, y, dx, dy, c, k2),
    ensures
        k1 == k2,
{
    if k1 < k2 {
        assert(run_cell_ok(b, x, y, dx, dy, c, k1 + 1));
        assert(false);
    }
    if k2 < k1 {
        assert(run_cell_ok(b, x, y, dx, dy, c, k2 + 1));
        assert(false);
    }
}

/// What `search` returns: nothing from an occupied start or a direction
/// without a bracket; otherwise the bracket's run with the anchor
/// appended.
pub open spec fn search_post(
    b: BoardModel,
    x: int,
    y: int,
    dx: int,
    dy: int,
    c: Color,
    out: Seq<Position>,
) -> bool {
    if b[x][y] is Put {
        out.len() == 0
    } else if has_bracket(b, x, y, dx, dy, c) {
        out == bracket_run(b, x, y, dx, dy, c).push(bracket_anchor(b, x, y, dx, dy, c))
    } else {
        out.len() == 0
    }
}

/// Searches for the positions of the pieces that the current turn would
/// reverse by placing on `position`, walking outward in one of the
/// eight compass directions. The returned vector is empty when the
/// direction yields no bracket; otherwise it holds the opponent run
/// nearest-first, followed by the same-color anchor.
pub fn search(board: &Board, position: Position, turn: Turn, direction: (isize, isize)) -> (r: Vec<
    Position,
>)
    requires
        board.wf(),
        position.in_bounds(),
        -1 <= direction.0 <= 1,
        -1 <= direction.1 <= 1,
        direction.0 != 0 || direction.1 != 0,
    ensures
        search_post(
            board@,
            position.x as int,
            position.y as int,
            direction.0 as int,
            direction.1 as int,
            turn.color,
            r@,
        ),
{
    let ghost x = position.x as int;
    let ghost y = position.y as int;
    let ghost gdx = direction.0 as int;
    let ghost gdy = direction.1 as int;
    let ghost c = turn.color;
    if board.is_put(position) {
        return Vec::new();
    }
    let mut result: Vec<Position> = Vec::new();
    let mut pos = position;
    loop
        invariant
            board.wf(),
            position.in_bounds(),
            pos.in_bounds(),
            -1 <= direction.0 <= 1,
            -1 <= direction.1 <= 1,
            direction.0 != 0 || direction.1 != 0,
            x == position.x as int && y == position.y as int,
            gdx == direction.0 as int && gdy == direction.1 as int,
            c == turn.color,
            !(board@[x][y] is Put),
            result@.len() <= 7,
            pos.x as int == x + result@.len() * gdx,
            pos.y as int == y + result@.len() * gdy,
            forall|j: int|
                1 <= j <= result@.len() ==> #[trigger] run_cell_ok(board@, x, y, gdx, gdy, c, j),
            forall|j: int|
                0 <= j < result@.len() ==> result@[j] == step_position(x, y, gdx, gdy, j + 1),
        decreases 8 - result@.len(),
    {
        let ghost i = result@.len() as int;
        proof {
            assert((i + 1) * gdx == i * gdx + gdx) by (nonlinear_arith);
            assert((i + 1) * gdy == i * gdy + gdy) by (nonlinear_arith);
        }
        let next = pos.next_position(direction);
        if next.0 < 0 || next.0 >= 8 || next.1 < 0 || next.1 >= 8 {
            proof {
                assert forall|k: int| !bracket_at(board@, x, y, gdx, gdy, c, k) by {
                    if bracket_at(board@, x, y, gdx, gdy, c, k) {
                        if k + 1 <= i {
                            assert(run_cell_ok(board@, x, y, gdx, gdy, c, k + 1));
                        } else if k + 1 == i + 1 {
                            assert(cell_has_color(
                                board@,
                                x + (i + 1) * gdx,
                                y + (i + 1) * gdy,
                                c,
                            ));
                        } else {
                            assert(run_cell_ok(board@, x, y, gdx, gdy, c, i + 1));
                        }
                    }
                }
            }
            return Vec::new();
        }
        let next_pos = Position { x: next.0 as usize, y: next.1 as usize };
        proof {
            assert(next_pos.x as int == x + (i + 1) * gdx);
            assert(next_pos.y as int == y + (i + 1) * gdy);
        }
        let row = &board.squares[next_pos.x];
        let ghost cell = board@[next_pos.x as int][next_pos.y as int];
        proof {
            assert(cell == row@[next_pos.y as int]@);
        }
        match &row[next_pos.y] {
            Square::Put(p) => {
                if p.color == turn.color {
                    if result.len() == 0 {
                        proof {
                            assert forall|k: int| !bracket_at(board@, x, y, gdx, gdy, c, k) by {
                                if bracket_at(board@, x, y, gdx, gdy, c, k) {
                                    assert(run_cell_ok(board@, x, y, gdx, gdy, c, 1));
                                    assert(1 * gdx == gdx && 1 * gdy == gdy) by (nonlinear_arith);
                                }
                            }
                        }
                        return Vec::new();
                    } else {
                        result.push(next_pos);
                        proof {
                            assert(bracket_at(board@, x, y, gdx, gdy, c, i));
                            let k = bracket_len(board@, x, y, gdx, gdy, c);
                            lemma_bracket_unique(board@, x, y, gdx, gdy, c, k, i);
                            assert(result@ =~= bracket_run(board@, x, y, gdx, gdy, c).push(
                                bracket_anchor(board@, x, y, gdx, gdy, c),
                            ));
                        }
                        return result;
                    }
                } else {
                    proof {
                        assert(opponent_cell(board@, x + (i + 1) * gdx, y + (i + 1) * gdy, c));
                        assert(run_cell_ok(board@, x, y, gdx, gdy, c, i + 1));
                        // the next step stays on the board, so the walk
                        // cannot exceed seven opponent cells
                        assert(i + 1 <= 7) by (nonlinear_arith)
                            requires
                                -1 <= gdx <= 1,
                                -1 <= gdy <= 1,
                                gdx != 0 || gdy != 0,
                                0 <= x < 8 && 0 <= y < 8,
                                0 <= x + (i + 1) * gdx < 8,
                                0 <= y + (i + 1) * gdy < 8,
                                0 <= i,
                        ;
                    }
                    result.push(next_pos);
                    pos = next_pos;
                }
            },
            _ => {
                proof {
                    assert forall|k: int| !bracket_at(board@, x, y, gdx, gdy, c, k) by {
                        if bracket_at(board@, x, y, gdx, gdy, c, k) {
                            if k + 1 <= i {
                                assert(run_cell_ok(board@, x, y, gdx, gdy, c, k + 1));
                            } else if k + 1 == i + 1 {
                                assert(cell_has_color(
                                    board@,
                                    x + (i + 1) * gdx,
                                    y + (i + 1) * gdy,
                                    c,
                                ));
                            } else {
                                assert(run_cell_ok(board@, x, y, gdx, gdy, c, i + 1));
                            }
                        }
                    }
                }
                return Vec::new();
            },
        }
    }
}

/// What each single-direction search returns, as an option over the
/// spec-level bracket group of that direction.
pub open spec fn dir_search_post(
    b: BoardModel,
    x: int,
    y: int,
    dx: int,
    dy: int,
    c: Color,
    r: Option<ReversibleCandidates>,
) -> bool {
    match dir_candidate(b, x, y, dx, dy, c) {
        Some(g) => r matches Some(rc) && rc@ == g,
        None => r is None,
    }
}

/// Runs `search` in one direction and splits the result into the run
/// and its anchor.
fn bracket_in_direction(
    board: &Board,
    position: Position,
    turn: Turn,
    direction: (isize, isize),
) -> (r: Option<ReversibleCandidates>)
    requires
        board.wf(),
        position.in_bounds(),
        -1 <= direction.0 <= 1,
        -1 <= direction.1 <= 1,
        direction.0 != 0 || direction.1 != 0,
    ensures
        dir_search_post(
            board@,
            position.x as int,
            position.y as int,
            direction.0 as int,
            direction.1 as int,
            turn.color,
            r,
        ),
{
    let ghost x = position.x as int;
    let ghost y = position.y as int;
    let ghost gdx = direction.0 as int;
    let ghost gdy = direction.1 as int;
    let ghost c = turn.color;
    let mut positions = search(board, position, turn, direction);
    if positions.len() == 0 {
        return None;
    }
    let opposite = match positions.pop() {
        Some(p) => p,
        None => {
            proof {
                assert(false);
            }
            vstd::pervasive::unreached()
        },
    };
    proof {
        assert(positions@ =~= bracket_run(board@, x, y, gdx, gdy, c));
    }
    Some(ReversibleCandidates::new(opposite, positions))
}

/// Searches upward (decreasing `y`) from `position` for a capture bracket of the
/// current turn.
pub fn search_up(board: &Board, position: Position, turn: Turn) -> (r: Option<
    ReversibleCandidates,
>)
    requires
        board.wf(),
        position.in_bounds(),
    ensures
        dir_search_post(
            board@,
            position.x as int,
            position.y as int,
            0, -1,
            turn.color,
            r,
        ),
{
    bracket_in_direction(board, position, turn, (0, -1))
}

/// Searches up and to the right from `position` for a capture bracket of the
/// current turn.
pub fn search_up_right(board: &Board, position: Position, turn: Turn) -> (r: Option<
    ReversibleCandidates,
>)
    requires
        board.wf(),
        position.in_bounds(),
    ensures
        dir_search_post(
            board@,
            position.x as int,
            position.y as int,
            1, -1,
            turn.color,
            r,
        ),
{
    bracket_in_direction(board, position, turn, (1, -1))
}

/// Searches to the right (increasing `x`) from `position` for a capture bracket of the
/// current turn.
pub fn search_right(board: &Board, position: Position, turn: Turn) -> (r: Option<
    ReversibleCandidates,
>)
    requires
        board.wf(),
        position.in_bounds(),
    ensures
        dir_search_post(
            board@,
            position.x as int,
            position.y as int,
            1, 0,
            turn.color,
            r,
        ),
{
    bracket_in_direction(board, position, turn, (1, 0))
}

/// Searches down and to the right from `position` for a capture bracket of the
/// current turn.
pub fn search_down_right(board: &Board, position: Position, turn: Turn) -> (r: Option<
    ReversibleCandidates,
>)
    requires
        board.wf(),
        position.in_bounds(),
    ensures
        dir_search_post(
            board@,
            position.x as int,
            position.y as int,
            1, 1,
            turn.color,
            r,
        ),
{
    bracket_in_direction(board, position, turn, (1, 1))
}

/// Searches downward (increasing `y`) from `position` for a capture bracket of the
/// current turn.
pub fn search_down(board: &Board, position: Position, turn: Turn) -> (r: Option<
    ReversibleCandidates,
>)
    requires
        board.wf(),
        position.in_bounds(),
    ensures
        dir_search_post(
            board@,
            position.x as int,
            position.y as int,
            0, 1,
            turn.color,
            r,
        ),
{
    bracket_in_direction(board, position, turn, (0, 1))
}

/// Searches down and to the left from `position` for a capture bracket of the
/// current turn.
pub fn search_down_left(board: &Board, position: Position, turn: Turn) -> (r: Option<
    ReversibleCandidates,
>)
    requires
        board.wf(),
        position.in_bounds(),
    ensures
        dir_search_post(
            board@,
            position.x as int,
            position.y as int,
            -1, 1,
            turn.color,
            r,
        ),
{
    bracket_in_direction(board, position, turn, (-1, 1))
}

/// Searches to the left (decreasing `x`) from `position` for a capture bracket of the
/// current turn.
pub fn search_left(board: &Board, position: Position, turn: Turn) -> (r: Option<
    ReversibleCandidates,
>)
    requires
        board.wf(),
        position.in_bounds(),
    ensures
        dir_search_post(
            board@,
            position.x as int,
            position.y as int,
            -1, 0,
            turn.color,
            r,
        ),
{
    bracket_in_direction(board, position, turn, (-1, 0))
}

/// Searches up and to the left from `position` for a capture bracket of the
/// current turn.
pub fn search_up_left(board: &Board, position: Position, turn: Turn) -> (r: Option<
    ReversibleCandidates,
>)
    requires
        board.wf(),
        position.in_bounds(),
    ensures
        dir_search_post(
            board@,
            position.x as int,
            position.y as int,
            -1, -1,
            turn.color,
            r,
        ),
{
    bracket_in_direction(board, position, turn, (-1, -1))
}

} // verus!
