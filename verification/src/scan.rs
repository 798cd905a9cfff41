//! The puttable-position scan: recompute, for every square, whether it
//! is a legal placement for the mover and with which captures.

use vstd::prelude::*;

use crate::board::{Board, BoardModel};
use crate::color::Color;
use crate::position::{CandidateModel, Position, ReversibleCandidates};
use crate::search::{
    bracket_at, bracket_len, bracket_run, dir_candidate, has_bracket, lemma_bracket_unique,
    run_cell_ok, search_down, search_down_left, search_down_right, search_left, search_right,
    search_up, search_up_left, search_up_right,
};
use crate::square::{Square, SquareModel};
use crate::turn::Turn;

verus! {

/// The `n`-th of the eight compass directions, in the order the scan
/// collects bracket groups.
pub open spec fn direction(n: int) -> (int, int) {
    if n == 0 {
        (0, 1)  // down
    } else if n == 1 {
        (-1, 1)  // down left
    } else if n == 2 {
        (1, 1)  // down right
    } else if n == 3 {
        (-1, 0)  // left
    } else if n == 4 {
        (1, 0)  // right
    } else if n == 5 {
        (0, -1)  // up
    } else if n == 6 {
        (-1, -1)  // up left
    } else {
        (1, -1)  // up right
    }
}

/// A direction's contribution to a square's group list: one group or
/// none.
pub open spec fn opt_group_seq(g: Option<CandidateModel>) -> Seq<CandidateModel> {
    match g {
        Some(gm) => seq![gm],
        None => Seq::empty(),
    }
}

/// The bracket groups that directions `0..n` contribute for the
/// candidate square `(x, y)` under mover color `c`, in direction order.
pub open spec fn groups_upto(b: BoardModel, x: int, y: int, c: Color, n: int) -> Seq<
    CandidateModel,
>
    decreases n,
{
    if n <= 0 {
        Seq::empty()
    } else {
        groups_upto(b, x, y, c, n - 1) + opt_group_seq(
            dir_candidate(b, x, y, direction(n - 1).0, direction(n - 1).1, c),
        )
    }
}

/// All bracket groups for the candidate square `(x, y)`.
pub open spec fn groups_at(b: BoardModel, x: int, y: int, c: Color) -> Seq<CandidateModel> {
    groups_upto(b, x, y, c, 8)
}

/// The tag of the square `(x, y)` after a scan of board `b` for mover
/// color `c`: an occupied square is left alone; any other square
/// becomes `Puttable` with its groups when at least one direction
/// yields a bracket, and `Empty` otherwise.
pub open spec fn scanned_square(b: BoardModel, x: int, y: int, c: Color) -> SquareModel {
    if b[x][y] is Put {
        b[x][y]
    } else if groups_at(b, x, y, c).len() > 0 {
        SquareModel::Puttable(groups_at(b, x, y, c))
    } else {
        SquareModel::Empty
    }
}

/// The whole board after a scan for mover color `c`.
pub open spec fn scan_model(b: BoardModel, c: Color) -> BoardModel {
    Seq::new(8, |x: int| Seq::new(8, |y: int| scanned_square(b, x, y, c)))
}

/// The spec-level images of a vector of bracket groups.
pub open spec fn cand_views(v: Seq<ReversibleCandidates>) -> Seq<CandidateModel> {
    v.map(|i: int, rc: ReversibleCandidates| rc@)
}

/// A bracket group located by the directional search is well formed:
/// its anchor and run lie on the board and its run is non-empty.
pub proof fn lemma_dir_candidate_wf(b: BoardModel, x: int, y: int, dx: int, dy: int, c: Color)
    requires
        dir_candidate(b, x, y, dx, dy, c) is Some,
    ensures
        dir_candidate(b, x, y, dx, dy, c)->0.wf(),
{
    let k = bracket_len(b, x, y, dx, dy, c);
    assert(bracket_at(b, x, y, dx, dy, c, k));
    let g = dir_candidate(b, x, y, dx, dy, c)->0;
    assert forall|i: int| 0 <= i < g.positions.len() implies (#[trigger] g.positions[i]).in_bounds()
    by {
        assert(run_cell_ok(b, x, y, dx, dy, c, i + 1));
    }
}

/// Appends one direction's result, if any, to the collected groups.
fn push_group(
    candidates: &mut Vec<ReversibleCandidates>,
    r: Option<ReversibleCandidates>,
    Ghost(g): Ghost<Option<CandidateModel>>,
)
    requires
        (match g {
            Some(gm) => r matches Some(rc) && rc@ == gm,
            None => r is None,
        }),
    ensures
        cand_views(final(candidates)@) == cand_views(old(candidates)@) + opt_group_seq(g),
{
    match r {
        Some(rc) => {
            candidates.push(rc);
            proof {
                assert(cand_views(candidates@) =~= cand_views(old(candidates)@) + opt_group_seq(
                    g,
                ));
            }
        },
        None => {
            proof {
                assert(cand_views(candidates@) =~= cand_views(candidates@) + opt_group_seq(g));
            }
        },
    }
}

/// Collects the bracket groups of all eight directions for one
/// candidate square, in the scan's direction order.
fn collect_groups(board: &Board, pos: Position, turn: Turn) -> (r: Vec<ReversibleCandidates>)
    requires
        board.wf(),
        pos.in_bounds(),
    ensures
        cand_views(r@) == groups_at(board@, pos.x as int, pos.y as int, turn.color),
{
    let ghost b = board@;
    let ghost gx = pos.x as int;
    let ghost gy = pos.y as int;
    let ghost c = turn.color;
    let mut candidates: Vec<ReversibleCandidates> = Vec::new();
    proof {
        assert(cand_views(candidates@) =~= groups_upto(b, gx, gy, c, 0));
    }
    let r = search_down(board, pos, turn);
    push_group(&mut candidates, r, Ghost(dir_candidate(b, gx, gy, 0, 1, c)));
    proof {
        assert(cand_views(candidates@) == groups_upto(b, gx, gy, c, 1));
    }
    let r = search_down_left(board, pos, turn);
    push_group(&mut candidates, r, Ghost(dir_candidate(b, gx, gy, -1, 1, c)));
    proof {
        assert(cand_views(candidates@) == groups_upto(b, gx, gy, c, 2));
    }
    let r = search_down_right(board, pos, turn);
    push_group(&mut candidates, r, Ghost(dir_candidate(b, gx, gy, 1, 1, c)));
    proof {
        assert(cand_views(candidates@) == groups_upto(b, gx, gy, c, 3));
    }
    let r = search_left(board, pos, turn);
    push_group(&mut candidates, r, Ghost(dir_candidate(b, gx, gy, -1, 0, c)));
    proof {
        assert(cand_views(candidates@) == groups_upto(b, gx, gy, c, 4));
    }
    let r = search_right(board, pos, turn);
    push_group(&mut candidates, r, Ghost(dir_candidate(b, gx, gy, 1, 0, c)));
    proof {
        assert(cand_views(candidates@) == groups_upto(b, gx, gy, c, 5));
    }
    let r = search_up(board, pos, turn);
    push_group(&mut candidates, r, Ghost(dir_candidate(b, gx, gy, 0, -1, c)));
    proof {
        assert(cand_views(candidates@) == groups_upto(b, gx, gy, c, 6));
    }
    let r = search_up_left(board, pos, turn);
    push_group(&mut candidates, r, Ghost(dir_candidate(b, gx, gy, -1, -1, c)));
    proof {
        assert(cand_views(candidates@) == groups_upto(b, gx, gy, c, 7));
    }
    let r = search_up_right(board, pos, turn);
    push_group(&mut candidates, r, Ghost(dir_candidate(b, gx, gy, 1, -1, c)));
    proof {
        assert(cand_views(candidates@) == groups_upto(b, gx, gy, c, 8));
    }
    candidates
}

/// Recomputes the tag of every square of `board` for the mover
/// `turn`: each square that holds no piece becomes `Puttable` with the
/// bracket groups that the eight directional searches yield, or
/// `Empty` when none does; occupied squares are left as they are. The
/// scan consults only occupancy, never a square's previous tag.
pub fn check_puttable_position_exists(board: Board, turn: Turn) -> (r: Board)
    requires
        board.wf(),
    ensures
        r.wf(),
        r@ == scan_model(board@, turn.color),
{
    let ghost b0 = board@;
    let ghost c = turn.color;
    let mut new_board = board.clone();
    let mut x: usize = 0;
    while x < 8
        invariant
            board.wf(),
            b0 == board@,
            c == turn.color,
            x <= 8,
            new_board@.len() == 8,
            forall|i: int| 0 <= i < 8 ==> (#[trigger] new_board@[i]).len() == 8,
            forall|i: int, j: int|
                0 <= i < x && 0 <= j < 8 ==> #[trigger] new_board@[i][j] == scanned_square(
                    b0,
                    i,
                    j,
                    c,
                ),
            forall|i: int, j: int|
                x <= i < 8 && 0 <= j < 8 ==> #[trigger] new_board@[i][j] == b0[i][j],
            forall|i: int, j: int|
                0 <= i < 8 && 0 <= j < 8 ==> (#[trigger] new_board@[i][j]).wf(),
        decreases 8 - x,
    {
        let mut y: usize = 0;
        while y < 8
            invariant
                board.wf(),
                b0 == board@,
                c == turn.color,
                x < 8,
                y <= 8,
                new_board@.len() == 8,
                forall|i: int| 0 <= i < 8 ==> (#[trigger] new_board@[i]).len() == 8,
                forall|i: int, j: int|
                    0 <= i < x && 0 <= j < 8 ==> #[trigger] new_board@[i][j] == scanned_square(
                        b0,
                        i,
                        j,
                        c,
                    ),
                forall|j: int|
                    0 <= j < y ==> #[trigger] new_board@[x as int][j] == scanned_square(
                        b0,
                        x as int,
                        j,
                        c,
                    ),
                forall|j: int|
                    y <= j < 8 ==> #[trigger] new_board@[x as int][j] == b0[x as int][j],
                forall|i: int, j: int|
                    x < i < 8 && 0 <= j < 8 ==> #[trigger] new_board@[i][j] == b0[i][j],
                forall|i: int, j: int|
                    0 <= i < 8 && 0 <= j < 8 ==> (#[trigger] new_board@[i][j]).wf(),
            decreases 8 - y,
        {
            let pos = Position { x, y };
            if !board.is_put(pos) {
                let candidates = collect_groups(&board, pos, turn);
                let ghost gs = groups_at(b0, x as int, y as int, c);
                proof {
                    assert forall|n: int| 0 <= n < gs.len() implies (#[trigger] gs[n]).wf() by {
                        lemma_groups_wf(b0, x as int, y as int, c, 8, n);
                    }
                }
                if candidates.len() != 0 {
                    let sq = Square::Puttable(candidates);
                    proof {
                        assert(sq@ == scanned_square(b0, x as int, y as int, c));
                    }
                    new_board.set_square(x, y, sq);
                } else {
                    proof {
                        assert(gs.len() == 0);
                    }
                    new_board.set_square(x, y, Square::Empty);
                }
            } else {
                proof {
                    assert(new_board@[x as int][y as int] == scanned_square(
                        b0,
                        x as int,
                        y as int,
                        c,
                    ));
                }
            }
            y += 1;
        }
        x += 1;
    }
    proof {
        assert(new_board@ =~~= scan_model(b0, c));
    }
    new_board
}

/// The two boards hold the same pieces on the same squares; their
/// other squares may be tagged differently.
pub open spec fn same_occupancy(b1: BoardModel, b2: BoardModel) -> bool {
    forall|x: int, y: int|
        #![trigger b1[x][y], b2[x][y]]
        0 <= x < 8 && 0 <= y < 8 && (b1[x][y] is Put || b2[x][y] is Put) ==> b1[x][y] == b2[x][y]
}

/// Boards with the same occupancy admit the same brackets: the search
/// reads only pieces, never a square's tag.
pub proof fn lemma_bracket_at_occupancy(
    b1: BoardModel,
    b2: BoardModel,
    x: int,
    y: int,
    dx: int,
    dy: int,
    c: Color,
)
    requires
        same_occupancy(b1, b2),
    ensures
        forall|k: int|
            #[trigger] bracket_at(b1, x, y, dx, dy, c, k) == bracket_at(b2, x, y, dx, dy, c, k),
{
    assert forall|k: int|
        #[trigger] bracket_at(b1, x, y, dx, dy, c, k) == bracket_at(b2, x, y, dx, dy, c, k) by {
        if bracket_at(b1, x, y, dx, dy, c, k) {
            assert forall|i: int| 1 <= i <= k implies #[trigger] run_cell_ok(
                b2,
                x,
                y,
                dx,
                dy,
                c,
                i,
            ) by {
                assert(run_cell_ok(b1, x, y, dx, dy, c, i));
            }
            assert(bracket_at(b2, x, y, dx, dy, c, k));
        }
        if bracket_at(b2, x, y, dx, dy, c, k) {
            assert forall|i: int| 1 <= i <= k implies #[trigger] run_cell_ok(
                b1,
                x,
                y,
                dx,
                dy,
                c,
                i,
            ) by {
                assert(run_cell_ok(b2, x, y, dx, dy, c, i));
            }
            assert(bracket_at(b1, x, y, dx, dy, c, k));
        }
    }
}

/// Boards with the same occupancy yield the same bracket group in
/// each direction.
pub proof fn lemma_dir_candidate_occupancy(
    b1: BoardModel,
    b2: BoardModel,
    x: int,
    y: int,
    dx: int,
    dy: int,
    c: Color,
)
    requires
        same_occupancy(b1, b2),
        0 <= x < 8,
        0 <= y < 8,
    ensures
        dir_candidate(b1, x, y, dx, dy, c) == dir_candidate(b2, x, y, dx, dy, c),
{
    lemma_bracket_at_occupancy(b1, b2, x, y, dx, dy, c);
    assert((b1[x][y] is Put) == (b2[x][y] is Put));
    if !(b1[x][y] is Put) && has_bracket(b1, x, y, dx, dy, c) {
        let k1 = bracket_len(b1, x, y, dx, dy, c);
        assert(bracket_at(b1, x, y, dx, dy, c, k1));
        assert(has_bracket(b2, x, y, dx, dy, c));
        let k2 = bracket_len(b2, x, y, dx, dy, c);
        assert(bracket_at(b2, x, y, dx, dy, c, k2));
        lemma_bracket_unique(b1, x, y, dx, dy, c, k1, k2);
        assert(bracket_run(b1, x, y, dx, dy, c) =~= bracket_run(b2, x, y, dx, dy, c));
    } else if !(b2[x][y] is Put) && has_bracket(b2, x, y, dx, dy, c) {
        let k2 = bracket_len(b2, x, y, dx, dy, c);
        assert(bracket_at(b2, x, y, dx, dy, c, k2));
        assert(bracket_at(b1, x, y, dx, dy, c, k2));
        assert(has_bracket(b1, x, y, dx, dy, c));
    }
}

/// Boards with the same occupancy yield the same group list for every
/// candidate square.
pub proof fn lemma_groups_occupancy(b1: BoardModel, b2: BoardModel, x: int, y: int, c: Color, n: int)
    requires
        same_occupancy(b1, b2),
        0 <= x < 8,
        0 <= y < 8,
    ensures
        groups_upto(b1, x, y, c, n) == groups_upto(b2, x, y, c, n),
    decreases n,
{
    if n > 0 {
        lemma_groups_occupancy(b1, b2, x, y, c, n - 1);
        lemma_dir_candidate_occupancy(b1, b2, x, y, direction(n - 1).0, direction(n - 1).1, c);
    }
}

/// Boards with the same occupancy scan to the same board.
pub proof fn lemma_scan_occupancy(b1: BoardModel, b2: BoardModel, c: Color)
    requires
        same_occupancy(b1, b2),
    ensures
        scan_model(b1, c) == scan_model(b2, c),
{
    assert forall|x: int, y: int| 0 <= x < 8 && 0 <= y < 8 implies scanned_square(b1, x, y, c)
        == scanned_square(b2, x, y, c) by {
        lemma_groups_occupancy(b1, b2, x, y, c, 8);
    }
    assert(scan_model(b1, c) =~~= scan_model(b2, c));
}

/// A scan changes no occupancy, so scanning a scanned board for any
/// mover equals scanning the board it came from: in particular the
/// scan is idempotent.
pub proof fn lemma_scan_of_scan(b: BoardModel, c1: Color, c2: Color)
    ensures
        scan_model(scan_model(b, c1), c2) == scan_model(b, c2),
{
    assert(same_occupancy(scan_model(b, c1), b));
    lemma_scan_occupancy(scan_model(b, c1), b, c2);
}

/// Every group that the first `n` directions contribute is well
/// formed.
pub proof fn lemma_groups_wf(b: BoardModel, x: int, y: int, c: Color, n: int, idx: int)
    requires
        0 <= idx < groups_upto(b, x, y, c, n).len(),
    ensures
        groups_upto(b, x, y, c, n)[idx].wf(),
    decreases n,
{
    if n > 0 {
        let prefix = groups_upto(b, x, y, c, n - 1);
        if idx < prefix.len() {
            lemma_groups_wf(b, x, y, c, n - 1, idx);
        } else {
            lemma_dir_candidate_wf(b, x, y, direction(n - 1).0, direction(n - 1).1, c);
        }
    }
}

} // verus!
