//! The 8x8 game board: initial layout, occupancy queries, placement and
//! score tally.

use vstd::prelude::*;

use crate::color::Color;
use crate::piece::Piece;
use crate::position::Position;
use crate::score::Score;
use crate::square::{Square, SquareModel};

verus! {

/// The mathematical image of a whole board: a sequence of columns, each
/// a sequence of square models.
pub type BoardModel = Seq<Seq<SquareModel>>;

/// The spec-level image of one column of squares.
pub open spec fn row_view(row: Vec<Square>) -> Seq<SquareModel> {
    row@.map(|j: int, s: Square| s@)
}

/// An 8x8 grid whose squares are all well formed.
pub open spec fn model_wf(b: BoardModel) -> bool {
    &&& b.len() == 8
    &&& forall|i: int| 0 <= i < 8 ==> (#[trigger] b[i]).len() == 8
    &&& forall|i: int, j: int| 0 <= i < 8 && 0 <= j < 8 ==> (#[trigger] b[i][j]).wf()
}

/// The value `s` contributes to `color`'s score.
pub open spec fn square_value(s: SquareModel, color: Color) -> int {
    match s {
        SquareModel::Put(p) => if p.color == color {
            p.value as int
        } else {
            0
        },
        _ => 0,
    }
}

/// The value `s` contributes to the combined score of both sides.
pub open spec fn square_total(s: SquareModel) -> int {
    match s {
        SquareModel::Put(p) => p.value as int,
        _ => 0,
    }
}

/// The sum of `color`'s piece values over one column of squares.
pub open spec fn row_value(row: Seq<SquareModel>, color: Color) -> int
    decreases row.len(),
{
    if row.len() == 0 {
        0
    } else {
        row_value(row.drop_last(), color) + square_value(row.last(), color)
    }
}

/// The sum of `color`'s piece values over the whole board.
pub open spec fn board_value(b: BoardModel, color: Color) -> int
    decreases b.len(),
{
    if b.len() == 0 {
        0
    } else {
        board_value(b.drop_last(), color) + row_value(b.last(), color)
    }
}

/// The sum of all piece values over one column, both colors together.
pub open spec fn row_total(row: Seq<SquareModel>) -> int
    decreases row.len(),
{
    if row.len() == 0 {
        0
    } else {
        row_total(row.drop_last()) + square_total(row.last())
    }
}

/// The sum of all piece values over the whole board.
pub open spec fn board_total(b: BoardModel) -> int
    decreases b.len(),
{
    if b.len() == 0 {
        0
    } else {
        board_total(b.drop_last()) + row_total(b.last())
    }
}

/// One column's score contributions of the two colors add up to the
/// column's combined total.
pub proof fn lemma_row_score_partition(row: Seq<SquareModel>)
    ensures
        row_value(row, Color::Black) + row_value(row, Color::White) == row_total(row),
    decreases row.len(),
{
    if row.len() > 0 {
        lemma_row_score_partition(row.drop_last());
    }
}

/// The black score and the white score of any board add up to the sum
/// of `value` over all of its put pieces: the per-color tallies and
/// the combined tally agree.
pub proof fn lemma_score_partition(b: BoardModel)
    ensures
        board_value(b, Color::Black) + board_value(b, Color::White) == board_total(b),
    decreases b.len(),
{
    if b.len() > 0 {
        lemma_score_partition(b.drop_last());
        lemma_row_score_partition(b.last());
    }
}

/// True iff some square of the board is tagged `Puttable`.
pub open spec fn spec_has_puttable(b: BoardModel) -> bool {
    exists|i: int, j: int| 0 <= i < 8 && 0 <= j < 8 && b[i][j] is Puttable
}

/// The square of the initial board at column `i`, row `j`: black
/// value-1 pieces at (3, 3) and (4, 4), white value-1 pieces at (3, 4)
/// and (4, 3), every other square empty.
pub open spec fn initial_square(i: int, j: int) -> SquareModel {
    if (i == 3 && j == 3) || (i == 4 && j == 4) {
        SquareModel::Put(Piece { color: Color::Black, value: 1 })
    } else if (i == 3 && j == 4) || (i == 4 && j == 3) {
        SquareModel::Put(Piece { color: Color::White, value: 1 })
    } else {
        SquareModel::Empty
    }
}

/// The initial board as a model.
pub open spec fn initial_model() -> BoardModel {
    Seq::new(8, |i: int| Seq::new(8, |j: int| initial_square(i, j)))
}

/// The state of the board: an 8x8 matrix of squares, indexed by the
/// `x` of a `Position` first and by its `y` second.
#[derive(Debug, PartialEq)]
pub struct Board {
    pub squares: Vec<Vec<Square>>,
}

impl View for Board {
    type V = BoardModel;

    open spec fn view(&self) -> BoardModel {
        self.squares@.map(|i: int, row: Vec<Square>| row_view(row))
    }
}

impl Clone for Board {
    /// A clone presents the same board model.
    fn clone(&self) -> (r: Self)
        ensures
            r@ == self@,
    {
        let n = self.squares.len();
        let mut squares: Vec<Vec<Square>> = Vec::new();
        let mut i: usize = 0;
        while i < n
            invariant
                i <= n,
                n == self.squares@.len(),
                squares@.len() == i,
                forall|k: int| 0 <= k < i ==> row_view(#[trigger] squares@[k]) == row_view(
                    self.squares@[k],
                ),
            decreases n - i,
        {
            let row = &self.squares[i];
            let m = row.len();
            let mut new_row: Vec<Square> = Vec::new();
            let mut j: usize = 0;
            while j < m
                invariant
                    j <= m,
                    m == row@.len(),
                    new_row@.len() == j,
                    forall|l: int| 0 <= l < j ==> (#[trigger] new_row@[l])@ == row@[l]@,
                decreases m - j,
            {
                new_row.push(row[j].clone());
                j += 1;
            }
            proof {
                assert(row_view(new_row) =~= row_view(*row));
            }
            squares.push(new_row);
            i += 1;
        }
        let r = Board { squares };
        proof {
            assert(r@ =~= self@);
        }
        r
    }
}

impl Board {
    /// The board is a well-formed 8x8 grid.
    pub open spec fn wf(self) -> bool {
        model_wf(self@)
    }

    /// Replaces the square at `(x, y)`, leaving every other square as it
    /// was.
    pub(crate) fn set_square(&mut self, x: usize, y: usize, s: Square)
        requires
            x < old(self)@.len(),
            y < old(self)@[x as int].len(),
        ensures
            final(self)@ == old(self)@.update(
                x as int,
                old(self)@[x as int].update(y as int, s@),
            ),
    {
        proof {
            assert(old(self)@[x as int] == row_view(self.squares@[x as int]));
        }
        let row = &mut self.squares[x];
        row.set(y, s);
        proof {
            assert(self@ =~~= old(self)@.update(
                x as int,
                old(self)@[x as int].update(y as int, s@),
            ));
        }
    }

    /// Creates a new board with the initial state of the game: black
    /// value-1 pieces at (3, 3) and (4, 4), white value-1 pieces at
    /// (3, 4) and (4, 3), every other square empty.
    pub fn set_initial_state() -> (r: Self)
        ensures
            r.wf(),
            r@ == initial_model(),
    {
        let mut squares: Vec<Vec<Square>> = Vec::new();
        let mut i: usize = 0;
        while i < 8
            invariant
                i <= 8,
                squares@.len() == i,
                forall|k: int| 0 <= k < i ==> (#[trigger] squares@[k])@.len() == 8,
                forall|k: int, l: int|
                    0 <= k < i && 0 <= l < 8 ==> (#[trigger] squares@[k]@[l]) == Square::Empty,
            decreases 8 - i,
        {
            let mut row: Vec<Square> = Vec::new();
            let mut j: usize = 0;
            while j < 8
                invariant
                    j <= 8,
                    row@.len() == j,
                    forall|l: int| 0 <= l < j ==> (#[trigger] row@[l]) == Square::Empty,
                decreases 8 - j,
            {
                row.push(Square::Empty);
                j += 1;
            }
            squares.push(row);
            i += 1;
        }
        let mut board = Self { squares };
        board.set_square(3, 3, Square::Put(Piece::new(Color::Black, 1)));
        board.set_square(4, 4, Square::Put(Piece::new(Color::Black, 1)));
        board.set_square(3, 4, Square::Put(Piece::new(Color::White, 1)));
        board.set_square(4, 3, Square::Put(Piece::new(Color::White, 1)));
        proof {
            assert forall|i2: int, j2: int| 0 <= i2 < 8 && 0 <= j2 < 8 implies board@[i2][j2]
                == initial_square(i2, j2) by {}
            assert forall|i2: int| 0 <= i2 < 8 implies board@[i2] =~= initial_model()[i2] by {}
            assert(board@ =~= initial_model());
        }
        board
    }

    /// Returns whether a piece has been put at `position`.
    pub fn is_put(&self, position: Position) -> (r: bool)
        requires
            self.wf(),
            position.in_bounds(),
        ensures
            r == (self@[position.x as int][position.y as int] is Put),
    {
        let row = &self.squares[position.x];
        match &row[position.y] {
            Square::Put(_) => true,
            _ => false,
        }
    }

    /// Returns a new board with `piece` put at `position` and every
    /// other square unchanged. Placement is a pure data operation: it
    /// does not check legality, which callers establish beforehand.
    pub fn put_piece(&self, position: Position, piece: Piece) -> (r: Self)
        requires
            self.wf(),
            position.in_bounds(),
        ensures
            r.wf(),
            r@ == self@.update(
                position.x as int,
                self@[position.x as int].update(position.y as int, SquareModel::Put(piece)),
            ),
    {
        let mut board = self.clone();
        board.set_square(position.x, position.y, Square::Put(piece));
        board
    }

    /// Returns a copy of the grid of squares.
    pub fn get_squares(&self) -> (r: Vec<Vec<Square>>)
        ensures
            (Board { squares: r })@ == self@,
    {
        self.clone().squares
    }

    /// Sums the values of the put pieces of one color.
    fn calculate_score(&self, color: Color) -> (r: usize)
        requires
            self.wf(),
        ensures
            r == board_value(self@, color),
    {
        let mut sum: usize = 0;
        let mut x: usize = 0;
        proof {
            assert(self@.take(0) =~= Seq::<Seq<SquareModel>>::empty());
        }
        while x < 8
            invariant
                x <= 8,
                self.wf(),
                sum == board_value(self@.take(x as int), color),
                sum <= 2040 * x,
            decreases 8 - x,
        {
            let row = &self.squares[x];
            let mut y: usize = 0;
            proof {
                assert(self@[x as int].take(0) =~= Seq::<SquareModel>::empty());
            }
            while y < 8
                invariant
                    x < 8,
                    y <= 8,
                    self.wf(),
                    row == &self.squares@[x as int],
                    sum == board_value(self@.take(x as int), color) + row_value(
                        self@[x as int].take(y as int),
                        color,
                    ),
                    sum <= 2040 * x + 255 * y,
                decreases 8 - y,
            {
                let v: usize = match &row[y] {
                    Square::Put(p) => if p.color == color {
                        p.value as usize
                    } else {
                        0
                    },
                    _ => 0,
                };
                proof {
                    assert(self@[x as int].take(y + 1).drop_last() =~= self@[x as int].take(
                        y as int,
                    ));
                    assert(v == square_value(self@[x as int][y as int], color));
                }
                sum = sum + v;
                y += 1;
            }
            proof {
                assert(self@.take(x + 1).drop_last() =~= self@.take(x as int));
                assert(self@[x as int].take(8) =~= self@[x as int]);
            }
            x += 1;
        }
        proof {
            assert(self@.take(8) =~= self@);
        }
        sum
    }

    /// Gets the score of the black and the white pieces on the board:
    /// for each color, the sum of the values of its put pieces.
    pub fn get_score(&self) -> (r: Score)
        requires
            self.wf(),
        ensures
            r.black == board_value(self@, Color::Black),
            r.white == board_value(self@, Color::White),
    {
        let black_score = self.calculate_score(Color::Black);
        let white_score = self.calculate_score(Color::White);
        Score { black: black_score, white: white_score }
    }

    /// Returns whether any square of the board is tagged `Puttable`.
    pub fn has_puttable(&self) -> (r: bool)
        requires
            self.wf(),
        ensures
            r == spec_has_puttable(self@),
    {
        let mut x: usize = 0;
        while x < 8
            invariant
                x <= 8,
                self.wf(),
                forall|i: int, j: int|
                    0 <= i < x && 0 <= j < 8 ==> !(self@[i][j] is Puttable),
            decreases 8 - x,
        {
            let row = &self.squares[x];
            let mut y: usize = 0;
            while y < 8
                invariant
                    x < 8,
                    y <= 8,
                    self.wf(),
                    row == &self.squares@[x as int],
                    forall|j: int| 0 <= j < y ==> !(self@[x as int][j] is Puttable),
                decreases 8 - y,
            {
                if let Square::Puttable(_) = &row[y] {
                    proof {
                        assert(self@[x as int][y as int] is Puttable);
                    }
                    return true;
                }
                y += 1;
            }
            proof {
                assert forall|i: int, j: int|
                    0 <= i < x + 1 && 0 <= j < 8 implies !(self@[i][j] is Puttable) by {}
            }
            x += 1;
        }
        false
    }

    /// Picks the move target for a computer-controlled turn: the first
    /// square tagged `Puttable` in row-major order of `(x, y)`. The
    /// board must hold at least one such square.
    pub fn get_puttable_position(&self) -> (r: Position)
        requires
            self.wf(),
            spec_has_puttable(self@),
        ensures
            r.in_bounds(),
            self@[r.x as int][r.y as int] is Puttable,
            forall|i: int, j: int|
                0 <= i < 8 && 0 <= j < 8 && (i < r.x || (i == r.x && j < r.y)) ==> !(
                self@[i][j] is Puttable),
    {
        let mut x: usize = 0;
        while x < 8
            invariant
                x <= 8,
                self.wf(),
                spec_has_puttable(self@),
                forall|i: int, j: int|
                    0 <= i < x && 0 <= j < 8 ==> !(self@[i][j] is Puttable),
            decreases 8 - x,
        {
            let row = &self.squares[x];
            let mut y: usize = 0;
            while y < 8
                invariant
                    x < 8,
                    y <= 8,
                    self.wf(),
                    row == &self.squares@[x as int],
                    forall|i: int, j: int|
                        0 <= i < x && 0 <= j < 8 ==> !(self@[i][j] is Puttable),
                    forall|j: int| 0 <= j < y ==> !(self@[x as int][j] is Puttable),
                decreases 8 - y,
            {
                if let Square::Puttable(_) = &row[y] {
                    proof {
                        assert(self@[x as int][y as int] is Puttable);
                    }
                    return Position { x, y };
                }
                y += 1;
            }
            proof {
                assert forall|i: int, j: int|
                    0 <= i < x + 1 && 0 <= j < 8 implies !(self@[i][j] is Puttable) by {}
            }
            x += 1;
        }
        proof {
            assert(false);
        }
        vstd::pervasive::unreached()
    }
}

} // verus!
