//! Colored numeric tokens and the ledger of pieces removed from play.

use vstd::prelude::*;

use crate::color::Color;
use crate::turn::Turn;

verus! {

broadcast use vstd::seq_lib::group_seq_properties;

/// A piece on the game board: a color (black or white) and a value in
/// `1..=10`. Operations return new values; a piece is never mutated in
/// place.
#[derive(Debug, PartialEq, Eq, Structural, Hash, Clone, Copy)]
pub struct Piece {
    pub color: Color,
    pub value: u8,
}

impl Piece {
    /// The same value with the opposite color.
    pub open spec fn spec_reverse(self) -> Piece {
        Piece { color: self.color.spec_opposite(), value: self.value }
    }

    /// Creates a new piece of the given color and value.
    pub fn new(color: Color, n: u8) -> (r: Self)
        ensures
            r.color == color,
            r.value == n,
    {
        Self { color, value: n }
    }

    /// Returns the same value with the opposite color.
    pub fn reverse(&self) -> (r: Self)
        ensures
            r == self.spec_reverse(),
    {
        match &self.color {
            Color::Black => Piece::new(Color::White, self.value),
            Color::White => Piece::new(Color::Black, self.value),
        }
    }
}

/// The ledger holds at least one piece of color `c`.
pub open spec fn ledger_has_color(s: Set<Piece>, c: Color) -> bool {
    exists|p: Piece| s.contains(p) && p.color == c
}

/// `p` is the highest-valued piece of color `c` in the ledger.
pub open spec fn is_max_of_color(s: Set<Piece>, c: Color, p: Piece) -> bool {
    &&& s.contains(p)
    &&& p.color == c
    &&& forall|q: Piece| s.contains(q) && q.color == c ==> q.value <= p.value
}

/// The highest-valued piece of color `c` in the ledger; meaningful
/// only when the ledger holds one, and unique because pieces of one
/// color and one value are equal.
pub open spec fn max_of_color(s: Set<Piece>, c: Color) -> Piece {
    choose|p: Piece| is_max_of_color(s, c, p)
}

/// Any piece that is maximal for its color in the ledger is the
/// ledger's maximum of that color.
pub proof fn lemma_max_of_color_unique(s: Set<Piece>, c: Color, p: Piece)
    requires
        is_max_of_color(s, c, p),
    ensures
        p == max_of_color(s, c),
{
    let q = max_of_color(s, c);
    assert(is_max_of_color(s, c, q));
    assert(q.value <= p.value && p.value <= q.value);
}

/// The set of distinct pieces that have been placed at least once and not
/// yet returned to the inventory by pass compensation. A (color, value)
/// pair appears at most once, however many physical pieces of that value
/// have been placed; compensation therefore restores one unit of the
/// single highest-value historically-placed piece type.
#[derive(Debug, PartialEq, Clone)]
pub struct UsedPiece {
    pub piece_set: Vec<Piece>,
}

impl View for UsedPiece {
    type V = Set<Piece>;

    open spec fn view(&self) -> Set<Piece> {
        self.piece_set@.to_set()
    }
}

impl UsedPiece {
    /// The backing vector holds each piece at most once, so that it
    /// faithfully represents a set.
    pub open spec fn wf(self) -> bool {
        forall|i: int, j: int|
            0 <= i < j < self.piece_set@.len() ==> self.piece_set@[i] != self.piece_set@[j]
    }

    /// Creates a new empty ledger.
    pub fn new() -> (r: Self)
        ensures
            r.wf(),
            r@ == Set::<Piece>::empty(),
    {
        let r = Self { piece_set: Vec::new() };
        proof {
            assert(r@ =~= Set::<Piece>::empty());
        }
        r
    }

    /// True iff the ledger holds `piece`.
    fn contains_piece(&self, piece: Piece) -> (r: bool)
        ensures
            r == self@.contains(piece),
    {
        let n = self.piece_set.len();
        let mut i: usize = 0;
        while i < n
            invariant
                i <= n,
                n == self.piece_set@.len(),
                forall|j: int| 0 <= j < i ==> self.piece_set@[j] != piece,
            decreases n - i,
        {
            if self.piece_set[i] == piece {
                return true;
            }
            i += 1;
        }
        false
    }

    /// Returns the ledger with `piece` recorded; recording a piece
    /// already present changes nothing.
    pub fn add_piece(&self, piece: Piece) -> (r: Self)
        requires
            self.wf(),
        ensures
            r.wf(),
            r@ == self@.insert(piece),
    {
        let mut new_set = self.piece_set.clone();
        if self.contains_piece(piece) {
            proof {
                assert(self@ =~= self@.insert(piece));
            }
        } else {
            new_set.push(piece);
            proof {
                assert(new_set@.to_set() =~= self@.insert(piece));
            }
        }
        Self { piece_set: new_set }
    }

    /// Returns the ledger with `piece` removed; removing an absent piece
    /// changes nothing.
    pub fn remove_piece(&self, piece: Piece) -> (r: Self)
        requires
            self.wf(),
        ensures
            r.wf(),
            r@ == self@.remove(piece),
    {
        let n = self.piece_set.len();
        let mut new_set: Vec<Piece> = Vec::new();
        let mut i: usize = 0;
        while i < n
            invariant
                i <= n,
                n == self.piece_set@.len(),
                self.wf(),
                forall|p: Piece| #[trigger] new_set@.contains(p)
                    <==> (self.piece_set@.take(i as int).contains(p) && p != piece),
                forall|k: int, l: int|
                    0 <= k < l < new_set@.len() ==> new_set@[k] != new_set@[l],
            decreases n - i,
        {
            proof {
                assert(self.piece_set@.take(i + 1).drop_last() =~= self.piece_set@.take(
                    i as int,
                ));
            }
            if self.piece_set[i] != piece {
                let ghost old_new_set = new_set@;
                proof {
                    assert(!self.piece_set@.take(i as int).contains(self.piece_set@[i as int]));
                }
                new_set.push(self.piece_set[i]);
                proof {
                    assert(forall|p: Piece|
                        #[trigger] new_set@.contains(p) <==> (old_new_set.contains(p) || p
                            == self.piece_set@[i as int]));
                    assert forall|k: int| 0 <= k < old_new_set.len() implies old_new_set[k]
                        != self.piece_set@[i as int] by {
                        assert(old_new_set.contains(old_new_set[k]));
                    }
                }
            }
            i += 1;
        }
        proof {
            assert(self.piece_set@.take(n as int) =~= self.piece_set@);
            assert(new_set@.to_set() =~= self@.remove(piece));
        }
        Self { piece_set: new_set }
    }

    /// Gets the piece that pass compensation will restore for the given
    /// turn: the highest-valued piece of the turn's color in the ledger.
    /// The ledger must hold at least one piece of that color.
    pub fn get_add_piece(&self, turn: Turn) -> (r: Piece)
        requires
            self.wf(),
            ledger_has_color(self@, turn.color),
        ensures
            is_max_of_color(self@, turn.color, r),
            r == max_of_color(self@, turn.color),
    {
        let n = self.piece_set.len();
        let mut best: Option<Piece> = None;
        let mut i: usize = 0;
        while i < n
            invariant
                i <= n,
                n == self.piece_set@.len(),
                best is Some ==> self.piece_set@.contains(best->0)
                    && best->0.color == turn.color,
                forall|j: int|
                    0 <= j < i && self.piece_set@[j].color == turn.color ==> best is Some
                        && self.piece_set@[j].value <= best->0.value,
            decreases n - i,
        {
            let p = self.piece_set[i];
            if p.color == turn.color {
                match best {
                    Some(b) => {
                        if p.value > b.value {
                            best = Some(p);
                        }
                    },
                    None => {
                        best = Some(p);
                    },
                }
            }
            i += 1;
        }
        match best {
            Some(b) => {
                proof {
                    assert forall|q: Piece| self@.contains(q) && q.color == turn.color implies
                        q.value <= b.value by {
                        let j = choose|j: int|
                            0 <= j < self.piece_set@.len() && self.piece_set@[j] == q;
                    }
                    lemma_max_of_color_unique(self@, turn.color, b);
                }
                b
            },
            None => {
                proof {
                    let p = choose|p: Piece| self@.contains(p) && p.color == turn.color;
                    let j = choose|j: int|
                        0 <= j < self.piece_set@.len() && self.piece_set@[j] == p;
                    assert(false);
                }
                vstd::pervasive::unreached()
            },
        }
    }
}

} // verus!
