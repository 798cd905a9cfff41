//! The per-color inventory of remaining pieces.

use vstd::prelude::*;

use rand::Rng;

use crate::color::Color;
use crate::piece::Piece;
use crate::turn::Turn;

verus! {

broadcast use vstd::seq_lib::group_seq_properties;

/// The number of pieces of each value that a side starts with,
/// inversely weighted by the value.
pub open spec fn initial_count(v: int) -> int {
    if v == 1 || v == 2 {
        5
    } else if v == 3 || v == 4 {
        4
    } else if v == 5 || v == 6 {
        3
    } else if v == 7 || v == 8 {
        2
    } else {
        1
    }
}

/// One side of the initial inventory: entry `v - 1` counts the pieces
/// of value `v`.
pub open spec fn initial_side() -> Seq<u8> {
    Seq::new(10, |i: int| initial_count(i + 1) as u8)
}

/// The side of an inventory model that belongs to `color`.
pub open spec fn side(m: (Seq<u8>, Seq<u8>), color: Color) -> Seq<u8> {
    match color {
        Color::Black => m.0,
        Color::White => m.1,
    }
}

/// The inventory model with `color`'s side replaced by `s`.
pub open spec fn with_side(m: (Seq<u8>, Seq<u8>), color: Color, s: Seq<u8>) -> (Seq<u8>, Seq<u8>) {
    match color {
        Color::Black => (s, m.1),
        Color::White => (m.0, s),
    }
}

/// The remaining count of pieces of the given color and value.
pub open spec fn spec_rest(m: (Seq<u8>, Seq<u8>), color: Color, value: int) -> int {
    side(m, color)[value - 1] as int
}

/// The inventory model after one piece `p` is removed.
pub open spec fn remove_model(m: (Seq<u8>, Seq<u8>), p: Piece) -> (Seq<u8>, Seq<u8>) {
    with_side(
        m,
        p.color,
        side(m, p.color).update(
            p.value - 1,
            (side(m, p.color)[p.value - 1] - 1) as u8,
        ),
    )
}

/// The inventory model after one piece `p` is put back.
pub open spec fn add_model(m: (Seq<u8>, Seq<u8>), p: Piece) -> (Seq<u8>, Seq<u8>) {
    with_side(
        m,
        p.color,
        side(m, p.color).update(
            p.value - 1,
            (side(m, p.color)[p.value - 1] + 1) as u8,
        ),
    )
}

/// Removing a piece with at least one remaining unit, and putting
/// the same piece back, restores the inventory exactly.
pub proof fn lemma_inventory_round_trip(m: (Seq<u8>, Seq<u8>), p: Piece)
    requires
        m.0.len() == 10,
        m.1.len() == 10,
        1 <= p.value <= 10,
        spec_rest(m, p.color, p.value as int) >= 1,
    ensures
        add_model(remove_model(m, p), p) == m,
{
    assert(side(add_model(remove_model(m, p), p), p.color) =~= side(m, p.color));
    assert(add_model(remove_model(m, p), p) == m);
}

/// The remaining pieces of both players: for each color, a count of
/// remaining pieces per value in `1..=10`.
#[derive(Debug, PartialEq, Clone)]
pub struct Pieces {
    /// The remaining black pieces: entry `v - 1` is the number of
    /// remaining black pieces of value `v`.
    pub black: Vec<u8>,
    /// The remaining white pieces, laid out the same way.
    pub white: Vec<u8>,
}

impl View for Pieces {
    type V = (Seq<u8>, Seq<u8>);

    open spec fn view(&self) -> (Seq<u8>, Seq<u8>) {
        (self.black@, self.white@)
    }
}

/// Copies one side's counts.
fn copy_counts(counts: &Vec<u8>) -> (r: Vec<u8>)
    ensures
        r@ == counts@,
{
    let n = counts.len();
    let mut r: Vec<u8> = Vec::new();
    let mut i: usize = 0;
    while i < n
        invariant
            i <= n,
            n == counts@.len(),
            r@.len() == i,
            forall|j: int| 0 <= j < i ==> r@[j] == counts@[j],
        decreases n - i,
    {
        r.push(counts[i]);
        i += 1;
    }
    proof {
        assert(r@ =~= counts@);
    }
    r
}

/// Relies on rand's `thread_rng` and `Rng::gen_range`: sampling the
/// half-open range `0..n` yields a value below `n`, and the range is
/// non-empty, so the call does not panic. Nothing more is assumed of
/// the sampled value.
#[verifier::external_body]
fn random_below(n: usize) -> (r: usize)
    requires
        n > 0,
    ensures
        r < n,
{
    rand::thread_rng().gen_range(0..n)
}

impl Pieces {
    /// Each side's counts cover exactly the values `1..=10`.
    pub open spec fn wf(self) -> bool {
        self.black@.len() == 10 && self.white@.len() == 10
    }

    /// Creates the initial inventory for both sides: five pieces each
    /// of values 1 and 2, four of 3 and 4, three of 5 and 6, two of 7
    /// and 8, and one of 9 and 10, independently per color.
    pub fn make_pieces() -> (r: Self)
        ensures
            r.wf(),
            r@ == (initial_side(), initial_side()),
    {
        let mut counts: Vec<u8> = Vec::new();
        let mut v: usize = 1;
        while v <= 10
            invariant
                1 <= v <= 11,
                counts@.len() == v - 1,
                forall|j: int| 0 <= j < v - 1 ==> counts@[j] == initial_count(j + 1) as u8,
            decreases 11 - v,
        {
            let piece_num: u8 = if v == 1 || v == 2 {
                5
            } else if v == 3 || v == 4 {
                4
            } else if v == 5 || v == 6 {
                3
            } else if v == 7 || v == 8 {
                2
            } else {
                1
            };
            counts.push(piece_num);
            v += 1;
        }
        let other_hand = copy_counts(&counts);
        let r = Self { black: counts, white: other_hand };
        proof {
            assert(r.black@ =~= initial_side());
            assert(r.white@ =~= initial_side());
        }
        r
    }

    /// Returns the inventory with one piece of `piece`'s color and
    /// value removed. At least one such piece must remain.
    pub fn remove(&self, piece: &Piece) -> (r: Self)
        requires
            self.wf(),
            1 <= piece.value <= 10,
            spec_rest(self@, piece.color, piece.value as int) > 0,
        ensures
            r.wf(),
            r@ == remove_model(self@, *piece),
    {
        let idx: usize = (piece.value - 1) as usize;
        match piece.color {
            Color::Black => {
                let mut piece_set = copy_counts(&self.black);
                let count = piece_set[idx];
                piece_set.set(idx, count - 1);
                Self { black: piece_set, white: copy_counts(&self.white) }
            },
            Color::White => {
                let mut piece_set = copy_counts(&self.white);
                let count = piece_set[idx];
                piece_set.set(idx, count - 1);
                Self { black: copy_counts(&self.black), white: piece_set }
            },
        }
    }

    /// Returns the inventory with one piece of `piece`'s color and
    /// value put back.
    pub fn add(&self, piece: &Piece) -> (r: Self)
        requires
            self.wf(),
            1 <= piece.value <= 10,
            spec_rest(self@, piece.color, piece.value as int) < 255,
        ensures
            r.wf(),
            r@ == add_model(self@, *piece),
    {
        let idx: usize = (piece.value - 1) as usize;
        match piece.color {
            Color::Black => {
                let mut piece_set = copy_counts(&self.black);
                let count = piece_set[idx];
                piece_set.set(idx, count + 1);
                Self { black: piece_set, white: copy_counts(&self.white) }
            },
            Color::White => {
                let mut piece_set = copy_counts(&self.white);
                let count = piece_set[idx];
                piece_set.set(idx, count + 1);
                Self { black: copy_counts(&self.black), white: piece_set }
            },
        }
    }

    /// Returns the number of remaining pieces of the given value for
    /// the side whose turn it is.
    pub fn get_rest_num(&self, piece_value: u8, turn: Turn) -> (r: u8)
        requires
            self.wf(),
            1 <= piece_value <= 10,
        ensures
            r == spec_rest(self@, turn.color, piece_value as int),
    {
        let idx: usize = (piece_value - 1) as usize;
        match turn.color {
            Color::Black => self.black[idx],
            Color::White => self.white[idx],
        }
    }

    /// Chooses a piece for the side whose turn it is, uniformly at
    /// random among the values that still have a remaining count above
    /// zero. At least one value must have a remaining piece.
    pub fn select_piece(&self, turn: Turn) -> (r: Piece)
        requires
            self.wf(),
            exists|v: int| 1 <= v <= 10 && spec_rest(self@, turn.color, v) > 0,
        ensures
            r.color == turn.color,
            1 <= r.value <= 10,
            spec_rest(self@, turn.color, r.value as int) > 0,
    {
        let mut values: Vec<u8> = Vec::new();
        let mut v: usize = 1;
        while v <= 10
            invariant
                self.wf(),
                1 <= v <= 11,
                forall|j: int|
                    0 <= j < values@.len() ==> 1 <= #[trigger] values@[j] <= 10 && spec_rest(
                        self@,
                        turn.color,
                        values@[j] as int,
                    ) > 0,
                forall|w: int|
                    1 <= w < v && spec_rest(self@, turn.color, w) > 0 ==> values@.contains(
                        w as u8,
                    ),
            decreases 11 - v,
        {
            let rest = self.get_rest_num(v as u8, turn);
            if rest > 0 {
                values.push(v as u8);
            }
            v += 1;
        }
        proof {
            let w = choose|w: int| 1 <= w <= 10 && spec_rest(self@, turn.color, w) > 0;
            assert(values@.contains(w as u8));
        }
        let i = random_below(values.len());
        let value = values[i];
        Piece { color: turn.color, value }
    }
}

} // verus!
