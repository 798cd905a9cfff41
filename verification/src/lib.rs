//! Rule engine for a Reversi variant whose pieces carry numeric values:
//! capture of a bracketed piece depends on a value comparison, not only on
//! position. The crate models the board, the eight-direction bracket
//! search, the numeric-dominance capture rule, the per-color piece
//! inventory with pass compensation, and the move orchestrator that ties
//! them together. Rendering and input belong to the caller.

pub mod board;
pub mod check_pass;
pub mod color;
pub mod piece;
pub mod pieces;
pub mod position;
pub mod put_piece;
pub mod reverse;
pub mod scan;
pub mod score;
pub mod search;
pub mod square;
pub mod turn;
