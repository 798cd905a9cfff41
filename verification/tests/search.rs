use number_reversi::board::Board;
use number_reversi::color::Color;
use number_reversi::piece::Piece;
use number_reversi::position::{Position, ReversibleCandidates};
use number_reversi::search::{search_right, search_up, search_up_right};
use number_reversi::turn::Turn;

#[test]
fn when_next_piece_is_same_colors_then_return_empty_vec() {
    let board = Board::set_initial_state();
    let position = Position { x: 2, y: 3 };
    let turn = Turn { color: Color::Black };
    let result = search_right(&board, position, turn);
    assert_eq!(result, None);
}

#[test]
fn when_next_piece_is_different_color_then_search_next_up() {
    let board = Board::set_initial_state();
    let position = Position { x: 3, y: 5 };
    let turn = Turn { color: Color::Black };
    let result = search_up(&board, position, turn);
    assert_eq!(
        result,
        Some(ReversibleCandidates::new(
            Position { x: 3, y: 3 },
            vec![Position { x: 3, y: 4 }]
        ))
    );
}

#[test]
fn when_next_piece_is_different_color_then_search_next_up_right() {
    let board = Board::set_initial_state();
    let board = board.put_piece(Position { x: 3, y: 5 }, Piece::new(Color::White, 1));
    let position = Position { x: 2, y: 6 };
    let turn = Turn { color: Color::Black };
    let result = search_up_right(&board, position, turn);
    assert_eq!(
        result,
        Some(ReversibleCandidates::new(
            Position { x: 4, y: 4 },
            vec![Position { x: 3, y: 5 }]
        ))
    );
}
