use number_reversi::color::Color;
use number_reversi::piece::{Piece, UsedPiece};
use number_reversi::turn::Turn;

#[test]
fn piece_has_color_and_num_property() {
    assert_eq!(Piece::new(Color::Black, 1), Piece::new(Color::Black, 1));
}

#[test]
fn when_piece_black1_then_returns_piece_white1() {
    let black = Piece::new(Color::Black, 1);
    assert_eq!(black.reverse(), Piece::new(Color::White, 1));
}

#[test]
fn when_piece_white2_then_returns_piece_black2() {
    let black = Piece::new(Color::White, 2);
    assert_eq!(black.reverse(), Piece::new(Color::Black, 2));
}

#[test]
fn used_piece_records_each_piece_at_most_once() {
    let piece = Piece::new(Color::Black, 3);
    let used = UsedPiece::new().add_piece(piece).add_piece(piece);
    assert_eq!(used.piece_set, vec![piece]);
    let used = used.remove_piece(piece);
    assert!(used.piece_set.is_empty());
}

#[test]
fn get_add_piece_returns_highest_value_of_the_turn_color() {
    let used = UsedPiece::new()
        .add_piece(Piece::new(Color::Black, 1))
        .add_piece(Piece::new(Color::Black, 3))
        .add_piece(Piece::new(Color::White, 9));

    let turn = Turn { color: Color::Black };
    assert_eq!(used.get_add_piece(turn), Piece::new(Color::Black, 3));
}
