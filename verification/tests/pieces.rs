use number_reversi::color::Color;
use number_reversi::piece::Piece;
use number_reversi::pieces::Pieces;
use number_reversi::turn::Turn;

#[test]
fn make_pieces_creates_correct_number_of_each_black_pieces() {
    let pieces = Pieces::make_pieces();
    let black = Turn { color: Color::Black };
    let white = Turn { color: Color::White };
    assert_eq!(pieces.get_rest_num(1, black), 5);
    assert_eq!(pieces.get_rest_num(2, black), 5);
    assert_eq!(pieces.get_rest_num(3, black), 4);
    assert_eq!(pieces.get_rest_num(4, black), 4);
    assert_eq!(pieces.get_rest_num(5, black), 3);
    assert_eq!(pieces.get_rest_num(6, black), 3);
    assert_eq!(pieces.get_rest_num(7, black), 2);
    assert_eq!(pieces.get_rest_num(8, black), 2);
    assert_eq!(pieces.get_rest_num(9, black), 1);
    assert_eq!(pieces.get_rest_num(10, black), 1);
    assert_eq!(pieces.get_rest_num(1, white), 5);
    assert_eq!(pieces.get_rest_num(2, white), 5);
    assert_eq!(pieces.get_rest_num(3, white), 4);
    assert_eq!(pieces.get_rest_num(4, white), 4);
    assert_eq!(pieces.get_rest_num(5, white), 3);
    assert_eq!(pieces.get_rest_num(6, white), 3);
    assert_eq!(pieces.get_rest_num(7, white), 2);
    assert_eq!(pieces.get_rest_num(8, white), 2);
    assert_eq!(pieces.get_rest_num(9, white), 1);
    assert_eq!(pieces.get_rest_num(10, white), 1);
}

#[test]
fn when_put_a_piece_black1_then_num_of_piece_black1_is_4() {
    let put_piece = Piece::new(Color::Black, 1);
    let pieces = Pieces::make_pieces();
    let pieces = pieces.remove(&put_piece);
    assert_eq!(pieces.get_rest_num(1, Turn { color: Color::Black }), 4);
}

#[test]
fn when_white_passed_then_black_max_piece_increase() {
    let put_piece = Piece::new(Color::Black, 1);
    let pieces = Pieces::make_pieces();
    let pieces = pieces.remove(&put_piece);
    let pieces = pieces.add(&put_piece);
    assert_eq!(pieces.get_rest_num(1, Turn { color: Color::Black }), 5);
}

#[test]
fn remove_and_add_of_the_same_piece_restore_the_inventory() {
    for value in 1..=10u8 {
        for color in [Color::Black, Color::White] {
            let p = Piece::new(color, value);
            let pieces = Pieces::make_pieces();
            let round_trip = pieces.remove(&p).add(&p);
            assert_eq!(round_trip, pieces);
        }
    }
}

#[test]
fn select_piece_returns_the_only_remaining_value() {
    let mut pieces = Pieces::make_pieces();
    let turn = Turn { color: Color::White };
    // empty every white count except value 7
    for value in 1..=10u8 {
        if value == 7 {
            continue;
        }
        while pieces.get_rest_num(value, turn) > 0 {
            pieces = pieces.remove(&Piece::new(Color::White, value));
        }
    }
    let selected = pieces.select_piece(turn);
    assert_eq!(selected, Piece::new(Color::White, 7));
}

#[test]
fn select_piece_only_returns_values_with_remaining_pieces() {
    let pieces = Pieces::make_pieces();
    let turn = Turn { color: Color::Black };
    for _ in 0..50 {
        let selected = pieces.select_piece(turn);
        assert_eq!(selected.color, Color::Black);
        assert!(1 <= selected.value && selected.value <= 10);
        assert!(pieces.get_rest_num(selected.value, turn) > 0);
    }
}
