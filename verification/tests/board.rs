use number_reversi::board::Board;
use number_reversi::color::Color;
use number_reversi::piece::Piece;
use number_reversi::position::Position;
use number_reversi::square::Square;

#[test]
fn test_set_initial_state() {
    let board = Board::set_initial_state();

    assert_eq!(board.squares[3][3], Square::Put(Piece::new(Color::Black, 1)));
    assert_eq!(board.squares[4][4], Square::Put(Piece::new(Color::Black, 1)));
    assert_eq!(board.squares[3][4], Square::Put(Piece::new(Color::White, 1)));
    assert_eq!(board.squares[4][3], Square::Put(Piece::new(Color::White, 1)));
}

#[test]
fn is_put_test() {
    let board = Board::set_initial_state();

    assert!(board.is_put(Position { x: 3, y: 3 }));
    assert!(board.is_put(Position { x: 4, y: 4 }));
    assert!(board.is_put(Position { x: 3, y: 4 }));
    assert!(board.is_put(Position { x: 4, y: 3 }));
    assert_eq!(board.is_put(Position { x: 0, y: 0 }), false);
}

#[test]
fn put_piece_test() {
    let board = Board::set_initial_state();
    let piece = Piece::new(Color::Black, 1);

    let new_board = board.put_piece(Position { x: 0, y: 0 }, piece.clone());
    assert_eq!(new_board.squares[0][0], Square::Put(piece));
}

#[test]
fn get_squares_test() {
    let board = Board::set_initial_state();
    let squares = board.get_squares();

    assert_eq!(squares, board.squares);
}

#[test]
fn get_score_test() {
    let board = Board::set_initial_state();
    let score = board.get_score();
    assert_eq!(score.black, 2);
    assert_eq!(score.white, 2);
}

#[test]
fn has_puttable_test() {
    let board = Board::set_initial_state();
    assert_eq!(board.has_puttable(), false);
}

#[test]
fn initial_board_has_exactly_four_occupied_squares() {
    let board = Board::set_initial_state();
    let mut occupied = 0;
    for x in 0..8 {
        for y in 0..8 {
            if board.is_put(Position { x, y }) {
                occupied += 1;
            }
        }
    }
    assert_eq!(occupied, 4);
}

#[test]
fn score_halves_sum_to_total_of_occupied_values() {
    let board = Board::set_initial_state();
    let board = board.put_piece(Position { x: 0, y: 0 }, Piece::new(Color::Black, 7));
    let board = board.put_piece(Position { x: 7, y: 7 }, Piece::new(Color::White, 10));
    let score = board.get_score();
    let mut total = 0usize;
    for x in 0..8 {
        for y in 0..8 {
            if let Square::Put(p) = &board.squares[x][y] {
                total += p.value as usize;
            }
        }
    }
    assert_eq!(score.black + score.white, total);
    assert_eq!(score.black, 9);
    assert_eq!(score.white, 12);
}
