use number_reversi::board::Board;
use number_reversi::check_pass::check_pass;
use number_reversi::color::Color;
use number_reversi::piece::{Piece, UsedPiece};
use number_reversi::pieces::Pieces;
use number_reversi::position::{Position, ReversibleCandidates};
use number_reversi::put_piece::put_piece;
use number_reversi::reverse::reverse;
use number_reversi::scan::check_puttable_position_exists;
use number_reversi::square::Square;
use number_reversi::turn::Turn;

fn make_board(
    black_positions: Vec<(usize, usize, u8)>,
    white_positions: Vec<(usize, usize, u8)>,
) -> Board {
    let mut squares = vec![vec![Square::Empty; 8]; 8];
    black_positions
        .iter()
        .for_each(|(x, y, n)| squares[*x][*y] = Square::Put(Piece::new(Color::Black, *n)));
    white_positions
        .iter()
        .for_each(|(x, y, n)| squares[*x][*y] = Square::Put(Piece::new(Color::White, *n)));
    Board { squares }
}

#[test]
fn make_board_test() {
    let board = make_board(vec![(1, 1, 1)], vec![]);
    assert_eq!(board.squares[1][1], Square::Put(Piece::new(Color::Black, 1)));
}

#[test]
fn when_no_puttable_square_then_pass() {
    let turn = Turn { color: Color::Black };
    let board = make_board(vec![(1, 1, 1)], vec![(2, 0, 1)]);
    let pieces = Pieces::make_pieces();
    let used = UsedPiece::new();
    let used = used.add_piece(Piece::new(Color::White, 1));

    let (new_turn, used, pieces, board) = check_pass(turn, board, used, pieces);
    assert_eq!(new_turn, Turn { color: Color::White });
    assert!(used.piece_set.is_empty());
    assert_eq!(pieces.get_rest_num(1, new_turn), 6);
    assert_eq!(
        board.squares[0][2],
        Square::Puttable(vec![ReversibleCandidates::new(
            Position { x: 2, y: 0 },
            vec![Position { x: 1, y: 1 }]
        )])
    );
}

#[test]
fn when_no_exist_reversible_piece_all_way_then_the_position_is_empty() {
    let board = Board::set_initial_state();
    let turn = Turn { color: Color::Black };
    let result_board = check_puttable_position_exists(board, turn);
    assert_eq!(result_board.squares[0][0], Square::Empty);
}

#[test]
fn when_exist_reversible_piece_then_the_position_is_puttable() {
    let board = Board::set_initial_state();
    let turn = Turn { color: Color::Black };
    let result_board = check_puttable_position_exists(board, turn);
    assert_eq!(
        result_board.squares[2][4],
        Square::Puttable(vec![ReversibleCandidates {
            opposite: Position { x: 4, y: 4 },
            positions: vec![Position { x: 3, y: 4 }],
        }])
    );
}

#[test]
fn when_exist_reversible_piece_then_the_position_is_puttable2() {
    let board = Board::set_initial_state();
    let white = Color::White;
    let black = Color::Black;
    let turn = Turn { color: black };
    let board = board.put_piece(Position { x: 3, y: 5 }, Piece::new(white, 1));
    let board = board.put_piece(Position { x: 4, y: 5 }, Piece::new(white, 1));
    let board = board.put_piece(Position { x: 5, y: 4 }, Piece::new(black, 3));
    let result_board = check_puttable_position_exists(board, turn);
    assert_eq!(
        result_board.squares[3][6],
        Square::Puttable(vec![
            ReversibleCandidates {
                opposite: Position { x: 3, y: 3 },
                positions: vec![Position { x: 3, y: 5 }, Position { x: 3, y: 4 }],
            },
            ReversibleCandidates {
                opposite: Position { x: 5, y: 4 },
                positions: vec![Position { x: 4, y: 5 }],
            }
        ])
    );
}

#[test]
fn test_put_piece() {
    let pieces = Pieces::make_pieces();
    let used = UsedPiece::new();

    let board = Board::set_initial_state();
    let turn = Turn { color: Color::Black };
    let piece = Piece::new(turn.color.clone(), 1);
    let position = Position { x: 4, y: 2 };

    let board = check_puttable_position_exists(board, turn);

    let (new_board, new_turn, new_pieces, _new_piece, _new_used) =
        put_piece(position, piece, board, turn, pieces, used);

    assert_eq!(new_board.squares[position.x][position.y], Square::Put(piece));
    assert_eq!(new_turn.color, Color::White);
    assert_eq!(new_pieces.get_rest_num(1, Turn { color: Color::Black }), 4);
}

#[test]
fn when_next_white_piece_is_not_puttable_then_white_turn_pass() {
    let board = make_board(vec![(0, 0, 1)], vec![(1, 0, 1), (0, 1, 1)]);
    let pieces = Pieces::make_pieces();
    let used = UsedPiece::new();
    let turn = Turn { color: Color::Black };

    let board = check_puttable_position_exists(board, turn);
    let piece = Piece::new(turn.color.clone(), 1);
    let position = Position { x: 2, y: 0 };

    let (new_board, new_turn, _new_pieces, _new_piece, _new_used) =
        put_piece(position, piece, board, turn, pieces, used);

    assert_eq!(new_turn, turn);
    assert_eq!(
        new_board.squares[0][2],
        Square::Puttable(vec![ReversibleCandidates::new(
            Position { x: 0, y: 0 },
            vec![Position { x: 0, y: 1 }]
        ),])
    );
}

#[test]
fn test() {
    let turn = Turn { color: Color::Black };
    let board = check_puttable_position_exists(Board::set_initial_state(), turn);
    let position = Position { x: 4, y: 2 };
    let piece = Piece::new(Color::Black, 1);
    let candidates = vec![ReversibleCandidates {
        opposite: Position { x: 4, y: 4 },
        positions: vec![Position { x: 4, y: 3 }],
    }];
    let board = board.put_piece(position, piece);
    let board = reverse(board, piece, candidates);
    assert_eq!(board.squares[4][3], Square::Put(Piece::new(Color::Black, 1)));
}

#[test]
fn capture_flips_piece_below_threshold() {
    // anchor value 2, placed value 3: threshold 5; a bracketed white 4
    // satisfies 4 < 5 and flips, keeping its value
    let board = make_board(vec![(0, 0, 2)], vec![(1, 0, 4)]);
    let piece = Piece::new(Color::Black, 3);
    let board = board.put_piece(Position { x: 2, y: 0 }, piece);
    let candidates = vec![ReversibleCandidates {
        opposite: Position { x: 0, y: 0 },
        positions: vec![Position { x: 1, y: 0 }],
    }];
    let board = reverse(board, piece, candidates);
    assert_eq!(board.squares[1][0], Square::Put(Piece::new(Color::Black, 4)));
}

#[test]
fn capture_spares_piece_at_or_above_threshold() {
    // anchor value 2, placed value 3: threshold 5; a bracketed white 5
    // fails 5 < 5 and survives with its own color
    let board = make_board(vec![(0, 0, 2)], vec![(1, 0, 5)]);
    let piece = Piece::new(Color::Black, 3);
    let board = board.put_piece(Position { x: 2, y: 0 }, piece);
    let candidates = vec![ReversibleCandidates {
        opposite: Position { x: 0, y: 0 },
        positions: vec![Position { x: 1, y: 0 }],
    }];
    let board = reverse(board, piece, candidates);
    assert_eq!(board.squares[1][0], Square::Put(Piece::new(Color::White, 5)));
}

#[test]
fn pass_compensates_with_highest_used_value() {
    // a board where White, to move, has no placeable square: the one
    // black piece is not aligned with the one white piece
    let board = make_board(vec![(0, 0, 1)], vec![(7, 7, 1)]);
    let board = check_puttable_position_exists(board, Turn { color: Color::White });
    assert!(!board.has_puttable());
    let used = UsedPiece::new()
        .add_piece(Piece::new(Color::Black, 1))
        .add_piece(Piece::new(Color::Black, 3));
    let pieces = Pieces::make_pieces();

    let (new_turn, new_used, new_pieces, _new_board) =
        check_pass(Turn { color: Color::White }, board, used, pieces);

    assert_eq!(new_turn, Turn { color: Color::Black });
    assert_eq!(new_pieces.get_rest_num(3, new_turn), 5);
    assert_eq!(new_pieces.get_rest_num(1, new_turn), 5);
    assert_eq!(new_used.piece_set, vec![Piece::new(Color::Black, 1)]);
}

#[test]
fn illegal_move_returns_every_input_unchanged() {
    let turn = Turn { color: Color::Black };
    let board = check_puttable_position_exists(Board::set_initial_state(), turn);
    let pieces = Pieces::make_pieces();
    let used = UsedPiece::new().add_piece(Piece::new(Color::Black, 2));
    let piece = Piece::new(Color::Black, 1);

    // (3, 3) is tagged Put, (0, 0) is tagged Empty: both moves are no-ops
    for target in [Position { x: 3, y: 3 }, Position { x: 0, y: 0 }] {
        let (new_board, new_turn, new_pieces, new_piece, new_used) = put_piece(
            target,
            piece,
            board.clone(),
            turn,
            pieces.clone(),
            used.clone(),
        );
        assert_eq!(new_board, board);
        assert_eq!(new_turn, turn);
        assert_eq!(new_pieces, pieces);
        assert_eq!(new_piece, piece);
        assert_eq!(new_used, used);
    }
}

#[test]
fn get_puttable_position_returns_first_placeable_in_row_major_order() {
    let turn = Turn { color: Color::Black };
    let board = check_puttable_position_exists(Board::set_initial_state(), turn);
    // the opening placements for Black are (2, 4), (3, 5), (4, 2), (5, 3)
    let pos = board.get_puttable_position();
    assert_eq!(pos, Position { x: 2, y: 4 });
    assert!(matches!(board.squares[pos.x][pos.y], Square::Puttable(_)));
}
