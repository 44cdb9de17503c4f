use chess::board::Board;
use chess::interpret::{interpret_notation, NotationError};
use chess::utils::{Castle, Move, Piece, PieceType, Player, PlayerPiece};

#[test]
fn two_squares_make_a_move() {
    let board = Board::new();
    assert_eq!(interpret_notation("e2 e4", &board), Ok(Move::new(52, 36)));
    assert_eq!(interpret_notation("a8 h1", &board), Ok(Move::new(0, 63)));
    assert_eq!(interpret_notation("b1 c3 extra", &board), Ok(Move::new(57, 42)));
    assert_eq!(interpret_notation("e2x e4y", &board), Ok(Move::new(52, 36)));
}

#[test]
fn malformed_squares_are_refused() {
    let board = Board::new();
    assert_eq!(interpret_notation("A2 e4", &board), Err(NotationError::InvalidInput));
    assert_eq!(interpret_notation("e9 e4", &board), Err(NotationError::InvalidInput));
    assert_eq!(interpret_notation("e2 ", &board), Err(NotationError::InvalidInput));
    assert_eq!(interpret_notation("i2 e4", &board), Err(NotationError::OutOfRange));
    assert_eq!(interpret_notation("e0 e4", &board), Err(NotationError::OutOfRange));
    assert_eq!(interpret_notation("e2 q4", &board), Err(NotationError::OutOfRange));
}

#[test]
fn castling_notation() {
    let board = Board::new();
    assert_eq!(interpret_notation("0-0", &board).map(|m| m.castle), Ok(Some(Castle::Short)));
    assert_eq!(interpret_notation("0-0-0", &board).map(|m| m.castle), Ok(Some(Castle::Long)));
    assert_eq!(interpret_notation("0", &board), Err(NotationError::InvalidInput));
    assert_eq!(interpret_notation("0-0-0-0", &board), Err(NotationError::InvalidInput));
}

#[test]
fn empty_and_unknown_notation() {
    let board = Board::new();
    assert_eq!(interpret_notation("", &board), Err(NotationError::Empty));
    assert_eq!(interpret_notation("nf3", &board), Err(NotationError::NotImplemented));
    assert_eq!(interpret_notation("e2e4", &board), Err(NotationError::NotImplemented));
}

#[test]
fn lone_square_is_a_pawn_advance() {
    let mut board = Board::new();
    assert_eq!(interpret_notation("e4", &board), Ok(Move::new(52, 36)));
    assert_eq!(interpret_notation("e3", &board), Ok(Move::new(52, 44)));
    assert_eq!(interpret_notation("e5", &board), Err(NotationError::InvalidPawnMove));
    assert_eq!(interpret_notation("z4", &board), Err(NotationError::OutOfRange));
    board.next_turn();
    assert_eq!(interpret_notation("h5", &board), Ok(Move::new(15, 31)));
    assert_eq!(interpret_notation("d6", &board), Ok(Move::new(11, 19)));
}

#[test]
fn pawn_advance_needs_one_pawn_on_the_file() {
    let mut board = Board::new();
    assert_eq!(board.play(Move::new(52, 44)), Ok(()));
    assert_eq!(interpret_notation("e4", &board), Ok(Move::new(44, 36)));
    assert_eq!(board.play(Move::new(51, 43)), Ok(()));
    assert_eq!(board.play(Move::new(43, 35)), Ok(()));
    assert_eq!(board.play(Move::new(35, 27)), Ok(()));
    assert_eq!(board.play(Move::new(27, 19)), Ok(()));
    assert_eq!(board.play(Move::new(19, 10)), Ok(()));
    assert_eq!(board.play(Move::new(44, 36)), Ok(()));
    assert_eq!(board.play(Move::new(36, 28)), Ok(()));
    assert_eq!(board.play(Move::new(28, 20)), Ok(()));
    assert_eq!(interpret_notation("d4", &board), Err(NotationError::NoPawns));
    assert_eq!(board.play(Move::new(10, 3)), Ok(()));
    assert_eq!(board.play(Move::new(55, 39)), Ok(()));
    assert_eq!(board.play(Move::new(39, 31)), Ok(()));
    assert_eq!(board.play(Move::new(31, 23)), Ok(()));
    assert_eq!(board.play(Move::new(23, 14)), Ok(()));
    assert_eq!(interpret_notation("c3", &board), Ok(Move::new(50, 42)));
}

#[test]
fn two_pawns_able_to_advance_are_ambiguous() {
    let mut spaces = [Piece::Empty; 64];
    spaces[52] = Piece::Piece(PlayerPiece::new(PieceType::Pawn, Player::White));
    spaces[28] = Piece::Piece(PlayerPiece::new(PieceType::Pawn, Player::White));
    let board = Board::from_spaces(spaces, Player::White);
    assert_eq!(interpret_notation("e4", &board), Ok(Move::new(52, 36)));
    assert_eq!(interpret_notation("e5", &board), Err(NotationError::InvalidPawnMove));
    assert_eq!(interpret_notation("e6", &board), Ok(Move::new(28, 20)));
    let mut spaces = [Piece::Empty; 64];
    spaces[52] = Piece::Piece(PlayerPiece::new(PieceType::Pawn, Player::White));
    spaces[44] = Piece::Piece(PlayerPiece::new(PieceType::Pawn, Player::White));
    let board = Board::from_spaces(spaces, Player::White);
    assert_eq!(interpret_notation("e3", &board), Ok(Move::new(52, 44)));
    let mut spaces = [Piece::Empty; 64];
    spaces[52] = Piece::Piece(PlayerPiece::new(PieceType::Pawn, Player::White));
    spaces[44] = Piece::Piece(PlayerPiece::new(PieceType::Pawn, Player::White));
    spaces[36] = Piece::Piece(PlayerPiece::new(PieceType::Pawn, Player::White));
    let board = Board::from_spaces(spaces, Player::White);
    assert_eq!(interpret_notation("e4", &board), Err(NotationError::Ambiguous));
}
