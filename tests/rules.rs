use chess::board::{Board, BoardError};
use chess::checker::{is_in_check, pawns_to_promote, Snapshot};
use chess::keeper::{CastleSide, CastleState, Keeper};
use chess::movement::{castle, CastleError, MoveError};
use chess::ray::{index_in_raycast, raycast, Direction};
use chess::utils::{Castle, Move, Piece, PieceType, Player, PlayerPiece};

fn piece(piece: PieceType, player: Player) -> Piece {
    Piece::Piece(PlayerPiece::new(piece, player))
}

fn board_with(pieces: &[(usize, PieceType, Player)], turn: Player) -> Board {
    let mut spaces = [Piece::Empty; 64];
    for &(s, t, p) in pieces {
        spaces[s] = piece(t, p);
    }
    Board::from_spaces(spaces, turn)
}

#[test]
fn new_board_has_standard_layout() {
    let board = Board::new();
    let back = [
        PieceType::Rook,
        PieceType::Knight,
        PieceType::Bishop,
        PieceType::Queen,
        PieceType::King,
        PieceType::Bishop,
        PieceType::Knight,
        PieceType::Rook,
    ];
    for s in 0..64 {
        let expected = if s < 8 {
            piece(back[s], Player::Black)
        } else if s < 16 {
            piece(PieceType::Pawn, Player::Black)
        } else if s < 48 {
            Piece::Empty
        } else if s < 56 {
            piece(PieceType::Pawn, Player::White)
        } else {
            piece(back[s - 56], Player::White)
        };
        assert_eq!(board.get_space(s), Some(expected), "square {}", s);
    }
    assert_eq!(board.get_space(0), Some(piece(PieceType::Rook, Player::Black)));
    assert_eq!(board.get_space(4), Some(piece(PieceType::King, Player::Black)));
    assert_eq!(board.get_space(60), Some(piece(PieceType::King, Player::White)));
    assert_eq!(board.get_space(63), Some(piece(PieceType::Rook, Player::White)));
    assert_eq!(board.get_space(64), None);
    assert_eq!(board.get_turn(), Player::White);
    assert_eq!(board.get_last_move(), None);
}

#[test]
fn pawn_double_step_only_from_home_rank() {
    let mut board = Board::new();
    assert_eq!(Move::new(48, 40).is_valid_move(&board.get_spaces(), Player::White), Ok(()));
    assert_eq!(Move::new(48, 32).is_valid_move(&board.get_spaces(), Player::White), Ok(()));
    assert_eq!(board.play(Move::new(48, 40)), Ok(()));
    assert_eq!(board.get_last_move(), Some(Move::new(48, 40)));
    assert_eq!(
        Move::new(40, 24).is_valid_move(&board.get_spaces(), Player::White),
        Err(MoveError::Geometry(PieceType::Pawn))
    );
    assert_eq!(board.play(Move::new(40, 24)), Err(MoveError::Geometry(PieceType::Pawn)));
    assert_eq!(board.play(Move::new(40, 32)), Ok(()));
    assert_eq!(board.get_space(32), Some(piece(PieceType::Pawn, Player::White)));
    assert_eq!(board.get_space(48), Some(Piece::Empty));
}

#[test]
fn black_pawn_double_step_on_its_turn() {
    let mut board = Board::new();
    assert_eq!(board.play(Move::new(8, 24)), Err(MoveError::WrongTurn));
    board.next_turn();
    assert_eq!(board.get_turn(), Player::Black);
    assert_eq!(board.play(Move::new(8, 24)), Ok(()));
    assert_eq!(board.play(Move::new(24, 32)), Ok(()));
    assert_eq!(board.play(Move::new(32, 24)), Err(MoveError::Geometry(PieceType::Pawn)));
    board.next_turn();
    assert_eq!(board.get_turn(), Player::White);
}

#[test]
fn knight_moves_in_l_shapes_only() {
    let board = board_with(&[(42, PieceType::Knight, Player::White)], Player::White);
    let spaces = board.get_spaces();
    for to in [25, 27, 32, 36, 48, 52, 57, 59] {
        assert_eq!(Move::new(42, to).is_valid_move(&spaces, Player::White), Ok(()), "to {}", to);
    }
    for to in [33, 34, 35, 41, 43, 49, 50, 51] {
        assert_eq!(
            Move::new(42, to).is_valid_move(&spaces, Player::White),
            Err(MoveError::Geometry(PieceType::Knight)),
            "to {}",
            to
        );
    }
}

#[test]
fn rook_path_blocking_and_self_capture() {
    let board = board_with(
        &[(0, PieceType::Rook, Player::White), (8, PieceType::Pawn, Player::White)],
        Player::White,
    );
    let spaces = board.get_spaces();
    assert_eq!(Move::new(0, 16).is_valid_move(&spaces, Player::White), Err(MoveError::PathBlocked));
    assert_eq!(Move::new(0, 8).is_valid_move(&spaces, Player::White), Err(MoveError::SelfCapture));
    assert_eq!(Move::new(0, 7).is_valid_move(&spaces, Player::White), Ok(()));
    assert_eq!(Move::new(0, 9).is_valid_move(&spaces, Player::White), Err(MoveError::Geometry(PieceType::Rook)));
}

#[test]
fn rook_captures_first_blocker_only() {
    let board = board_with(
        &[(0, PieceType::Rook, Player::White), (16, PieceType::Pawn, Player::Black), (32, PieceType::Pawn, Player::Black)],
        Player::White,
    );
    let spaces = board.get_spaces();
    assert_eq!(Move::new(0, 16).is_valid_move(&spaces, Player::White), Ok(()));
    assert_eq!(Move::new(0, 24).is_valid_move(&spaces, Player::White), Err(MoveError::PathBlocked));
    assert_eq!(Move::new(0, 32).is_valid_move(&spaces, Player::White), Err(MoveError::PathBlocked));
}

#[test]
fn check_detection_round_trip() {
    let mut board = board_with(
        &[(60, PieceType::King, Player::White), (4, PieceType::Rook, Player::Black)],
        Player::White,
    );
    let snap = Snapshot::new(&board);
    assert!(snap.has_king(Player::White));
    assert!(is_in_check(&snap, Player::White));
    assert_eq!(board.play(Move::new(60, 59)), Ok(()));
    let snap = Snapshot::new(&board);
    assert!(!is_in_check(&snap, Player::White));
}

#[test]
fn check_blocked_by_piece_between() {
    let board = board_with(
        &[
            (60, PieceType::King, Player::White),
            (4, PieceType::Rook, Player::Black),
            (52, PieceType::Pawn, Player::White),
        ],
        Player::White,
    );
    assert!(!is_in_check(&Snapshot::new(&board), Player::White));
    let hypothetical = Snapshot::snap(&board.get_spaces(), &Move::new(52, 44));
    assert!(!is_in_check(&hypothetical, Player::White));
    let hypothetical = Snapshot::snap(&board.get_spaces(), &Move::new(52, 51));
    assert!(is_in_check(&hypothetical, Player::White));
}

#[test]
fn check_by_knight_and_bishop() {
    let mut spaces = [Piece::Empty; 64];
    spaces[4] = piece(PieceType::King, Player::Black);
    spaces[21] = piece(PieceType::Knight, Player::White);
    let snap = Snapshot::from_spaces(spaces);
    assert!(is_in_check(&snap, Player::Black));
    spaces[21] = Piece::Empty;
    spaces[31] = piece(PieceType::Bishop, Player::White);
    assert!(is_in_check(&Snapshot::from_spaces(spaces), Player::Black));
    spaces[22] = piece(PieceType::Pawn, Player::Black);
    assert!(!is_in_check(&Snapshot::from_spaces(spaces), Player::Black));
}

#[test]
fn starting_position_is_not_check() {
    let snap = Snapshot::new(&Board::new());
    assert!(snap.has_king(Player::White));
    assert!(snap.has_king(Player::Black));
    assert!(!Snapshot::from_spaces([Piece::Empty; 64]).has_king(Player::White));
    assert!(!is_in_check(&snap, Player::White));
    assert!(!is_in_check(&snap, Player::Black));
}

#[test]
fn castling_rights_start_both_and_never_come_back() {
    let mut board = Board::new();
    assert_eq!(board.get_keeper().castling_state(Player::White), CastleState::Able(CastleSide::Both));
    assert_eq!(board.get_keeper().castling_state(Player::Black), CastleState::Able(CastleSide::Both));
    assert_eq!(board.play(Move::new(52, 36)), Ok(()));
    assert_eq!(board.get_keeper().castling_state(Player::White), CastleState::Able(CastleSide::Both));
    assert_eq!(board.play(Move::new(60, 52)), Ok(()));
    assert_eq!(board.get_keeper().castling_state(Player::White), CastleState::Unable);
    assert_eq!(board.play(Move::new(52, 60)), Ok(()));
    assert_eq!(board.get_keeper().castling_state(Player::White), CastleState::Unable);
    assert!(!board.get_keeper().can_castle(Castle::Short, Player::White));
    assert!(!board.get_keeper().can_castle(Castle::Long, Player::White));
    assert_eq!(board.get_keeper().castling_state(Player::Black), CastleState::Able(CastleSide::Both));
}

#[test]
fn moving_a_rook_narrows_to_one_side() {
    let mut board = Board::new();
    assert_eq!(board.play(Move::new(55, 39)), Ok(()));
    assert_eq!(board.play(Move::new(63, 47)), Ok(()));
    assert_eq!(board.get_keeper().castling_state(Player::White), CastleState::Able(CastleSide::Long));
    assert!(board.get_keeper().can_castle(Castle::Long, Player::White));
    assert!(!board.get_keeper().can_castle(Castle::Short, Player::White));
    assert_eq!(board.play(Move::new(47, 63)), Ok(()));
    assert_eq!(board.get_keeper().castling_state(Player::White), CastleState::Able(CastleSide::Long));
    board.next_turn();
    assert_eq!(board.play(Move::new(8, 24)), Ok(()));
    assert_eq!(board.play(Move::new(0, 16)), Ok(()));
    assert_eq!(board.get_keeper().castling_state(Player::Black), CastleState::Able(CastleSide::Short));
}

#[test]
fn roster_rebuild_is_idempotent() {
    let mut board = Board::new();
    assert_eq!(board.play(Move::new(52, 36)), Ok(()));
    let spaces = board.get_spaces();
    let mut keeper = Keeper::new(&spaces);
    keeper.update(&spaces);
    let white = keeper.get_white_pieces();
    let black = keeper.get_black_pieces();
    let rights = (keeper.castling_state(Player::White), keeper.castling_state(Player::Black));
    keeper.update(&spaces);
    assert_eq!(keeper.get_white_pieces(), white);
    assert_eq!(keeper.get_black_pieces(), black);
    assert_eq!((keeper.castling_state(Player::White), keeper.castling_state(Player::Black)), rights);
    assert_eq!(white.len(), 16);
    assert!(white.contains(&(PieceType::Pawn, 36)));
    assert!(!white.contains(&(PieceType::Pawn, 52)));
    assert_eq!(black[0], (PieceType::Rook, 0));
    assert_eq!(black[4], (PieceType::King, 4));
}

#[test]
fn captured_pieces_follow_the_board() {
    let mut board = Board::new();
    assert!(board.get_keeper().get_black_captured().is_empty());
    assert!(board.get_keeper().get_white_captured().is_empty());
    assert_eq!(board.play(Move::new(52, 36)), Ok(()));
    board.next_turn();
    assert_eq!(board.play(Move::new(11, 27)), Ok(()));
    board.next_turn();
    assert_eq!(board.play(Move::new(36, 27)), Ok(()));
    assert_eq!(board.get_keeper().get_white_captured(), vec![PieceType::Pawn]);
    assert!(board.get_keeper().get_black_captured().is_empty());
    board.next_turn();
    assert_eq!(board.play(Move::new(3, 27)), Ok(()));
    assert_eq!(board.get_keeper().get_black_captured(), vec![PieceType::Pawn]);
    let keeper = Keeper::new(&[Piece::Empty; 64]);
    assert_eq!(
        keeper.get_white_captured(),
        vec![
            PieceType::Pawn, PieceType::Pawn, PieceType::Pawn, PieceType::Pawn,
            PieceType::Pawn, PieceType::Pawn, PieceType::Pawn, PieceType::Pawn,
            PieceType::Rook, PieceType::Rook, PieceType::Knight, PieceType::Knight,
            PieceType::Bishop, PieceType::Bishop, PieceType::Queen, PieceType::King,
        ]
    );
}

#[test]
fn common_move_errors() {
    let board = Board::new();
    let spaces = board.get_spaces();
    assert_eq!(Move::new(64, 0).is_valid_move(&spaces, Player::White), Err(MoveError::OutOfRange));
    assert_eq!(Move::new(0, 64).is_valid_move(&spaces, Player::White), Err(MoveError::OutOfRange));
    assert_eq!(Move::new(52, 52).is_valid_move(&spaces, Player::White), Err(MoveError::NoMovement));
    assert_eq!(Move::new(36, 28).is_valid_move(&spaces, Player::White), Err(MoveError::EmptySource));
    assert_eq!(Move::new(56, 48).is_valid_move(&spaces, Player::White), Err(MoveError::SelfCapture));
    assert_eq!(Move::new(8, 16).is_valid_move(&spaces, Player::White), Err(MoveError::WrongTurn));
    assert_eq!(Move::new(8, 16).is_valid_move(&spaces, Player::Black), Ok(()));
    assert_eq!(Move::new(58, 44).is_valid_move(&spaces, Player::White), Err(MoveError::PathBlocked));
    assert_eq!(Move::new(59, 35).is_valid_move(&spaces, Player::White), Err(MoveError::PathBlocked));
    assert_eq!(Move::new(57, 42).is_valid_move(&spaces, Player::White), Ok(()));
    assert_eq!(Move::new(57, 40).is_valid_move(&spaces, Player::White), Ok(()));
}

#[test]
fn failed_play_leaves_board_unchanged() {
    let mut board = Board::new();
    let before = board.get_spaces();
    assert_eq!(board.play(Move::new(60, 52)), Err(MoveError::SelfCapture));
    assert_eq!(board.get_spaces(), before);
    assert_eq!(board.get_last_move(), None);
}

#[test]
fn pawn_captures_diagonally_without_wrapping() {
    let board = board_with(
        &[
            (52, PieceType::Pawn, Player::White),
            (43, PieceType::Knight, Player::Black),
            (45, PieceType::Knight, Player::Black),
            (44, PieceType::Knight, Player::Black),
            (48, PieceType::Pawn, Player::White),
            (39, PieceType::Rook, Player::Black),
        ],
        Player::White,
    );
    let spaces = board.get_spaces();
    assert_eq!(Move::new(52, 43).is_valid_move(&spaces, Player::White), Ok(()));
    assert_eq!(Move::new(52, 45).is_valid_move(&spaces, Player::White), Ok(()));
    assert_eq!(Move::new(52, 44).is_valid_move(&spaces, Player::White), Err(MoveError::Geometry(PieceType::Pawn)));
    assert_eq!(Move::new(52, 36).is_valid_move(&spaces, Player::White), Ok(()));
    assert_eq!(Move::new(48, 39).is_valid_move(&spaces, Player::White), Err(MoveError::Geometry(PieceType::Pawn)));
    assert_eq!(Move::new(48, 41).is_valid_move(&spaces, Player::White), Err(MoveError::Geometry(PieceType::Pawn)));
    assert_eq!(Move::new(48, 56).is_valid_move(&spaces, Player::White), Err(MoveError::Geometry(PieceType::Pawn)));
}

#[test]
fn king_moves_one_step_without_wrapping() {
    let board = board_with(&[(8, PieceType::King, Player::White)], Player::White);
    let spaces = board.get_spaces();
    for to in [0, 1, 9, 16, 17] {
        assert_eq!(Move::new(8, to).is_valid_move(&spaces, Player::White), Ok(()), "to {}", to);
    }
    for to in [7, 15, 10, 24, 23] {
        assert_eq!(
            Move::new(8, to).is_valid_move(&spaces, Player::White),
            Err(MoveError::Geometry(PieceType::King)),
            "to {}",
            to
        );
    }
}

#[test]
fn bishop_and_queen_rays() {
    let board = board_with(
        &[(27, PieceType::Bishop, Player::White), (35, PieceType::Queen, Player::White), (9, PieceType::Pawn, Player::Black)],
        Player::White,
    );
    let spaces = board.get_spaces();
    assert_eq!(Move::new(27, 9).is_valid_move(&spaces, Player::White), Ok(()));
    assert_eq!(Move::new(27, 0).is_valid_move(&spaces, Player::White), Err(MoveError::PathBlocked));
    assert_eq!(Move::new(27, 63).is_valid_move(&spaces, Player::White), Ok(()));
    assert_eq!(Move::new(27, 28).is_valid_move(&spaces, Player::White), Err(MoveError::Geometry(PieceType::Bishop)));
    assert_eq!(Move::new(27, 24).is_valid_move(&spaces, Player::White), Err(MoveError::Geometry(PieceType::Bishop)));
    assert_eq!(Move::new(35, 19).is_valid_move(&spaces, Player::White), Err(MoveError::PathBlocked));
    assert_eq!(Move::new(35, 39).is_valid_move(&spaces, Player::White), Ok(()));
    assert_eq!(Move::new(35, 32).is_valid_move(&spaces, Player::White), Ok(()));
    assert_eq!(Move::new(35, 56).is_valid_move(&spaces, Player::White), Ok(()));
    assert_eq!(Move::new(35, 18).is_valid_move(&spaces, Player::White), Err(MoveError::Geometry(PieceType::Queen)));
}

#[test]
fn rays_stop_at_the_edge() {
    assert!(index_in_raycast(7, Direction::West, 0));
    assert!(!index_in_raycast(7, Direction::East, 8));
    assert!(!index_in_raycast(8, Direction::West, 7));
    assert!(index_in_raycast(63, Direction::Northwest, 0));
    assert!(index_in_raycast(56, Direction::Northeast, 7));
    assert!(!index_in_raycast(56, Direction::Northeast, 56));
    assert!(index_in_raycast(3, Direction::South, 59));
    assert!(!index_in_raycast(64, Direction::North, 0));
    let board = board_with(&[(20, PieceType::Pawn, Player::Black), (44, PieceType::Pawn, Player::White)], Player::White);
    let spaces = board.get_spaces();
    assert_eq!(raycast(&spaces, 60, Direction::North), Some(44));
    assert_eq!(raycast(&spaces, 36, Direction::North), Some(20));
    assert_eq!(raycast(&spaces, 36, Direction::East), None);
    assert_eq!(raycast(&spaces, 64, Direction::East), None);
}

#[test]
fn raw_relocation_never_overwrites() {
    let mut board = Board::new();
    assert_eq!(board.play_no_rules(Move::new(30, 31)), Err(BoardError::EmptySource));
    assert_eq!(board.play_no_rules(Move::new(56, 57)), Err(BoardError::Occupied));
    assert_eq!(board.get_space(56), Some(piece(PieceType::Rook, Player::White)));
    assert_eq!(board.play_no_rules(Move::new(64, 0)), Err(BoardError::OutOfRange));
    assert_eq!(board.play_no_rules(Move::new(57, 40)), Ok(()));
    assert_eq!(board.get_space(40), Some(piece(PieceType::Knight, Player::White)));
    assert_eq!(board.get_space(57), Some(Piece::Empty));
}

#[test]
fn castling_short_and_long() {
    let mut board = board_with(
        &[
            (60, PieceType::King, Player::White),
            (56, PieceType::Rook, Player::White),
            (63, PieceType::Rook, Player::White),
            (4, PieceType::King, Player::Black),
            (0, PieceType::Rook, Player::Black),
            (7, PieceType::Rook, Player::Black),
            (1, PieceType::Knight, Player::Black),
        ],
        Player::White,
    );
    assert_eq!(castle(&mut board, Castle::Short, Player::White), Ok(()));
    assert_eq!(board.get_space(61), Some(piece(PieceType::Rook, Player::White)));
    assert_eq!(board.get_space(62), Some(piece(PieceType::King, Player::White)));
    assert_eq!(board.get_space(60), Some(Piece::Empty));
    assert_eq!(board.get_space(63), Some(Piece::Empty));
    assert_eq!(board.get_keeper().castling_state(Player::White), CastleState::Unable);
    assert_eq!(castle(&mut board, Castle::Long, Player::White), Err(CastleError::Unavailable));
    assert_eq!(castle(&mut board, Castle::Long, Player::Black), Err(CastleError::Blocked));
    assert_eq!(board.get_space(4), Some(piece(PieceType::King, Player::Black)));
    assert_eq!(castle(&mut board, Castle::Short, Player::Black), Ok(()));
    assert_eq!(board.get_space(5), Some(piece(PieceType::Rook, Player::Black)));
    assert_eq!(board.get_space(6), Some(piece(PieceType::King, Player::Black)));
}

#[test]
fn castling_long_for_white() {
    let mut board = board_with(
        &[(60, PieceType::King, Player::White), (56, PieceType::Rook, Player::White)],
        Player::White,
    );
    assert_eq!(board.get_keeper().castling_state(Player::White), CastleState::Able(CastleSide::Long));
    assert_eq!(castle(&mut board, Castle::Short, Player::White), Err(CastleError::Unavailable));
    assert_eq!(castle(&mut board, Castle::Long, Player::White), Ok(()));
    assert_eq!(board.get_space(59), Some(piece(PieceType::Rook, Player::White)));
    assert_eq!(board.get_space(58), Some(piece(PieceType::King, Player::White)));
    assert_eq!(board.get_space(56), Some(Piece::Empty));
}

#[test]
fn castling_from_the_start_is_blocked() {
    let mut board = Board::new();
    assert_eq!(castle(&mut board, Castle::Short, Player::White), Err(CastleError::Blocked));
    assert_eq!(board.get_spaces(), Board::new().get_spaces());
}

#[test]
fn promotion_is_detected_and_applied() {
    let mut board = board_with(
        &[(9, PieceType::Pawn, Player::White), (52, PieceType::Pawn, Player::Black), (0, PieceType::Rook, Player::Black)],
        Player::White,
    );
    assert!(pawns_to_promote(&Snapshot::new(&board)).is_empty());
    assert_eq!(board.play(Move::new(9, 1)), Ok(()));
    board.next_turn();
    assert_eq!(board.play(Move::new(52, 60)), Ok(()));
    assert_eq!(pawns_to_promote(&Snapshot::new(&board)), vec![1, 60]);
    assert_eq!(board.change_piece(1, piece(PieceType::Queen, Player::White)), Ok(()));
    assert_eq!(board.change_piece(64, Piece::Empty), Err(BoardError::OutOfRange));
    assert_eq!(pawns_to_promote(&Snapshot::new(&board)), vec![60]);
    assert_eq!(board.get_space(1), Some(piece(PieceType::Queen, Player::White)));
}

#[test]
fn piece_accessors() {
    let p = piece(PieceType::Bishop, Player::Black);
    assert_eq!(p.extract_value(), Some(PieceType::Bishop));
    assert_eq!(p.extract_player(), Some(Player::Black));
    assert_eq!(Piece::Empty.extract_value(), None);
    assert_eq!(Piece::Empty.extract_player(), None);
    assert_eq!(Player::White.other(), Player::Black);
    assert_eq!(Move::castle(true).castle, Some(Castle::Long));
    assert_eq!(Move::castle(false).castle, Some(Castle::Short));
    assert_eq!(Move::new(1, 2).castle, None);
    assert_eq!(PlayerPiece::new(PieceType::Knight, Player::White).symbol(), 'N');
    assert_eq!(PlayerPiece::new(PieceType::King, Player::Black).symbol(), 'K');
    assert_eq!(p.symbol(false), 'B');
    assert_eq!(Piece::Empty.symbol(true), '#');
    assert_eq!(Piece::Empty.symbol(false), ' ');
}
