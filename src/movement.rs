//! Move legality for each piece type, and castling.

use vstd::prelude::*;
use crate::ray::{
    BOARD_LEN, ROW_LEN, Direction, valid_square, row, col, on_ray, clear_between, slide_along, rank_and_file,
    lemma_ray_unique,
};
use crate::board::{Board, moved};
use crate::keeper::{CastleState, allows, home_in_place, king_home, next_rights, rook_home};
use crate::utils::{Castle, Move, Piece, PieceType, Player, PlayerPiece};

verus! {

/// Why a move is illegal.
#[derive(Clone, Copy, PartialEq, Eq, Structural, Debug)]
pub enum MoveError {
    /// A square index is 64 or more.
    OutOfRange,
    /// The source and destination are the same square.
    NoMovement,
    /// There is no piece on the source square.
    EmptySource,
    /// The destination holds a piece of the mover's own side.
    SelfCapture,
    /// The piece belongs to the side not to move.
    WrongTurn,
    /// The piece cannot reach the destination by its movement pattern.
    Geometry(PieceType),
    /// A sliding piece's path is occupied before the destination.
    PathBlocked,
}

/// The rank step a pawn of `p` makes moving forward.
pub open spec fn pawn_forward(p: Player) -> int {
    match p {
        Player::White => -1,
        Player::Black => 1,
    }
}

/// `from` is on the starting rank of `p`'s pawns.
pub open spec fn on_pawn_home_rank(p: Player, from: int) -> bool {
    match p {
        Player::White => 48 <= from < 56,
        Player::Black => 8 <= from < 16,
    }
}

/// A pawn of `p` may go from `from` to `to`: one step straight ahead onto an
/// empty square (two from its home rank), or one step diagonally ahead onto
/// an occupied square.
pub open spec fn pawn_reaches(b: Seq<Piece>, p: Player, from: int, to: int) -> bool {
    let dr = row(to) - row(from);
    let dc = col(to) - col(from);
    let f = pawn_forward(p);
    if b[to].is_occupied() {
        dr == f && (dc == 1 || dc == -1)
    } else {
        dc == 0 && (dr == f || (on_pawn_home_rank(p, from) && dr == 2 * f))
    }
}

/// The index offset is one of the eight knight L-shapes.
pub open spec fn knight_reaches(from: int, to: int) -> bool {
    let o = to - from;
    o == 6 || o == -6 || o == 10 || o == -10 || o == 15 || o == -15 || o == 17 || o == -17
}

/// `to` is one step from `from` in one of the eight directions.
pub open spec fn king_reaches(from: int, to: int) -> bool {
    let dr = row(to) - row(from);
    let dc = col(to) - col(from);
    -1 <= dr <= 1 && -1 <= dc <= 1 && (dr != 0 || dc != 0)
}

/// The directions a piece of type `t` slides along.
pub open spec fn slides_along(t: PieceType, d: Direction) -> bool {
    let straight = d == Direction::North || d == Direction::East || d == Direction::South || d
        == Direction::West;
    match t {
        PieceType::Rook => straight,
        PieceType::Bishop => !straight,
        PieceType::Queen => true,
        _ => false,
    }
}

/// The verdict for a sliding piece of type `t`: legal when `to` lies on one of
/// its rays with nothing strictly between; blocked when it lies on one of
/// them with something between.
pub open spec fn slide_verdict(b: Seq<Piece>, t: PieceType, from: int, to: int) -> Result<(), MoveError> {
    if exists|d: Direction|
        slides_along(t, d) && #[trigger] on_ray(from, d, to) && clear_between(b, from, d, to) {
        Result::Ok(())
    } else if exists|d: Direction| slides_along(t, d) && #[trigger] on_ray(from, d, to) {
        Result::Err(MoveError::PathBlocked)
    } else {
        Result::Err(MoveError::Geometry(t))
    }
}

/// The verdict by piece type, once the checks common to all pieces passed.
pub open spec fn piece_verdict(b: Seq<Piece>, p: PlayerPiece, from: int, to: int) -> Result<(), MoveError> {
    let reaches = match p.piece {
        PieceType::Pawn => pawn_reaches(b, p.player, from, to),
        PieceType::Knight => knight_reaches(from, to),
        PieceType::King => king_reaches(from, to),
        _ => true,
    };
    match p.piece {
        PieceType::Rook | PieceType::Bishop | PieceType::Queen => slide_verdict(b, p.piece, from, to),
        _ => if reaches {
            Result::Ok(())
        } else {
            Result::Err(MoveError::Geometry(p.piece))
        },
    }
}

/// The verdict on moving `from -> to` on board `b` with `turn` to move.
pub open spec fn move_verdict(b: Seq<Piece>, turn: Player, from: int, to: int) -> Result<(), MoveError> {
    if !valid_square(from) || !valid_square(to) {
        Result::Err(MoveError::OutOfRange)
    } else if from == to {
        Result::Err(MoveError::NoMovement)
    } else {
        match b[from] {
            Piece::Empty => Result::Err(MoveError::EmptySource),
            Piece::Piece(p) => if b[to].owner() == Option::Some(p.player) {
                Result::Err(MoveError::SelfCapture)
            } else if p.player != turn {
                Result::Err(MoveError::WrongTurn)
            } else {
                piece_verdict(b, p, from, to)
            },
        }
    }
}

/// The legal moves are those with an `Ok` verdict.
pub open spec fn is_legal(b: Seq<Piece>, turn: Player, from: int, to: int) -> bool {
    move_verdict(b, turn, from, to) is Ok
}

/// The common part of the sliding pieces: `dirs` are the directions of type
/// `t`, tried in order.
fn slide_movement(board: &[Piece; BOARD_LEN], m: &Move, t: PieceType, dirs: &[Direction]) -> (r: Result<(), MoveError>)
    requires
        m.from < BOARD_LEN,
        m.to < BOARD_LEN,
        forall|d: Direction| slides_along(t, d) <==> dirs@.contains(d),
    ensures
        r == slide_verdict(board@, t, m.from as int, m.to as int),
{
    let from = m.from;
    let to = m.to;
    let mut i: usize = 0;
    while i < dirs.len()
        invariant
            i <= dirs@.len(),
            from == m.from && to == m.to && from < BOARD_LEN && to < BOARD_LEN,
            forall|d: Direction| slides_along(t, d) <==> dirs@.contains(d),
            forall|j: int| 0 <= j < i ==> !on_ray(from as int, #[trigger] dirs@[j], to as int),
        decreases dirs@.len() - i,
    {
        let d = dirs[i];
        match slide_along(board, from, d, to) {
            Some(clear) => {
                proof {
                    assert(dirs@.contains(d));
                    assert forall|e: Direction| slides_along(t, e) && #[trigger] on_ray(from as int, e, to as int)
                        implies e == d by {
                        lemma_ray_unique(from as int, e, d, to as int);
                    }
                    assert(slides_along(t, d) && on_ray(from as int, d, to as int));
                }
                if clear {
                    return Ok(());
                } else {
                    return Err(MoveError::PathBlocked);
                }
            },
            None => {},
        }
        i = i + 1;
    }
    proof {
        assert forall|e: Direction| slides_along(t, e) implies !#[trigger] on_ray(from as int, e, to as int) by {
            assert(dirs@.contains(e));
            let j = choose|j: int| 0 <= j < dirs@.len() && dirs@[j] == e;
        }
    }
    Err(MoveError::Geometry(t))
}

fn rook_movement(board: &[Piece; BOARD_LEN], m: &Move) -> (r: Result<(), MoveError>)
    requires
        m.from < BOARD_LEN,
        m.to < BOARD_LEN,
    ensures
        r == slide_verdict(board@, PieceType::Rook, m.from as int, m.to as int),
{
    let dirs = [Direction::North, Direction::East, Direction::South, Direction::West];
    proof {
        assert forall|d: Direction| slides_along(PieceType::Rook, d) <==> dirs@.contains(d) by {
            if slides_along(PieceType::Rook, d) {
                assert(dirs@[0] == Direction::North && dirs@[1] == Direction::East);
                assert(dirs@[2] == Direction::South && dirs@[3] == Direction::West);
            }
        }
    }
    slide_movement(board, m, PieceType::Rook, &dirs)
}

fn bishop_movement(board: &[Piece; BOARD_LEN], m: &Move) -> (r: Result<(), MoveError>)
    requires
        m.from < BOARD_LEN,
        m.to < BOARD_LEN,
    ensures
        r == slide_verdict(board@, PieceType::Bishop, m.from as int, m.to as int),
{
    let dirs = [Direction::Northeast, Direction::Northwest, Direction::Southeast, Direction::Southwest];
    proof {
        assert forall|d: Direction| slides_along(PieceType::Bishop, d) <==> dirs@.contains(d) by {
            if slides_along(PieceType::Bishop, d) {
                assert(dirs@[0] == Direction::Northeast && dirs@[1] == Direction::Northwest);
                assert(dirs@[2] == Direction::Southeast && dirs@[3] == Direction::Southwest);
            }
        }
    }
    slide_movement(board, m, PieceType::Bishop, &dirs)
}

fn queen_movement(board: &[Piece; BOARD_LEN], m: &Move) -> (r: Result<(), MoveError>)
    requires
        m.from < BOARD_LEN,
        m.to < BOARD_LEN,
    ensures
        r == slide_verdict(board@, PieceType::Queen, m.from as int, m.to as int),
{
    let dirs = [
        Direction::North,
        Direction::East,
        Direction::South,
        Direction::West,
        Direction::Northeast,
        Direction::Northwest,
        Direction::Southeast,
        Direction::Southwest,
    ];
    proof {
        assert forall|d: Direction| slides_along(PieceType::Queen, d) <==> dirs@.contains(d) by {
            assert(dirs@[0] == Direction::North && dirs@[1] == Direction::East);
            assert(dirs@[2] == Direction::South && dirs@[3] == Direction::West);
            assert(dirs@[4] == Direction::Northeast && dirs@[5] == Direction::Northwest);
            assert(dirs@[6] == Direction::Southeast && dirs@[7] == Direction::Southwest);
        }
    }
    slide_movement(board, m, PieceType::Queen, &dirs)
}

fn knight_movement(m: &Move) -> (r: Result<(), MoveError>)
    requires
        m.from < BOARD_LEN,
        m.to < BOARD_LEN,
    ensures
        r == if knight_reaches(m.from as int, m.to as int) {
            Result::Ok(())
        } else {
            Result::Err(MoveError::Geometry(PieceType::Knight))
        },
{
    let from = m.from;
    let to = m.to;
    let row_len = ROW_LEN;
    if to + row_len + 2 == from || to + row_len == from + 2 || to + 2 == from + row_len || to
        == from + row_len + 2 || to + row_len * 2 + 1 == from || to + row_len * 2 == from + 1
        || to + 1 == from + row_len * 2 || to == from + row_len * 2 + 1 {
        return Ok(());
    }
    Err(MoveError::Geometry(PieceType::Knight))
}

fn king_movement(m: &Move) -> (r: Result<(), MoveError>)
    requires
        m.from < BOARD_LEN,
        m.to < BOARD_LEN,
    ensures
        r == if king_reaches(m.from as int, m.to as int) {
            Result::Ok(())
        } else {
            Result::Err(MoveError::Geometry(PieceType::King))
        },
{
    let (fr, fc) = rank_and_file(m.from);
    let (tr, tc) = rank_and_file(m.to);
    if tr <= fr + 1 && fr <= tr + 1 && tc <= fc + 1 && fc <= tc + 1 && (tr != fr || tc != fc) {
        return Ok(());
    }
    Err(MoveError::Geometry(PieceType::King))
}

fn pawn_movement(board: &[Piece; BOARD_LEN], m: &Move, p: PlayerPiece) -> (r: Result<(), MoveError>)
    requires
        m.from < BOARD_LEN,
        m.to < BOARD_LEN,
    ensures
        r == if pawn_reaches(board@, p.player, m.from as int, m.to as int) {
            Result::Ok(())
        } else {
            Result::Err(MoveError::Geometry(PieceType::Pawn))
        },
{
    let from = m.from;
    let (fr, fc) = rank_and_file(from);
    let (tr, tc) = rank_and_file(m.to);
    // `ahead` is the rank one step forward, `two_ahead` two steps from home.
    let (ahead, two_ahead) = match p.player {
        Player::White => (fr == tr + 1, from >= 48 && from < 56 && fr == tr + 2),
        Player::Black => (tr == fr + 1, from >= 8 && from < 16 && tr == fr + 2),
    };
    let legal = match board[m.to] {
        Piece::Piece(_) => ahead && (tc == fc + 1 || fc == tc + 1),
        Piece::Empty => tc == fc && (ahead || two_ahead),
    };
    if legal {
        Ok(())
    } else {
        Err(MoveError::Geometry(PieceType::Pawn))
    }
}

/// Why a castling request was refused.
#[derive(Clone, Copy, PartialEq, Eq, Structural, Debug)]
pub enum CastleError {
    /// The king or that rook has left its home square.
    Unavailable,
    /// A square between the king and the rook is occupied.
    Blocked,
}

/// Where the rook and the king of `p` land when castling to `side`.
pub open spec fn castle_targets(p: Player, side: Castle) -> (int, int) {
    match (p, side) {
        (Player::White, Castle::Short) => (61, 62),
        (Player::White, Castle::Long) => (59, 58),
        (Player::Black, Castle::Short) => (5, 6),
        (Player::Black, Castle::Long) => (3, 2),
    }
}

/// The squares strictly between `p`'s king and its rook on `side` are empty.
pub open spec fn castle_path_empty(b: Seq<Piece>, p: Player, side: Castle) -> bool {
    let k = king_home(p);
    match side {
        Castle::Short => !b[k + 1].is_occupied() && !b[k + 2].is_occupied(),
        Castle::Long => !b[k - 1].is_occupied() && !b[k - 2].is_occupied() && !b[k - 3].is_occupied(),
    }
}

/// The board `b` after `p` castled to `side`: the rook, then the king,
/// relocated.
pub open spec fn castled(b: Seq<Piece>, p: Player, side: Castle) -> Seq<Piece> {
    let (rook_to, king_to) = castle_targets(p, side);
    moved(moved(b, rook_home(p, side), rook_to), king_home(p), king_to)
}

/// The verdict on `p` castling to `side` on board `b` with rights `rights`.
pub open spec fn castle_verdict(b: Seq<Piece>, rights: CastleState, p: Player, side: Castle) -> Result<(), CastleError> {
    if !allows(rights, side) {
        Result::Err(CastleError::Unavailable)
    } else if !castle_path_empty(b, p, side) {
        Result::Err(CastleError::Blocked)
    } else {
        Result::Ok(())
    }
}

/// Narrowing the rights over two boards in turn is narrowing them over the
/// second, when every side home on the second was home on the first.
proof fn lemma_rights_compose(r: CastleState, b1: Seq<Piece>, b2: Seq<Piece>, p: Player)
    requires
        home_in_place(b2, p, Castle::Short) ==> home_in_place(b1, p, Castle::Short),
        home_in_place(b2, p, Castle::Long) ==> home_in_place(b1, p, Castle::Long),
    ensures
        next_rights(next_rights(r, b1, p), b2, p) == next_rights(r, b2, p),
{
}

/// Castles `turn` to `options` when its rights allow that side and the
/// squares between king and rook are empty: the rook, then the king, are
/// relocated, as one operation. On a refusal the board is unchanged.
pub fn castle(board: &mut Board, options: Castle, turn: Player) -> (r: Result<(), CastleError>)
    requires
        old(board).wf(),
    ensures
        final(board).wf(),
        r == castle_verdict(old(board).cells(), old(board).rights(turn), turn, options),
        r is Ok ==> {
            &&& final(board).cells() == castled(old(board).cells(), turn, options)
            &&& final(board).side_to_move() == old(board).side_to_move()
            &&& final(board).last_played() == old(board).last_played()
            &&& forall|p: Player|
                #[trigger] final(board).rights(p) == next_rights(
                    old(board).rights(p),
                    final(board).cells(),
                    p,
                )
        },
        r is Err ==> *final(board) == *old(board),
{
    if !board.get_keeper().can_castle(options, turn) {
        return Err(CastleError::Unavailable);
    }
    let king: usize = match turn {
        Player::White => 60,
        Player::Black => 4,
    };
    let (rook, rook_to, king_to, path_empty) = match options {
        Castle::Short => (
            king + 3,
            king + 1,
            king + 2,
            matches!(board.get_space(king + 1), Some(Piece::Empty)) && matches!(board.get_space(king + 2), Some(Piece::Empty)),
        ),
        Castle::Long => (
            king - 4,
            king - 1,
            king - 2,
            matches!(board.get_space(king - 1), Some(Piece::Empty)) && matches!(board.get_space(king - 2), Some(Piece::Empty))
                && matches!(board.get_space(king - 3), Some(Piece::Empty)),
        ),
    };
    if !path_empty {
        return Err(CastleError::Blocked);
    }
    let ghost b0 = board.cells();
    let ghost r0 = |p: Player| board.rights(p);
    proof {
        assert(home_in_place(b0, turn, options));
    }
    let moved_rook = board.play_no_rules(Move::new(rook, rook_to));
    let ghost b1 = board.cells();
    let moved_king = board.play_no_rules(Move::new(king, king_to));
    proof {
        assert(moved_rook is Ok);
        assert(moved_king is Ok);
        let b2 = board.cells();
        assert forall|p: Player| #[trigger] board.rights(p) == next_rights(r0(p), b2, p) by {
            lemma_rights_compose(r0(p), b1, b2, p);
        }
    }
    Ok(())
}

impl Move {
    /// Checks this move on `board` with `turn` to move: the squares are in
    /// range and differ, the source holds a piece of the side to move, the
    /// destination holds none of its own, and the piece's type allows it.
    pub fn is_valid_move(&self, board: &[Piece; BOARD_LEN], turn: Player) -> (r: Result<(), MoveError>)
        ensures
            r == move_verdict(board@, turn, self.from as int, self.to as int),
    {
        if self.from >= BOARD_LEN || self.to >= BOARD_LEN {
            return Err(MoveError::OutOfRange);
        }
        if self.from == self.to {
            return Err(MoveError::NoMovement);
        }
        match board[self.from] {
            Piece::Empty => Err(MoveError::EmptySource),
            Piece::Piece(piece) => {
                if let Piece::Piece(target_piece) = board[self.to] {
                    if target_piece.player == piece.player {
                        return Err(MoveError::SelfCapture);
                    }
                }
                if piece.player != turn {
                    return Err(MoveError::WrongTurn);
                }
                match piece.piece {
                    PieceType::Pawn => pawn_movement(board, self, piece),
                    PieceType::Rook => rook_movement(board, self),
                    PieceType::Knight => knight_movement(self),
                    PieceType::Bishop => bishop_movement(board, self),
                    PieceType::Queen => queen_movement(board, self),
                    PieceType::King => king_movement(self),
                }
            },
        }
    }
}

/// A pawn's two-square advance is legal only from its home rank.
pub proof fn lemma_double_step_only_from_home(b: Seq<Piece>, turn: Player, from: int, to: int)
    requires
        b.len() == 64,
        valid_square(from),
        valid_square(to),
        b[from] is Piece,
        b[from]->0.piece == PieceType::Pawn,
        col(to) == col(from),
        row(to) == row(from) + 2 * pawn_forward(b[from]->0.player),
    ensures
        is_legal(b, turn, from, to) ==> on_pawn_home_rank(b[from]->0.player, from),
{
}

/// A knight never moves to a square next to its own.
pub proof fn lemma_knight_never_adjacent(b: Seq<Piece>, turn: Player, from: int, to: int)
    requires
        b.len() == 64,
        valid_square(from),
        valid_square(to),
        b[from] is Piece,
        b[from]->0.piece == PieceType::Knight,
        king_reaches(from, to),
    ensures
        !is_legal(b, turn, from, to),
{
    crate::ray::lemma_square(from);
    crate::ray::lemma_square(to);
}

} // verus!
