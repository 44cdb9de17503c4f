//! Reading a line of move notation.

use vstd::prelude::*;
use vstd::string::StringSliceAdditionalSpecFns;
use crate::board::Board;
use crate::keeper::holds;
use crate::ray::ROW_LEN;
use crate::utils::{Castle, Move, Piece, PieceType, Player, PlayerPiece};

verus! {

/// Why a line of notation could not be read as a move.
#[derive(Clone, Copy, PartialEq, Eq, Structural, Debug)]
pub enum NotationError {
    /// The line is empty.
    Empty,
    /// A square is not written as a file letter and a rank digit.
    InvalidInput,
    /// A square's file or rank is off the board.
    OutOfRange,
    /// No pawn of the side to move stands on the target's file.
    NoPawns,
    /// No pawn on the target's file can advance to it.
    InvalidPawnMove,
    /// Several pawns on the target's file can advance to it.
    Ambiguous,
    /// A form of notation that is not understood.
    NotImplemented,
}

pub const SPACE: u8 = 32;
pub const DASH: u8 = 45;
pub const ZERO: u8 = 48;
pub const RANK_EIGHT: u8 = 56;
pub const RANK_NINE: u8 = 57;
pub const FILE_A: u8 = 97;
pub const FILE_Z: u8 = 122;

/// The first index from `i` on where `s` holds `c`; `s.len()` when none.
pub open spec fn find_from(s: Seq<u8>, c: u8, i: int) -> int
    decreases s.len() - i,
{
    if i >= s.len() {
        s.len() as int
    } else if s[i] == c {
        i
    } else {
        find_from(s, c, i + 1)
    }
}

/// How often `s` holds `c`.
pub open spec fn count_byte(s: Seq<u8>, c: u8) -> nat
    decreases s.len(),
{
    if s.len() == 0 {
        0
    } else {
        count_byte(s.drop_last(), c) + if s.last() == c {
            1nat
        } else {
            0nat
        }
    }
}

/// Byte `i` of `s`, or `d` past its end.
pub open spec fn byte_or(s: Seq<u8>, i: int, d: u8) -> u8 {
    if 0 <= i < s.len() {
        s[i]
    } else {
        d
    }
}

/// The square written as file byte `f` and rank byte `r` (`e4`).
pub open spec fn square_from(f: u8, r: u8) -> Result<usize, NotationError> {
    if f < FILE_A || r > RANK_EIGHT {
        Result::Err(NotationError::InvalidInput)
    } else if f - FILE_A >= 8 || RANK_EIGHT - r >= 8 {
        Result::Err(NotationError::OutOfRange)
    } else {
        Result::Ok(((RANK_EIGHT - r) * 8 + (f - FILE_A)) as usize)
    }
}

/// The square written at the start of token `t`.
pub open spec fn token_square(t: Seq<u8>) -> Result<usize, NotationError> {
    square_from(byte_or(t, 0, FILE_Z), byte_or(t, 1, RANK_NINE))
}

/// A pawn of `turn` on `from` may advance straight to `to` (two squares from
/// its home rank).
pub open spec fn pawn_advance(from: int, to: int, turn: Player) -> bool {
    match turn {
        Player::White => to < from && (to == from - 8 || (48 <= from < 56 && to == from - 16)),
        Player::Black => to > from && (to == from + 8 || (8 <= from < 16 && to == from + 16)),
    }
}

/// The squares on file `c`, among its first `n` ranks, holding a pawn of
/// `turn`, by increasing rank.
pub open spec fn column_pawns(b: Seq<Piece>, turn: Player, c: int, n: int) -> Seq<usize>
    decreases n,
{
    if n <= 0 {
        seq![]
    } else if holds(b, (n - 1) * 8 + c, PieceType::Pawn, turn) {
        column_pawns(b, turn, c, n - 1).push(((n - 1) * 8 + c) as usize)
    } else {
        column_pawns(b, turn, c, n - 1)
    }
}

/// Those of `pawns` that may advance to `to`.
pub open spec fn advancing(pawns: Seq<usize>, to: int, turn: Player) -> Seq<usize> {
    pawns.filter(|p: usize| pawn_advance(p as int, to, turn))
}

/// A lone square names the pawn advance to it by the side to move.
pub open spec fn pawn_notation(s: Seq<u8>, b: Seq<Piece>, turn: Player) -> Result<Move, NotationError> {
    if s.len() != 2 {
        Result::Err(NotationError::NotImplemented)
    } else {
        match square_from(s[0], s[1]) {
            Result::Err(e) => Result::Err(e),
            Result::Ok(target) => {
                let pawns = column_pawns(b, turn, target as int % 8, 8);
                let fits = advancing(pawns, target as int, turn);
                if pawns.len() == 0 {
                    Result::Err(NotationError::NoPawns)
                } else if fits.len() > 1 {
                    Result::Err(NotationError::Ambiguous)
                } else if fits.len() == 0 {
                    Result::Err(NotationError::InvalidPawnMove)
                } else {
                    Result::Ok(Move { from: fits[0], to: target, castle: Option::None })
                }
            },
        }
    }
}

/// The move that line `s` writes, the board being `b` with `turn` to move:
/// two squares separated by a space; `0-0` or `0-0-0` for castling; or a
/// lone target square for a pawn advance.
pub open spec fn parse_notation(s: Seq<u8>, b: Seq<Piece>, turn: Player) -> Result<Move, NotationError> {
    let k0 = find_from(s, SPACE, 0);
    if k0 < s.len() {
        let rest = s.skip(k0 + 1);
        match token_square(s.take(k0)) {
            Result::Err(e) => Result::Err(e),
            Result::Ok(from) => match token_square(rest.take(find_from(rest, SPACE, 0))) {
                Result::Err(e) => Result::Err(e),
                Result::Ok(to) => Result::Ok(Move { from, to, castle: Option::None }),
            },
        }
    } else if s.len() == 0 {
        Result::Err(NotationError::Empty)
    } else if s[0] == ZERO {
        let parts = count_byte(s, DASH) + 1;
        if parts == 2 {
            Result::Ok(Move { from: 0, to: 0, castle: Option::Some(Castle::Short) })
        } else if parts == 3 {
            Result::Ok(Move { from: 0, to: 0, castle: Option::Some(Castle::Long) })
        } else {
            Result::Err(NotationError::InvalidInput)
        }
    } else {
        pawn_notation(s, b, turn)
    }
}

proof fn lemma_find_from(s: Seq<u8>, c: u8, i: int, k: int)
    requires
        0 <= i <= k <= s.len(),
        k < s.len() ==> s[k] == c,
        forall|j: int| i <= j < k ==> s[j] != c,
    ensures
        find_from(s, c, i) == k,
    decreases k - i,
{
    if i < k {
        lemma_find_from(s, c, i + 1, k);
    }
}

/// The first index from `i` on where `s` holds `c`, or its length.
fn find_byte(s: &[u8], c: u8, i: usize) -> (r: usize)
    requires
        i <= s@.len(),
    ensures
        r == find_from(s@, c, i as int),
        i <= r <= s@.len(),
        r < s@.len() ==> s@[r as int] == c,
        forall|j: int| i <= j < r ==> s@[j] != c,
{
    let mut k = i;
    while k < s.len() && s[k] != c
        invariant
            i <= k <= s@.len(),
            forall|j: int| i <= j < k ==> s@[j] != c,
        decreases s@.len() - k,
    {
        k = k + 1;
    }
    proof {
        lemma_find_from(s@, c, i as int, k as int);
    }
    k
}

/// The square written as file byte `f` and rank byte `r`.
fn parse_square(f: u8, r: u8) -> (res: Result<usize, NotationError>)
    ensures
        res == square_from(f, r),
{
    if f < FILE_A || r > RANK_EIGHT {
        return Err(NotationError::InvalidInput);
    }
    let c = (f - FILE_A) as usize;
    let row = (RANK_EIGHT - r) as usize;
    if c >= ROW_LEN || row >= ROW_LEN {
        return Err(NotationError::OutOfRange);
    }
    Ok(row * ROW_LEN + c)
}

/// The square written at `s[start..end]`.
fn parse_token(s: &[u8], start: usize, end: usize) -> (res: Result<usize, NotationError>)
    requires
        start <= end <= s@.len(),
    ensures
        res == token_square(s@.subrange(start as int, end as int)),
{
    let f = if start < end { s[start] } else { FILE_Z };
    let r = if end - start > 1 { s[start + 1] } else { RANK_NINE };
    parse_square(f, r)
}

/// The straight pawn advance of `turn` from `from` to `to`, if it is one.
fn generate_pawn_move(from: usize, to: usize, turn: Player) -> (r: Option<Move>)
    requires
        from < 64,
    ensures
        r == if pawn_advance(from as int, to as int, turn) {
            Option::Some(Move { from, to, castle: Option::None })
        } else {
            Option::None
        },
{
    match turn {
        Player::White => {
            if to >= from {
                return None;
            }
            if from >= 48 && from < 56 && (to == from - ROW_LEN || to == from - ROW_LEN * 2) {
                return Some(Move::new(from, to));
            }
            if to + ROW_LEN == from {
                return Some(Move::new(from, to));
            }
        },
        Player::Black => {
            if to <= from {
                return None;
            }
            if from >= 8 && from < 16 && (to == from + ROW_LEN || to == from + ROW_LEN * 2) {
                return Some(Move::new(from, to));
            }
            if to == from + ROW_LEN {
                return Some(Move::new(from, to));
            }
        },
    }
    None
}

/// The squares on file `col` holding a pawn of the side to move, by
/// increasing rank.
fn get_pawns_in_column(col: usize, board: &Board) -> (r: Vec<usize>)
    requires
        col < ROW_LEN,
    ensures
        r@ == column_pawns(board.cells(), board.side_to_move(), col as int, 8),
        forall|j: int| 0 <= j < r@.len() ==> #[trigger] r@[j] < 64,
{
    let turn = board.get_turn();
    let pawn = Piece::Piece(PlayerPiece { piece: PieceType::Pawn, player: turn });
    let mut pawns_found: Vec<usize> = Vec::new();
    for i in 0..ROW_LEN
        invariant
            col < ROW_LEN,
            turn == board.side_to_move(),
            pawn == Piece::Piece(PlayerPiece { piece: PieceType::Pawn, player: turn }),
            pawns_found@ == column_pawns(board.cells(), turn, col as int, i as int),
            forall|j: int| 0 <= j < pawns_found@.len() ==> #[trigger] pawns_found@[j] < 64,
    {
        let index = i * ROW_LEN + col;
        if let Some(piece) = board.get_space(index) {
            if piece == pawn {
                pawns_found.push(index);
            }
        }
    }
    pawns_found
}

/// A lone target square: the pawn advance to it by the side to move.
fn complex_interpretation(s: &[u8], board: &Board) -> (r: Result<Move, NotationError>)
    ensures
        r == pawn_notation(s@, board.cells(), board.side_to_move()),
{
    if s.len() != 2 {
        return Err(NotationError::NotImplemented);
    }
    let target = match parse_square(s[0], s[1]) {
        Err(e) => {
            return Err(e);
        },
        Ok(t) => t,
    };
    let col = target % ROW_LEN;
    let pawns_found = get_pawns_in_column(col, board);
    if pawns_found.len() == 0 {
        return Err(NotationError::NoPawns);
    }
    let turn = board.get_turn();
    let ghost pred = |p: usize| pawn_advance(p as int, target as int, turn);
    let mut acceptable_moves: Vec<Move> = Vec::new();
    for i in 0..pawns_found.len()
        invariant
            target < 64,
            turn == board.side_to_move(),
            pred == (|p: usize| pawn_advance(p as int, target as int, turn)),
            forall|j: int| 0 <= j < pawns_found@.len() ==> #[trigger] pawns_found@[j] < 64,
            acceptable_moves@.len() == pawns_found@.take(i as int).filter(pred).len(),
            forall|j: int|
                0 <= j < acceptable_moves@.len() ==> #[trigger] acceptable_moves@[j] == (Move {
                    from: pawns_found@.take(i as int).filter(pred)[j],
                    to: target,
                    castle: Option::None,
                }),
    {
        proof {
            let next = pawns_found@.take(i + 1);
            assert(next.drop_last() =~= pawns_found@.take(i as int));
            reveal(Seq::filter);
        }
        if let Some(m) = generate_pawn_move(pawns_found[i], target, turn) {
            acceptable_moves.push(m);
        }
    }
    proof {
        assert(pawns_found@.take(pawns_found@.len() as int) =~= pawns_found@);
    }
    if acceptable_moves.len() > 1 {
        return Err(NotationError::Ambiguous);
    }
    if acceptable_moves.len() == 0 {
        return Err(NotationError::InvalidPawnMove);
    }
    Ok(acceptable_moves[0])
}

/// Reads a line of notation as a move on `board`: two squares separated by
/// a space (`e2 e4`), `0-0` or `0-0-0` for castling, or a lone target square
/// for a pawn advance by the side to move (`e4`).
pub fn interpret_notation(input: &str, board: &Board) -> (r: Result<Move, NotationError>)
    ensures
        r == parse_notation(input.spec_bytes(), board.cells(), board.side_to_move()),
{
    let s = input.as_bytes();
    let k0 = find_byte(s, SPACE, 0);
    if k0 < s.len() {
        let k1 = find_byte(s, SPACE, k0 + 1);
        proof {
            let rest = s@.skip(k0 + 1);
            assert(s@.take(k0 as int) =~= s@.subrange(0, k0 as int));
            assert forall|j: int| 0 <= j < k1 - (k0 + 1) implies rest[j] != SPACE by {
                assert(rest[j] == s@[j + k0 + 1]);
            }
            lemma_find_from(rest, SPACE, 0, k1 - (k0 + 1));
            assert(rest.take(k1 - (k0 + 1)) =~= s@.subrange(k0 + 1, k1 as int));
        }
        let from = match parse_token(s, 0, k0) {
            Err(e) => {
                return Err(e);
            },
            Ok(sq) => sq,
        };
        let to = match parse_token(s, k0 + 1, k1) {
            Err(e) => {
                return Err(e);
            },
            Ok(sq) => sq,
        };
        return Ok(Move::new(from, to));
    }
    if s.len() == 0 {
        return Err(NotationError::Empty);
    }
    if s[0] == ZERO {
        let mut dashes: usize = 0;
        for i in 0..s.len()
            invariant
                dashes == count_byte(s@.take(i as int), DASH),
                dashes <= i,
        {
            proof {
                let next = s@.take(i + 1);
                assert(next.drop_last() =~= s@.take(i as int));
            }
            if s[i] == DASH {
                dashes = dashes + 1;
            }
        }
        proof {
            assert(s@.take(s@.len() as int) =~= s@);
        }
        if dashes == 1 {
            return Ok(Move::castle(false));
        }
        if dashes == 2 {
            return Ok(Move::castle(true));
        }
        return Err(NotationError::InvalidInput);
    }
    complex_interpretation(s, board)
}

} // verus!
