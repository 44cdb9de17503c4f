//! The game position and the operations that change it.

use vstd::prelude::*;
use crate::keeper::{Keeper, CastleSide, CastleState, next_rights};
use crate::movement::{MoveError, move_verdict};
use crate::ray::BOARD_LEN;
use crate::utils::{Move, Piece, PieceType, Player, PlayerPiece, opponent};

verus! {

/// Why a raw relocation or a piece replacement was refused.
#[derive(Clone, Copy, PartialEq, Eq, Structural, Debug)]
pub enum BoardError {
    /// A square index is 64 or more.
    OutOfRange,
    /// There is no piece on the source square.
    EmptySource,
    /// The destination of a raw relocation is occupied.
    Occupied,
}

/// The piece type on file `c` of a back rank at the start.
pub open spec fn back_rank(c: int) -> PieceType {
    if c == 0 || c == 7 {
        PieceType::Rook
    } else if c == 1 || c == 6 {
        PieceType::Knight
    } else if c == 2 || c == 5 {
        PieceType::Bishop
    } else if c == 3 {
        PieceType::Queen
    } else {
        PieceType::King
    }
}

/// What square `s` holds at the start of a game.
pub open spec fn start_layout(s: int) -> Piece {
    if s < 8 {
        Piece::Piece(PlayerPiece { piece: back_rank(s), player: Player::Black })
    } else if s < 16 {
        Piece::Piece(PlayerPiece { piece: PieceType::Pawn, player: Player::Black })
    } else if s < 48 {
        Piece::Empty
    } else if s < 56 {
        Piece::Piece(PlayerPiece { piece: PieceType::Pawn, player: Player::White })
    } else {
        Piece::Piece(PlayerPiece { piece: back_rank(s - 56), player: Player::White })
    }
}

/// The board `b` after the piece on `from` moved to `to`, replacing whatever
/// stood there.
pub open spec fn moved(b: Seq<Piece>, from: int, to: int) -> Seq<Piece> {
    b.update(to, b[from]).update(from, Piece::Empty)
}

/// A game position: the 64 squares, the side to move, the last move played,
/// and the rosters and castling rights derived from the squares.
pub struct Board {
    spaces: [Piece; BOARD_LEN],
    turn: Player,
    last_move: Option<Move>,
    keeper: Keeper,
}

fn start_piece(i: usize) -> (r: Piece)
    ensures
        r == start_layout(i as int),
{
    let (player, c) = if i < 32 {
        (Player::Black, i)
    } else {
        (Player::White, if i >= 56 { i - 56 } else { i })
    };
    if i >= 16 && i < 48 {
        return Piece::Empty;
    }
    if (i >= 8 && i < 16) || (i >= 48 && i < 56) {
        return Piece::Piece(PlayerPiece { piece: PieceType::Pawn, player });
    }
    let piece = if c == 0 || c == 7 {
        PieceType::Rook
    } else if c == 1 || c == 6 {
        PieceType::Knight
    } else if c == 2 || c == 5 {
        PieceType::Bishop
    } else if c == 3 {
        PieceType::Queen
    } else {
        PieceType::King
    };
    Piece::Piece(PlayerPiece { piece, player })
}

impl Board {
    /// The squares.
    pub closed spec fn cells(&self) -> Seq<Piece> {
        self.spaces@
    }

    /// The side to move.
    pub closed spec fn side_to_move(&self) -> Player {
        self.turn
    }

    /// The last move played by `play`.
    pub closed spec fn last_played(&self) -> Option<Move> {
        self.last_move
    }

    /// The rosters and castling rights.
    pub closed spec fn keeper_state(&self) -> Keeper {
        self.keeper
    }

    /// The castling rights of `p`.
    pub open spec fn rights(&self, p: Player) -> CastleState {
        self.keeper_state().rights(p)
    }

    /// The derived state agrees with the squares.
    pub open spec fn wf(&self) -> bool {
        &&& self.cells().len() == 64
        &&& self.keeper_state().tracks(self.cells())
    }

    /// The standard starting position, White to move.
    pub fn new() -> (r: Self)
        ensures
            r.wf(),
            forall|s: int| 0 <= s < 64 ==> #[trigger] r.cells()[s] == start_layout(s),
            r.side_to_move() == Player::White,
            r.last_played() == Option::<Move>::None,
            forall|p: Player| #[trigger] r.rights(p) == CastleState::Able(CastleSide::Both),
    {
        let mut spaces = [Piece::Empty; BOARD_LEN];
        for i in 0..BOARD_LEN
            invariant
                spaces@.len() == 64,
                forall|s: int| 0 <= s < i ==> #[trigger] spaces@[s] == start_layout(s),
        {
            spaces[i] = start_piece(i);
        }
        let keeper = Keeper::new(&spaces);
        Self { spaces, turn: Player::White, last_move: None, keeper }
    }

    /// A position with the given squares and side to move; each side may
    /// castle to the sides whose king and rook stand home.
    pub fn from_spaces(spaces: [Piece; BOARD_LEN], turn: Player) -> (r: Self)
        ensures
            r.wf(),
            r.cells() == spaces@,
            r.side_to_move() == turn,
            r.last_played() == Option::<Move>::None,
            forall|p: Player|
                #[trigger] r.rights(p) == next_rights(
                    CastleState::Able(CastleSide::Both),
                    spaces@,
                    p,
                ),
    {
        let keeper = Keeper::new(&spaces);
        Self { spaces, turn, last_move: None, keeper }
    }

    /// Plays `m` if it is legal, capturing whatever stands on its
    /// destination, and records it as the last move. The side to move stays.
    pub fn play(&mut self, m: Move) -> (r: Result<(), MoveError>)
        requires
            old(self).wf(),
        ensures
            final(self).wf(),
            r == move_verdict(old(self).cells(), old(self).side_to_move(), m.from as int, m.to as int),
            r is Ok ==> {
                &&& final(self).cells() == moved(old(self).cells(), m.from as int, m.to as int)
                &&& final(self).side_to_move() == old(self).side_to_move()
                &&& final(self).last_played() == Option::Some(m)
                &&& forall|p: Player|
                    #[trigger] final(self).rights(p) == next_rights(
                        old(self).rights(p),
                        final(self).cells(),
                        p,
                    )
            },
            r is Err ==> *final(self) == *old(self),
    {
        let verdict = m.is_valid_move(&self.spaces, self.turn);
        if verdict.is_err() {
            return verdict;
        }
        let piece = self.spaces[m.from];
        self.spaces[m.to] = piece;
        self.spaces[m.from] = Piece::Empty;
        proof {
            assert(self.spaces@ =~= moved(old(self).spaces@, m.from as int, m.to as int));
        }
        self.last_move = Some(m);
        self.keeper.update(&self.spaces);
        Ok(())
    }

    /// Relocates the piece on `m.from` to the empty square `m.to` without
    /// checking any rule of movement.
    pub fn play_no_rules(&mut self, m: Move) -> (r: Result<(), BoardError>)
        requires
            old(self).wf(),
        ensures
            final(self).wf(),
            r == if m.from >= 64 || m.to >= 64 {
                Result::Err(BoardError::OutOfRange)
            } else if !old(self).cells()[m.from as int].is_occupied() {
                Result::Err(BoardError::EmptySource)
            } else if old(self).cells()[m.to as int].is_occupied() {
                Result::Err(BoardError::Occupied)
            } else {
                Result::Ok(())
            },
            r is Ok ==> {
                &&& final(self).cells() == moved(old(self).cells(), m.from as int, m.to as int)
                &&& final(self).side_to_move() == old(self).side_to_move()
                &&& final(self).last_played() == old(self).last_played()
                &&& forall|p: Player|
                    #[trigger] final(self).rights(p) == next_rights(
                        old(self).rights(p),
                        final(self).cells(),
                        p,
                    )
            },
            r is Err ==> *final(self) == *old(self),
    {
        if m.from >= BOARD_LEN || m.to >= BOARD_LEN {
            return Err(BoardError::OutOfRange);
        }
        match self.spaces[m.from] {
            Piece::Empty => Err(BoardError::EmptySource),
            Piece::Piece(p) => {
                if let Piece::Piece(_) = self.spaces[m.to] {
                    return Err(BoardError::Occupied);
                }
                self.spaces[m.to] = Piece::Piece(p);
                self.spaces[m.from] = Piece::Empty;
                proof {
                    assert(self.spaces@ =~= moved(old(self).spaces@, m.from as int, m.to as int));
                }
                self.keeper.update(&self.spaces);
                Ok(())
            },
        }
    }

    /// Replaces what stands on `square` by `piece`, as when promoting a pawn.
    pub fn change_piece(&mut self, square: usize, piece: Piece) -> (r: Result<(), BoardError>)
        requires
            old(self).wf(),
        ensures
            final(self).wf(),
            r == if square >= 64 {
                Result::Err(BoardError::OutOfRange)
            } else {
                Result::Ok(())
            },
            r is Ok ==> {
                &&& final(self).cells() == old(self).cells().update(square as int, piece)
                &&& final(self).side_to_move() == old(self).side_to_move()
                &&& final(self).last_played() == old(self).last_played()
                &&& forall|p: Player|
                    #[trigger] final(self).rights(p) == next_rights(
                        old(self).rights(p),
                        final(self).cells(),
                        p,
                    )
            },
            r is Err ==> *final(self) == *old(self),
    {
        if square >= BOARD_LEN {
            return Err(BoardError::OutOfRange);
        }
        self.spaces[square] = piece;
        self.keeper.update(&self.spaces);
        Ok(())
    }

    /// What stands on `index`, or `None` when it is off the board.
    pub fn get_space(&self, index: usize) -> (r: Option<Piece>)
        ensures
            r == if index < 64 {
                Option::Some(self.cells()[index as int])
            } else {
                Option::None
            },
    {
        if index >= BOARD_LEN {
            return None;
        }
        Some(self.spaces[index])
    }

    pub fn get_spaces(&self) -> (r: [Piece; BOARD_LEN])
        ensures
            r@ == self.cells(),
    {
        self.spaces
    }

    pub fn get_turn(&self) -> (r: Player)
        ensures
            r == self.side_to_move(),
    {
        self.turn
    }

    pub fn get_last_move(&self) -> (r: Option<Move>)
        ensures
            r == self.last_played(),
    {
        self.last_move
    }

    pub fn get_keeper(&self) -> (r: &Keeper)
        ensures
            *r == self.keeper_state(),
    {
        &self.keeper
    }

    /// Hands the move to the other side.
    pub fn next_turn(&mut self)
        requires
            old(self).wf(),
        ensures
            final(self).wf(),
            final(self).side_to_move() == opponent(old(self).side_to_move()),
            final(self).cells() == old(self).cells(),
            final(self).last_played() == old(self).last_played(),
            final(self).keeper_state() == old(self).keeper_state(),
    {
        self.turn = self.turn.other();
    }
}

} // verus!