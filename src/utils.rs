//! Pieces, players and move requests.

use vstd::prelude::*;

verus! {

/// The content of one square: empty, or a piece owned by a player.
#[derive(Clone, Copy, PartialEq, Eq, Structural, Debug)]
pub enum Piece {
    Empty,
    Piece(PlayerPiece),
}

#[derive(Clone, Copy, PartialEq, Eq, Structural, Debug)]
pub enum PieceType {
    Pawn,
    Rook,
    Knight,
    Bishop,
    Queen,
    King,
}

#[derive(Clone, Copy, PartialEq, Eq, Structural, Debug)]
pub enum Player {
    White,
    Black,
}

#[derive(Clone, Copy, PartialEq, Eq, Structural, Debug)]
pub struct PlayerPiece {
    pub piece: PieceType,
    pub player: Player,
}

/// The two castling moves: toward the king's rook or toward the queen's rook.
#[derive(Clone, Copy, PartialEq, Eq, Structural, Debug)]
pub enum Castle {
    Short,
    Long,
}

/// A move request: a literal relocation `from -> to`, or a castling request.
#[derive(Clone, Copy, PartialEq, Eq, Structural, Debug)]
pub struct Move {
    pub from: usize,
    pub to: usize,
    pub castle: Option<Castle>,
}

/// The other player.
pub open spec fn opponent(p: Player) -> Player {
    match p {
        Player::White => Player::Black,
        Player::Black => Player::White,
    }
}

impl Player {
    pub fn other(self) -> (r: Player)
        ensures
            r == opponent(self),
    {
        match self {
            Player::White => Player::Black,
            Player::Black => Player::White,
        }
    }
}

impl Piece {
    /// The owner of a square's occupant, if any.
    pub open spec fn owner(self) -> Option<Player> {
        match self {
            Piece::Empty => Option::None,
            Piece::Piece(p) => Option::Some(p.player),
        }
    }

    /// The type of a square's occupant, if any.
    pub open spec fn kind(self) -> Option<PieceType> {
        match self {
            Piece::Empty => Option::None,
            Piece::Piece(p) => Option::Some(p.piece),
        }
    }

    pub open spec fn is_occupied(self) -> bool {
        self is Piece
    }

    /// What a square shows: its piece's letter, or for an empty square `#`
    /// when the last move left from it and a blank otherwise.
    pub fn symbol(&self, is_last_move: bool) -> (r: char)
        ensures
            r == match self {
                Piece::Empty => if is_last_move {
                    '#'
                } else {
                    ' '
                },
                Piece::Piece(p) => letter_of(p.piece),
            },
    {
        match self {
            Piece::Empty => if is_last_move {
                '#'
            } else {
                ' '
            },
            Piece::Piece(p) => p.symbol(),
        }
    }

    pub fn extract_value(&self) -> (r: Option<PieceType>)
        ensures
            r == self.kind(),
    {
        match self {
            Piece::Piece(p) => Some(p.piece),
            Piece::Empty => None,
        }
    }

    pub fn extract_player(&self) -> (r: Option<Player>)
        ensures
            r == self.owner(),
    {
        match self {
            Piece::Piece(p) => Some(p.player),
            Piece::Empty => None,
        }
    }
}

/// The letter that shows a piece type on the board.
pub open spec fn letter_of(t: PieceType) -> char {
    match t {
        PieceType::Pawn => 'P',
        PieceType::Rook => 'R',
        PieceType::Knight => 'N',
        PieceType::Bishop => 'B',
        PieceType::Queen => 'Q',
        PieceType::King => 'K',
    }
}

impl PlayerPiece {
    /// The letter that shows this piece; the owner is told apart by colour.
    pub fn symbol(&self) -> (r: char)
        ensures
            r == letter_of(self.piece),
    {
        match self.piece {
            PieceType::Pawn => 'P',
            PieceType::Rook => 'R',
            PieceType::Knight => 'N',
            PieceType::Bishop => 'B',
            PieceType::Queen => 'Q',
            PieceType::King => 'K',
        }
    }

    pub fn new(piece: PieceType, player: Player) -> (r: Self)
        ensures
            r.piece == piece,
            r.player == player,
    {
        Self { piece, player }
    }
}

impl Move {
    pub fn new(from: usize, to: usize) -> (r: Self)
        ensures
            r.from == from,
            r.to == to,
            r.castle == Option::<Castle>::None,
    {
        Self { from, to, castle: None }
    }

    /// A castling request; `castle_long` picks the queen's side.
    pub fn castle(castle_long: bool) -> (r: Self)
        ensures
            r.from == 0,
            r.to == 0,
            r.castle == Option::Some(if castle_long { Castle::Long } else { Castle::Short }),
    {
        let castle = if castle_long {
            Castle::Long
        } else {
            Castle::Short
        };
        Self { from: 0, to: 0, castle: Some(castle) }
    }
}

} // verus!
