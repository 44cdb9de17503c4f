//! Check detection on snapshots of the board, and promotion detection.

use vstd::prelude::*;
use crate::board::{Board, moved};
use crate::keeper::{Keeper, holds, lemma_roster, roster_of};
use crate::movement::move_verdict;
use crate::ray::BOARD_LEN;
use crate::utils::{Move, Piece, PieceType, Player, PlayerPiece, opponent};

verus! {

/// The first square, from 0 on, holding `p`'s king; 64 when there is none.
pub open spec fn king_square(b: Seq<Piece>, p: Player) -> int {
    find_king(b, p, 0)
}

/// The first square from `i` on holding `p`'s king; 64 when there is none.
pub open spec fn find_king(b: Seq<Piece>, p: Player, i: int) -> int
    decreases 64 - i,
{
    if i >= 64 {
        64
    } else if holds(b, i, PieceType::King, p) {
        i
    } else {
        find_king(b, p, i + 1)
    }
}

/// Some square of `b` holds `p`'s king.
pub open spec fn has_king(b: Seq<Piece>, p: Player) -> bool {
    exists|s: int| 0 <= s < 64 && #[trigger] holds(b, s, PieceType::King, p)
}

/// `p`'s king is attacked: some piece of the opponent could legally move
/// onto its square, were it the opponent's turn.
pub open spec fn in_check(b: Seq<Piece>, p: Player) -> bool {
    exists|s: int| #[trigger] move_verdict(b, opponent(p), s, king_square(b, p)) is Ok
}

proof fn lemma_find_king(b: Seq<Piece>, p: Player, i: int, k: int)
    requires
        0 <= i <= k < 64,
        holds(b, k, PieceType::King, p),
        forall|s: int| i <= s < k ==> !#[trigger] holds(b, s, PieceType::King, p),
    ensures
        find_king(b, p, i) == k,
    decreases k - i,
{
    if i < k {
        lemma_find_king(b, p, i + 1, k);
    }
}

/// A copy of the squares, for evaluating a position without touching the
/// game's board.
pub struct Snapshot {
    spaces: [Piece; BOARD_LEN],
}

impl Snapshot {
    pub closed spec fn cells(&self) -> Seq<Piece> {
        self.spaces@
    }

    /// The squares of `board`.
    pub fn new(board: &Board) -> (r: Self)
        ensures
            r.cells() == board.cells(),
    {
        Snapshot { spaces: board.get_spaces() }
    }

    /// The squares given.
    pub fn from_spaces(spaces: [Piece; BOARD_LEN]) -> (r: Self)
        ensures
            r.cells() == spaces@,
    {
        Snapshot { spaces }
    }

    /// The squares of `board` as they would be after the piece on `m.from`
    /// moved to `m.to`.
    pub fn snap(board: &[Piece; BOARD_LEN], m: &Move) -> (r: Self)
        requires
            m.from < 64,
            m.to < 64,
        ensures
            r.cells() == moved(board@, m.from as int, m.to as int),
    {
        let mut spaces = *board;
        spaces[m.to] = spaces[m.from];
        spaces[m.from] = Piece::Empty;
        proof {
            assert(spaces@ =~= moved(board@, m.from as int, m.to as int));
        }
        Snapshot { spaces }
    }

    pub fn get_spaces(&self) -> (r: [Piece; BOARD_LEN])
        ensures
            r@ == self.cells(),
    {
        self.spaces
    }

    /// Whether `player` has a king on the board.
    pub fn has_king(&self, player: Player) -> (r: bool)
        ensures
            r == has_king(self.cells(), player),
    {
        let king = Piece::Piece(PlayerPiece { piece: PieceType::King, player });
        for i in 0..BOARD_LEN
            invariant
                self.spaces@.len() == 64,
                king == Piece::Piece(PlayerPiece { piece: PieceType::King, player }),
                forall|s: int| 0 <= s < i ==> !#[trigger] holds(self.spaces@, s, PieceType::King, player),
        {
            if self.spaces[i] == king {
                assert(holds(self.spaces@, i as int, PieceType::King, player));
                return true;
            }
        }
        false
    }
}

/// Whether `turn`'s king is attacked on `snap`: some opposing piece could
/// legally move onto the king's square, the opponent being to move.
pub fn is_in_check(snap: &Snapshot, turn: Player) -> (r: bool)
    requires
        has_king(snap.cells(), turn),
    ensures
        r == in_check(snap.cells(), turn),
{
    let ghost b = snap.cells();
    let keeper = Keeper::new(&snap.spaces);
    let own = match turn {
        Player::White => keeper.get_white_pieces(),
        Player::Black => keeper.get_black_pieces(),
    };
    proof {
        lemma_roster(b, turn, 64);
        lemma_roster(b, opponent(turn), 64);
        let k = choose|k: int| 0 <= k < 64 && #[trigger] holds(b, k, PieceType::King, turn);
        assert(b[k].owner() == Option::Some(turn));
    }
    let mut idx: usize = 0;
    while idx < own.len() && !matches!(own[idx].0, PieceType::King)
        invariant
            own@ == roster_of(b, turn, 64),
            idx <= own@.len(),
            forall|j: int| 0 <= j < idx ==> (#[trigger] own@[j]).0 != PieceType::King,
        decreases own@.len() - idx,
    {
        idx = idx + 1;
    }
    proof {
        if idx == own@.len() {
            let k = choose|k: int| 0 <= k < 64 && #[trigger] holds(b, k, PieceType::King, turn);
            assert(b[k].owner() == Option::Some(turn));
            let j = choose|j: int| 0 <= j < own@.len() && (#[trigger] own@[j]).1 == k;
            assert(own@[j].0 == PieceType::King);
        }
    }
    let king_position = own[idx].1;
    proof {
        assert forall|s: int| 0 <= s < king_position implies !#[trigger] holds(b, s, PieceType::King, turn) by {
            if holds(b, s, PieceType::King, turn) {
                assert(b[s].owner() == Option::Some(turn));
                let j = choose|j: int| 0 <= j < own@.len() && (#[trigger] own@[j]).1 == s;
                if j > idx {
                    assert(own@[idx as int].1 < own@[j].1);
                }
            }
        }
        lemma_find_king(b, turn, 0, king_position as int);
    }
    let (opposing, opponent_turn) = match turn {
        Player::White => (keeper.get_black_pieces(), Player::Black),
        Player::Black => (keeper.get_white_pieces(), Player::White),
    };
    for i in 0..opposing.len()
        invariant
            b == snap.cells(),
            opponent_turn == opponent(turn),
            king_position == king_square(b, turn),
            opposing@ == roster_of(b, opponent_turn, 64),
            forall|j: int|
                0 <= j < i ==> !(move_verdict(b, opponent_turn, (#[trigger] opposing@[j]).1 as int, king_position as int) is Ok),
    {
        let m = Move::new(opposing[i].1, king_position);
        if m.is_valid_move(&snap.spaces, opponent_turn).is_ok() {
            return true;
        }
    }
    proof {
        assert forall|s: int| !(#[trigger] move_verdict(b, opponent(turn), s, king_square(b, turn)) is Ok) by {
            if move_verdict(b, opponent(turn), s, king_square(b, turn)) is Ok {
                assert(b[s].owner() == Option::Some(opponent(turn)));
                let j = choose|j: int| 0 <= j < opposing@.len() && (#[trigger] opposing@[j]).1 == s;
            }
        }
    }
    false
}

/// Square `s` holds a pawn on its side's farthest rank, due for promotion.
pub open spec fn promotable(b: Seq<Piece>, s: int) -> bool {
    ||| (0 <= s < 8 && holds(b, s, PieceType::Pawn, Player::White))
    ||| (56 <= s < 64 && holds(b, s, PieceType::Pawn, Player::Black))
}

/// The promotable squares among the first `n`, increasing.
pub open spec fn promotable_upto(b: Seq<Piece>, n: int) -> Seq<usize>
    decreases n,
{
    if n <= 0 {
        seq![]
    } else if promotable(b, n - 1) {
        promotable_upto(b, n - 1).push((n - 1) as usize)
    } else {
        promotable_upto(b, n - 1)
    }
}

/// The squares holding a pawn that reached its farthest rank, increasing.
pub fn pawns_to_promote(snap: &Snapshot) -> (r: Vec<usize>)
    ensures
        r@ == promotable_upto(snap.cells(), 64),
{
    let white_pawn = Piece::Piece(PlayerPiece { piece: PieceType::Pawn, player: Player::White });
    let black_pawn = Piece::Piece(PlayerPiece { piece: PieceType::Pawn, player: Player::Black });
    let mut found: Vec<usize> = Vec::new();
    for i in 0..BOARD_LEN
        invariant
            snap.spaces@.len() == 64,
            white_pawn == Piece::Piece(PlayerPiece { piece: PieceType::Pawn, player: Player::White }),
            black_pawn == Piece::Piece(PlayerPiece { piece: PieceType::Pawn, player: Player::Black }),
            found@ == promotable_upto(snap.cells(), i as int),
    {
        if (i < 8 && snap.spaces[i] == white_pawn) || (i >= 56 && snap.spaces[i] == black_pawn) {
            found.push(i);
        }
    }
    found
}

} // verus!
