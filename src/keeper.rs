//! Rosters of each side's pieces, captured pieces, and castling rights, all
//! derived from the board.

use vstd::prelude::*;
use crate::ray::BOARD_LEN;
use crate::utils::{Castle, Piece, PieceType, Player, PlayerPiece};

verus! {

/// Which castling moves a side still has.
#[derive(Clone, Copy, PartialEq, Eq, Structural, Debug)]
pub enum CastleSide {
    Both,
    Short,
    Long,
}

/// A side's castling rights.
#[derive(Clone, Copy, PartialEq, Eq, Structural, Debug)]
pub enum CastleState {
    Unable,
    Able(CastleSide),
}

/// The rights `s` allow castling to `side`.
pub open spec fn allows(s: CastleState, side: Castle) -> bool {
    match s {
        CastleState::Unable => false,
        CastleState::Able(CastleSide::Both) => true,
        CastleState::Able(CastleSide::Short) => side == Castle::Short,
        CastleState::Able(CastleSide::Long) => side == Castle::Long,
    }
}

/// The rights that allow exactly the sides given.
pub open spec fn rights_of(short: bool, long: bool) -> CastleState {
    if short && long {
        CastleState::Able(CastleSide::Both)
    } else if short {
        CastleState::Able(CastleSide::Short)
    } else if long {
        CastleState::Able(CastleSide::Long)
    } else {
        CastleState::Unable
    }
}

/// The home square of `p`'s king.
pub open spec fn king_home(p: Player) -> int {
    match p {
        Player::White => 60,
        Player::Black => 4,
    }
}

/// The home square of `p`'s rook on `side`.
pub open spec fn rook_home(p: Player, side: Castle) -> int {
    match (p, side) {
        (Player::White, Castle::Short) => 63,
        (Player::White, Castle::Long) => 56,
        (Player::Black, Castle::Short) => 7,
        (Player::Black, Castle::Long) => 0,
    }
}

/// Square `s` holds a piece of type `t` owned by `p`.
pub open spec fn holds(b: Seq<Piece>, s: int, t: PieceType, p: Player) -> bool {
    b[s] == Piece::Piece(PlayerPiece { piece: t, player: p })
}

/// `p`'s king and its rook on `side` stand on their home squares.
pub open spec fn home_in_place(b: Seq<Piece>, p: Player, side: Castle) -> bool {
    holds(b, king_home(p), PieceType::King, p) && holds(b, rook_home(p, side), PieceType::Rook, p)
}

/// `p`'s rights after the board became `b`, the rights having been `prev`:
/// a side stays allowed only while it was allowed and its king and rook are
/// still home.
pub open spec fn next_rights(prev: CastleState, b: Seq<Piece>, p: Player) -> CastleState {
    rights_of(
        allows(prev, Castle::Short) && home_in_place(b, p, Castle::Short),
        allows(prev, Castle::Long) && home_in_place(b, p, Castle::Long),
    )
}

/// The pieces of `p` among the first `n` squares of `b`, by increasing square.
pub open spec fn roster_of(b: Seq<Piece>, p: Player, n: int) -> Seq<(PieceType, usize)>
    decreases n,
{
    if n <= 0 {
        seq![]
    } else {
        let r = roster_of(b, p, n - 1);
        match b[n - 1] {
            Piece::Piece(q) => if q.player == p {
                r.push((q.piece, (n - 1) as usize))
            } else {
                r
            },
            Piece::Empty => r,
        }
    }
}

/// The number of entries of type `t` in a roster.
pub open spec fn count_kind(r: Seq<(PieceType, usize)>, t: PieceType) -> nat
    decreases r.len(),
{
    if r.len() == 0 {
        0
    } else {
        count_kind(r.drop_last(), t) + if r.last().0 == t {
            1nat
        } else {
            0nat
        }
    }
}

/// How many pieces of type `t` a side starts with.
pub open spec fn start_count(t: PieceType) -> nat {
    match t {
        PieceType::Pawn => 8,
        PieceType::Rook | PieceType::Knight | PieceType::Bishop => 2,
        PieceType::Queen | PieceType::King => 1,
    }
}

/// How many pieces of type `t` of the starting set a roster lacks.
pub open spec fn missing(r: Seq<(PieceType, usize)>, t: PieceType) -> nat {
    if count_kind(r, t) < start_count(t) {
        (start_count(t) - count_kind(r, t)) as nat
    } else {
        0
    }
}

/// `n` copies of `t`.
pub open spec fn copies(t: PieceType, n: nat) -> Seq<PieceType> {
    Seq::new(n, |_i: int| t)
}

/// The captured pieces of a side whose pieces on the board are `r`: each
/// type of the starting set as often as it is missing, in the order pawns,
/// rooks, knights, bishops, queen, king.
pub open spec fn captured_of(r: Seq<(PieceType, usize)>) -> Seq<PieceType> {
    copies(PieceType::Pawn, missing(r, PieceType::Pawn)) + copies(
        PieceType::Rook,
        missing(r, PieceType::Rook),
    ) + copies(PieceType::Knight, missing(r, PieceType::Knight)) + copies(
        PieceType::Bishop,
        missing(r, PieceType::Bishop),
    ) + copies(PieceType::Queen, missing(r, PieceType::Queen)) + copies(
        PieceType::King,
        missing(r, PieceType::King),
    )
}

/// The piece types in the order the captured pieces are listed.
pub open spec fn kind_order(k: int) -> PieceType {
    if k == 0 {
        PieceType::Pawn
    } else if k == 1 {
        PieceType::Rook
    } else if k == 2 {
        PieceType::Knight
    } else if k == 3 {
        PieceType::Bishop
    } else if k == 4 {
        PieceType::Queen
    } else {
        PieceType::King
    }
}

/// The captured pieces of the first `k` types in that order.
pub open spec fn captured_prefix(r: Seq<(PieceType, usize)>, k: int) -> Seq<PieceType>
    decreases k,
{
    if k <= 0 {
        seq![]
    } else {
        captured_prefix(r, k - 1) + copies(kind_order(k - 1), missing(r, kind_order(k - 1)))
    }
}

/// Each side's pieces on the board with their squares, and each side's
/// castling rights; all of it derived from the board.
pub struct Keeper {
    white_pieces: Vec<(PieceType, usize)>,
    black_pieces: Vec<(PieceType, usize)>,
    white_castling: CastleState,
    black_castling: CastleState,
}

/// Lists the pieces of each side, by increasing square.
fn build_rosters(spaces: &[Piece; BOARD_LEN]) -> (r: (Vec<(PieceType, usize)>, Vec<(PieceType, usize)>))
    ensures
        r.0@ == roster_of(spaces@, Player::White, 64),
        r.1@ == roster_of(spaces@, Player::Black, 64),
{
    let mut white_pieces: Vec<(PieceType, usize)> = Vec::new();
    let mut black_pieces: Vec<(PieceType, usize)> = Vec::new();
    for i in 0..BOARD_LEN
        invariant
            white_pieces@ == roster_of(spaces@, Player::White, i as int),
            black_pieces@ == roster_of(spaces@, Player::Black, i as int),
    {
        if let Piece::Piece(p) = spaces[i] {
            match p.player {
                Player::White => {
                    white_pieces.push((p.piece, i));
                },
                Player::Black => {
                    black_pieces.push((p.piece, i));
                },
            }
        }
    }
    (white_pieces, black_pieces)
}

/// Whether rights `s` allow castling to `side`.
fn state_allows(s: CastleState, side: Castle) -> (r: bool)
    ensures
        r == allows(s, side),
{
    match s {
        CastleState::Unable => false,
        CastleState::Able(CastleSide::Both) => true,
        CastleState::Able(CastleSide::Short) => side == Castle::Short,
        CastleState::Able(CastleSide::Long) => side == Castle::Long,
    }
}

/// Whether `p`'s king and its rook on `side` are on their home squares.
fn castling_pieces_home(current: &[Piece; BOARD_LEN], p: Player, side: Castle) -> (r: bool)
    ensures
        r == home_in_place(current@, p, side),
{
    let (king, rook): (usize, usize) = match (p, side) {
        (Player::White, Castle::Short) => (60, 63),
        (Player::White, Castle::Long) => (60, 56),
        (Player::Black, Castle::Short) => (4, 7),
        (Player::Black, Castle::Long) => (4, 0),
    };
    current[king] == Piece::Piece(PlayerPiece { piece: PieceType::King, player: p })
        && current[rook] == Piece::Piece(PlayerPiece { piece: PieceType::Rook, player: p })
}

/// One side's rights after the board became `current`.
fn side_castling_state(previous: CastleState, current: &[Piece; BOARD_LEN], p: Player) -> (r: CastleState)
    ensures
        r == next_rights(previous, current@, p),
{
    let short = state_allows(previous, Castle::Short) && castling_pieces_home(current, p, Castle::Short);
    let long = state_allows(previous, Castle::Long) && castling_pieces_home(current, p, Castle::Long);
    if short && long {
        CastleState::Able(CastleSide::Both)
    } else if short {
        CastleState::Able(CastleSide::Short)
    } else if long {
        CastleState::Able(CastleSide::Long)
    } else {
        CastleState::Unable
    }
}

/// The rights of White and of Black after the board became `current`, given
/// their rights before.
fn determine_castling_state(previous_state: (CastleState, CastleState), current: &[Piece; BOARD_LEN]) -> (r: (CastleState, CastleState))
    ensures
        r.0 == next_rights(previous_state.0, current@, Player::White),
        r.1 == next_rights(previous_state.1, current@, Player::Black),
{
    if previous_state.0 == CastleState::Unable && previous_state.1 == CastleState::Unable {
        return previous_state;
    }
    (
        side_castling_state(previous_state.0, current, Player::White),
        side_castling_state(previous_state.1, current, Player::Black),
    )
}

/// A copy of a roster.
fn copy_roster(v: &Vec<(PieceType, usize)>) -> (r: Vec<(PieceType, usize)>)
    ensures
        r@ == v@,
{
    let mut r: Vec<(PieceType, usize)> = Vec::new();
    for i in 0..v.len()
        invariant
            r@ == v@.take(i as int),
    {
        r.push(v[i]);
        assert(r@ =~= v@.take(i + 1));
    }
    assert(r@ =~= v@);
    r
}

/// The `k`-th piece type in the order the captured pieces are listed.
fn kind_at(k: usize) -> (r: PieceType)
    ensures
        r == kind_order(k as int),
{
    match k {
        0 => PieceType::Pawn,
        1 => PieceType::Rook,
        2 => PieceType::Knight,
        3 => PieceType::Bishop,
        4 => PieceType::Queen,
        _ => PieceType::King,
    }
}

/// Appends `n` copies of `t`.
fn push_copies(out: &mut Vec<PieceType>, t: PieceType, n: usize)
    ensures
        final(out)@ == old(out)@ + copies(t, n as nat),
{
    for i in 0..n
        invariant
            out@ == old(out)@ + copies(t, i as nat),
    {
        out.push(t);
        assert(out@ =~= old(out)@ + copies(t, (i + 1) as nat));
    }
}

/// The captured pieces of a side whose pieces on the board are `pieces`.
fn captured(pieces: &Vec<(PieceType, usize)>) -> (r: Vec<PieceType>)
    ensures
        r@ == captured_of(pieces@),
{
    let mut counts: [usize; 6] = [0, 0, 0, 0, 0, 0];
    for i in 0..pieces.len()
        invariant
            forall|k: int| 0 <= k < 6 ==> counts@[k] == count_kind(pieces@.take(i as int), #[trigger] kind_order(k)),
            forall|k: int| 0 <= k < 6 ==> counts@[k] <= i,
    {
        let (t, _) = pieces[i];
        let k: usize = match t {
            PieceType::Pawn => 0,
            PieceType::Rook => 1,
            PieceType::Knight => 2,
            PieceType::Bishop => 3,
            PieceType::Queen => 4,
            PieceType::King => 5,
        };
        counts[k] = counts[k] + 1;
        proof {
            assert(kind_order(k as int) == t);
            let next = pieces@.take(i + 1);
            assert(next.drop_last() =~= pieces@.take(i as int));
            assert(next.last() == pieces@[i as int]);
        }
    }
    proof {
        assert(pieces@.take(pieces@.len() as int) =~= pieces@);
    }
    let starts: [usize; 6] = [8, 2, 2, 2, 1, 1];
    let mut out: Vec<PieceType> = Vec::new();
    for k in 0..6
        invariant
            forall|j: int| 0 <= j < 6 ==> counts@[j] == count_kind(pieces@, #[trigger] kind_order(j)),
            starts@ == seq![8usize, 2, 2, 2, 1, 1],
            out@ == captured_prefix(pieces@, k as int),
    {
        let missing_here = if counts[k] < starts[k] {
            starts[k] - counts[k]
        } else {
            0
        };
        push_copies(&mut out, kind_at(k), missing_here);
    }
    proof {
        reveal_with_fuel(captured_prefix, 7);
        assert(out@ =~= captured_of(pieces@));
    }
    out
}

impl Keeper {
    /// The pieces of `p` on the board, by increasing square.
    pub closed spec fn roster(&self, p: Player) -> Seq<(PieceType, usize)> {
        match p {
            Player::White => self.white_pieces@,
            Player::Black => self.black_pieces@,
        }
    }

    /// The castling rights of `p`.
    pub closed spec fn rights(&self, p: Player) -> CastleState {
        match p {
            Player::White => self.white_castling,
            Player::Black => self.black_castling,
        }
    }

    /// The keeper holds the rosters of board `b`, and rights that allow a
    /// side only while its king and rook are home on `b`.
    pub open spec fn tracks(&self, b: Seq<Piece>) -> bool {
        &&& forall|p: Player| #[trigger] self.roster(p) == roster_of(b, p, 64)
        &&& forall|p: Player, side: Castle|
            #[trigger] allows(self.rights(p), side) ==> home_in_place(b, p, side)
    }

    /// The keeper of a board at the start of a game: its rosters, and both
    /// castling sides for each player whose king and rook are home.
    pub fn new(spaces: &[Piece; BOARD_LEN]) -> (r: Self)
        ensures
            forall|p: Player| #[trigger] r.roster(p) == roster_of(spaces@, p, 64),
            forall|p: Player|
                #[trigger] r.rights(p) == next_rights(
                    CastleState::Able(CastleSide::Both),
                    spaces@,
                    p,
                ),
            r.tracks(spaces@),
    {
        let (white_pieces, black_pieces) = build_rosters(spaces);
        let both = CastleState::Able(CastleSide::Both);
        let (white_castling, black_castling) = determine_castling_state((both, both), spaces);
        Self { white_pieces, black_pieces, white_castling, black_castling }
    }

    /// Rebuilds the rosters from `spaces` and narrows the castling rights to
    /// the sides whose king and rook are still home.
    pub fn update(&mut self, spaces: &[Piece; BOARD_LEN])
        ensures
            forall|p: Player| #[trigger] final(self).roster(p) == roster_of(spaces@, p, 64),
            forall|p: Player|
                #[trigger] final(self).rights(p) == next_rights(old(self).rights(p), spaces@, p),
            final(self).tracks(spaces@),
    {
        let (white_pieces, black_pieces) = build_rosters(spaces);
        let (white_castling, black_castling) = determine_castling_state(
            (self.white_castling, self.black_castling),
            spaces,
        );
        self.white_pieces = white_pieces;
        self.black_pieces = black_pieces;
        self.white_castling = white_castling;
        self.black_castling = black_castling;
    }

    /// The pieces Black has captured: White's starting pieces that are not
    /// on the board.
    pub fn get_black_captured(&self) -> (r: Vec<PieceType>)
        ensures
            r@ == captured_of(self.roster(Player::White)),
    {
        captured(&self.white_pieces)
    }

    /// The pieces White has captured: Black's starting pieces that are not
    /// on the board.
    pub fn get_white_captured(&self) -> (r: Vec<PieceType>)
        ensures
            r@ == captured_of(self.roster(Player::Black)),
    {
        captured(&self.black_pieces)
    }

    pub fn get_black_pieces(&self) -> (r: Vec<(PieceType, usize)>)
        ensures
            r@ == self.roster(Player::Black),
    {
        copy_roster(&self.black_pieces)
    }

    pub fn get_white_pieces(&self) -> (r: Vec<(PieceType, usize)>)
        ensures
            r@ == self.roster(Player::White),
    {
        copy_roster(&self.white_pieces)
    }

    /// The castling rights of `player`.
    pub fn castling_state(&self, player: Player) -> (r: CastleState)
        ensures
            r == self.rights(player),
    {
        match player {
            Player::White => self.white_castling,
            Player::Black => self.black_castling,
        }
    }

    /// Whether `turn` may still castle to `options`: its king and that rook
    /// have stayed home so far.
    pub fn can_castle(&self, options: Castle, turn: Player) -> (r: bool)
        ensures
            r == allows(self.rights(turn), options),
    {
        match turn {
            Player::White => state_allows(self.white_castling, options),
            Player::Black => state_allows(self.black_castling, options),
        }
    }
}

/// A roster lists exactly the pieces of its side, each with its own square,
/// by strictly increasing square.
pub proof fn lemma_roster(b: Seq<Piece>, p: Player, n: int)
    requires
        0 <= n <= b.len(),
        n <= 64,
    ensures
        forall|j: int|
            0 <= j < roster_of(b, p, n).len() ==> {
                let (t, s) = #[trigger] roster_of(b, p, n)[j];
                &&& 0 <= s < n
                &&& b[s as int] == Piece::Piece(PlayerPiece { piece: t, player: p })
            },
        forall|i: int, j: int|
            0 <= i < j < roster_of(b, p, n).len() ==> (#[trigger] roster_of(b, p, n)[i]).1 < (
            #[trigger] roster_of(b, p, n)[j]).1,
        forall|s: int|
            0 <= s < n && #[trigger] b[s].owner() == Option::Some(p) ==> exists|j: int|
                0 <= j < roster_of(b, p, n).len() && (#[trigger] roster_of(b, p, n)[j]).1 == s,
    decreases n,
{
    if n > 0 {
        lemma_roster(b, p, n - 1);
        let r = roster_of(b, p, n - 1);
        assert(((n - 1) as usize) as int == n - 1);
        if b[n - 1].owner() == Option::Some(p) {
            assert(roster_of(b, p, n) == r.push((b[n - 1]->0.piece, (n - 1) as usize)));
        } else {
            assert(roster_of(b, p, n) == r);
        }
        assert forall|s: int|
            0 <= s < n && #[trigger] b[s].owner() == Option::Some(p) implies exists|j: int|
                0 <= j < roster_of(b, p, n).len() && (#[trigger] roster_of(b, p, n)[j]).1 == s by {
            if s < n - 1 {
                let j = choose|j: int| 0 <= j < r.len() && (#[trigger] r[j]).1 == s;
                assert(roster_of(b, p, n)[j] == r[j]);
            } else {
                assert(roster_of(b, p, n)[r.len() as int].1 == s);
            }
        }
    }
}

/// `p`'s rights after the boards of `boards` followed one another, starting
/// from rights `start`.
pub open spec fn rights_after(start: CastleState, boards: Seq<Seq<Piece>>, p: Player) -> CastleState
    decreases boards.len(),
{
    if boards.len() == 0 {
        start
    } else {
        next_rights(rights_after(start, boards.drop_last(), p), boards.last(), p)
    }
}

/// Castling rights never widen: a side that an update allows was allowed
/// before it.
pub proof fn lemma_rights_never_widen(prev: CastleState, b: Seq<Piece>, p: Player, side: Castle)
    ensures
        allows(next_rights(prev, b, p), side) ==> allows(prev, side),
{
}

/// Once a side is unable to castle, no board makes it able again.
pub proof fn lemma_unable_is_terminal(b: Seq<Piece>, p: Player)
    ensures
        next_rights(CastleState::Unable, b, p) == CastleState::Unable,
{
}

/// Over any sequence of boards, castling rights only narrow: a side allowed
/// at the end was allowed at the start.
pub proof fn lemma_rights_narrow_over_boards(start: CastleState, boards: Seq<Seq<Piece>>, p: Player, side: Castle)
    ensures
        allows(rights_after(start, boards, p), side) ==> allows(start, side),
    decreases boards.len(),
{
    if boards.len() > 0 {
        lemma_rights_narrow_over_boards(start, boards.drop_last(), p, side);
    }
}

/// Rebuilding the keeper from a board and then rebuilding it again from the
/// same board gives the same rosters and the same rights both times: `k1` is
/// what `update` makes of `k0` on `b`, and `k2` what it makes of `k1`.
pub proof fn lemma_update_idempotent(k0: Keeper, k1: Keeper, k2: Keeper, b: Seq<Piece>)
    requires
        forall|p: Player| #[trigger] k1.roster(p) == roster_of(b, p, 64),
        forall|p: Player| #[trigger] k1.rights(p) == next_rights(k0.rights(p), b, p),
        forall|p: Player| #[trigger] k2.roster(p) == roster_of(b, p, 64),
        forall|p: Player| #[trigger] k2.rights(p) == next_rights(k1.rights(p), b, p),
    ensures
        forall|p: Player| #[trigger] k2.roster(p) == k1.roster(p),
        forall|p: Player| #[trigger] k2.rights(p) == k1.rights(p),
{
}

} // verus!
