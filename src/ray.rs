//! Squares, the eight compass directions, and walking rays across the board.

use vstd::prelude::*;
use crate::utils::Piece;

verus! {

/// Squares in one rank (row) of the board.
pub const ROW_LEN: usize = 8;

/// Squares on the board; a square is an index `0..BOARD_LEN`, row-major, with
/// Black's back rank at `0..8` and White's at `56..64`.
pub const BOARD_LEN: usize = 64;

pub open spec fn valid_square(s: int) -> bool {
    0 <= s < 64
}

/// The rank of a square, 0 being Black's back rank.
#[verifier::opaque]
pub open spec fn row(s: int) -> int {
    s / 8
}

/// The file of a square, 0 being the a-file.
#[verifier::opaque]
pub open spec fn col(s: int) -> int {
    s % 8
}

/// The eight compass directions; North points toward Black's back rank.
#[derive(Clone, Copy, PartialEq, Eq, Structural, Debug)]
pub enum Direction {
    North,
    Northeast,
    East,
    Southeast,
    South,
    Southwest,
    West,
    Northwest,
}

/// `to` is reached from `from` by one or more steps in direction `d` without
/// leaving the board.
pub open spec fn on_ray(from: int, d: Direction, to: int) -> bool {
    let dr = row(to) - row(from);
    let dc = col(to) - col(from);
    &&& valid_square(from)
    &&& valid_square(to)
    &&& match d {
        Direction::North => dc == 0 && dr < 0,
        Direction::Northeast => dc > 0 && dr == -dc,
        Direction::East => dr == 0 && dc > 0,
        Direction::Southeast => dc > 0 && dr == dc,
        Direction::South => dc == 0 && dr > 0,
        Direction::Southwest => dc < 0 && dr == -dc,
        Direction::West => dr == 0 && dc < 0,
        Direction::Northwest => dc < 0 && dr == dc,
    }
}

/// Every square strictly between `from` and `to` along `d` is empty.
pub open spec fn clear_between(b: Seq<Piece>, from: int, d: Direction, to: int) -> bool {
    forall|t: int| on_ray(from, d, t) && #[trigger] on_ray(t, d, to) ==> !b[t].is_occupied()
}

/// `s` is the first occupied square met when walking from `from` along `d`.
pub open spec fn is_first_blocker(b: Seq<Piece>, from: int, d: Direction, s: int) -> bool {
    &&& on_ray(from, d, s)
    &&& b[s].is_occupied()
    &&& clear_between(b, from, d, s)
}

/// The change of rank and of file made by one step along `d`.
pub open spec fn step_of(d: Direction) -> (int, int) {
    match d {
        Direction::North => (-1, 0),
        Direction::Northeast => (-1, 1),
        Direction::East => (0, 1),
        Direction::Southeast => (1, 1),
        Direction::South => (1, 0),
        Direction::Southwest => (1, -1),
        Direction::West => (0, -1),
        Direction::Northwest => (-1, -1),
    }
}

/// How many more steps can be taken from `s` along `d`, at most.
pub open spec fn steps_left(s: int, d: Direction) -> int {
    match d {
        Direction::North | Direction::Northeast | Direction::Northwest => row(s),
        Direction::South | Direction::Southeast | Direction::Southwest => 7 - row(s),
        Direction::East => 7 - col(s),
        Direction::West => col(s),
    }
}

pub proof fn lemma_square(s: int)
    requires
        valid_square(s),
    ensures
        s == 8 * row(s) + col(s),
        0 <= row(s) < 8,
        0 <= col(s) < 8,
{
    reveal(row);
    reveal(col);
}

/// The square `dr` ranks and `dc` files away from `s`.
proof fn lemma_shift(s: int, dr: int, dc: int)
    requires
        valid_square(s),
        0 <= row(s) + dr < 8,
        0 <= col(s) + dc < 8,
    ensures
        valid_square(s + 8 * dr + dc),
        row(s + 8 * dr + dc) == row(s) + dr,
        col(s + 8 * dr + dc) == col(s) + dc,
{
    reveal(row);
    reveal(col);
    let n = s + 8 * dr + dc;
    assert(n == 8 * (row(s) + dr) + (col(s) + dc));
    assert(n / 8 == row(s) + dr && n % 8 == col(s) + dc) by (nonlinear_arith)
        requires
            n == 8 * (row(s) + dr) + (col(s) + dc),
            0 <= col(s) + dc < 8,
    ;
}

/// Squares are determined by their rank and file.
proof fn lemma_square_eq(s: int, t: int)
    requires
        valid_square(s),
        valid_square(t),
        row(s) == row(t),
        col(s) == col(t),
    ensures
        s == t,
{
    lemma_square(s);
    lemma_square(t);
}

/// The square one step from `focus` along `d`, or `None` at the board's edge.
fn next_square(focus: usize, d: Direction) -> (r: Option<usize>)
    requires
        focus < BOARD_LEN,
    ensures
        match r {
            Option::Some(n) => {
                &&& on_ray(focus as int, d, n as int)
                &&& 0 <= steps_left(n as int, d) < steps_left(focus as int, d)
                &&& forall|t: int|
                    #[trigger] on_ray(focus as int, d, t) ==> t == n || on_ray(n as int, d, t)
            },
            Option::None => forall|t: int| !#[trigger] on_ray(focus as int, d, t),
        },
{
    let c = focus % ROW_LEN;
    let top = focus < ROW_LEN;
    let bottom = focus >= BOARD_LEN - ROW_LEN;
    let r = match d {
        Direction::North => if !top { Some(focus - ROW_LEN) } else { None },
        Direction::Northeast => if !top && c < ROW_LEN - 1 { Some(focus - ROW_LEN + 1) } else { None },
        Direction::East => if c < ROW_LEN - 1 { Some(focus + 1) } else { None },
        Direction::Southeast => if !bottom && c < ROW_LEN - 1 { Some(focus + ROW_LEN + 1) } else { None },
        Direction::South => if !bottom { Some(focus + ROW_LEN) } else { None },
        Direction::Southwest => if !bottom && c > 0 { Some(focus + ROW_LEN - 1) } else { None },
        Direction::West => if c > 0 { Some(focus - 1) } else { None },
        Direction::Northwest => if !top && c > 0 { Some(focus - ROW_LEN - 1) } else { None },
    };
    proof {
        lemma_square(focus as int);
        reveal(col);
        assert(c == col(focus as int));
        match r {
            Option::Some(n) => {
                let (dr, dc) = step_of(d);
                lemma_shift(focus as int, dr, dc);
                assert(n == focus + 8 * dr + dc);
                assert forall|t: int| #[trigger] on_ray(focus as int, d, t) implies t == n || on_ray(n as int, d, t) by {
                    lemma_square(t);
                    if row(t) == row(n as int) && col(t) == col(n as int) {
                        lemma_square_eq(t, n as int);
                    }
                }
            },
            Option::None => {
                assert forall|t: int| !#[trigger] on_ray(focus as int, d, t) by {
                    if valid_square(t) {
                        lemma_square(t);
                    }
                }
            },
        }
    }
    r
}

/// Whether `needle` lies on the ray from `from` along `direction`, looking at
/// the geometry alone.
pub fn index_in_raycast(from: usize, direction: Direction, needle: usize) -> (r: bool)
    ensures
        r == on_ray(from as int, direction, needle as int),
{
    if from >= BOARD_LEN {
        return false;
    }
    let mut focus = from;
    loop
        invariant
            focus < BOARD_LEN,
            focus == from || on_ray(from as int, direction, focus as int),
            forall|t: int|
                on_ray(from as int, direction, t) && !on_ray(focus as int, direction, t) ==> t
                    != needle,
        decreases steps_left(focus as int, direction),
    {
        match next_square(focus, direction) {
            None => {
                assert(!on_ray(focus as int, direction, needle as int));
                return false;
            },
            Some(n) => {
                if n == needle {
                    return true;
                }
                focus = n;
            },
        }
    }
}

/// The first occupied square met walking from `from` along `direction`, or
/// `None` when the ray reaches the edge of the board unobstructed.
pub fn raycast(board: &[Piece; BOARD_LEN], from: usize, direction: Direction) -> (r: Option<usize>)
    ensures
        match r {
            Option::Some(s) => is_first_blocker(board@, from as int, direction, s as int),
            Option::None => forall|t: int|
                #[trigger] on_ray(from as int, direction, t) ==> !board@[t].is_occupied(),
        },
{
    if from >= BOARD_LEN {
        return None;
    }
    let mut focus = from;
    loop
        invariant
            focus < BOARD_LEN,
            focus == from || on_ray(from as int, direction, focus as int),
            forall|t: int|
                on_ray(from as int, direction, t) && !on_ray(focus as int, direction, t)
                    ==> !board@[t].is_occupied(),
        decreases steps_left(focus as int, direction),
    {
        match next_square(focus, direction) {
            None => {
                return None;
            },
            Some(n) => {
                if let Piece::Piece(_) = board[n] {
                    return Some(n);
                }
                focus = n;
            },
        }
    }
}

/// Two squares on one ray from `from` are in order along it.
pub proof fn lemma_ray_order(from: int, d: Direction, s: int, t: int)
    requires
        on_ray(from, d, s),
        on_ray(from, d, t),
    ensures
        s == t || on_ray(s, d, t) || on_ray(t, d, s),
{
    lemma_square(s);
    lemma_square(t);
    if row(s) == row(t) && col(s) == col(t) {
        lemma_square_eq(s, t);
    }
}

/// A square lies on at most one ray from a given origin.
pub proof fn lemma_ray_unique(from: int, d1: Direction, d2: Direction, to: int)
    requires
        on_ray(from, d1, to),
        on_ray(from, d2, to),
    ensures
        d1 == d2,
{
}

/// The verdict for a slide from `from` to `to` along `d`: `None` when `to` is
/// not on that ray, else whether every square strictly between is empty.
pub fn slide_along(board: &[Piece; BOARD_LEN], from: usize, d: Direction, to: usize) -> (r: Option<bool>)
    ensures
        r == if on_ray(from as int, d, to as int) {
            Option::Some(clear_between(board@, from as int, d, to as int))
        } else {
            Option::None
        },
{
    if !index_in_raycast(from, d, to) {
        return None;
    }
    match raycast(board, from, d) {
        None => Some(true),
        Some(s) => {
            let blocked = index_in_raycast(s, d, to);
            proof {
                if !blocked {
                    lemma_ray_order(from as int, d, s as int, to as int);
                    assert forall|t: int| on_ray(from as int, d, t) && #[trigger] on_ray(t, d, to as int)
                        implies !board@[t].is_occupied() by {
                        lemma_ray_order(from as int, d, s as int, t);
                        if s as int == to as int {
                        } else {
                            lemma_ray_order(t, d, s as int, to as int);
                        }
                    }
                }
            }
            Some(!blocked)
        },
    }
}

/// The rank and file of a square.
pub fn rank_and_file(s: usize) -> (r: (usize, usize))
    requires
        s < BOARD_LEN,
    ensures
        r.0 == row(s as int),
        r.1 == col(s as int),
        r.0 < 8 && r.1 < 8,
{
    proof {
        lemma_square(s as int);
        reveal(row);
        reveal(col);
    }
    (s / ROW_LEN, s % ROW_LEN)
}

} // verus!
