//! Attack geometry: which squares each piece attacks, given the occupancy,
//! and whether a side attacks a given square.
use vstd::prelude::*;

use crate::board::{bb_has, bb_test, Board, Colour, SidePieces};
use crate::square::{sq_file, sq_rank, valid_sq};

verus! {

/// A knight on `from` attacks `to`.
pub open spec fn knight_move(from: int, to: int) -> bool {
    let dr = sq_rank(to) - sq_rank(from);
    let dc = sq_file(to) - sq_file(from);
    &&& valid_sq(from)
    &&& valid_sq(to)
    &&& ((dr == 2 || dr == -2) && (dc == 1 || dc == -1) || (dr == 1 || dr == -1) && (dc == 2
        || dc == -2))
}

/// A king on `from` attacks `to`.
pub open spec fn king_move(from: int, to: int) -> bool {
    let dr = sq_rank(to) - sq_rank(from);
    let dc = sq_file(to) - sq_file(from);
    &&& valid_sq(from)
    &&& valid_sq(to)
    &&& -1 <= dr <= 1
    &&& -1 <= dc <= 1
    &&& (dr != 0 || dc != 0)
}

/// A pawn of the given colour on `from` attacks `to` (diagonally forward).
pub open spec fn pawn_attack(c: Colour, from: int, to: int) -> bool {
    let dr = sq_rank(to) - sq_rank(from);
    let dc = sq_file(to) - sq_file(from);
    &&& valid_sq(from)
    &&& valid_sq(to)
    &&& (dc == 1 || dc == -1)
    &&& dr == match c { Colour::White => 1, Colour::Black => -1 }
}

pub fn is_knight_move(from: i32, to: i32) -> (r: bool)
    requires
        valid_sq(from as int),
        valid_sq(to as int),
    ensures
        r == knight_move(from as int, to as int),
{
    let dr = to / 8 - from / 8;
    let dc = to % 8 - from % 8;
    (dr == 2 || dr == -2) && (dc == 1 || dc == -1) || (dr == 1 || dr == -1) && (dc == 2 || dc == -2)
}

pub fn is_king_move(from: i32, to: i32) -> (r: bool)
    requires
        valid_sq(from as int),
        valid_sq(to as int),
    ensures
        r == king_move(from as int, to as int),
{
    let dr = to / 8 - from / 8;
    let dc = to % 8 - from % 8;
    -1 <= dr && dr <= 1 && -1 <= dc && dc <= 1 && (dr != 0 || dc != 0)
}

pub fn is_pawn_attack(c: Colour, from: i32, to: i32) -> (r: bool)
    requires
        valid_sq(from as int),
        valid_sq(to as int),
    ensures
        r == pawn_attack(c, from as int, to as int),
{
    let dr = to / 8 - from / 8;
    let dc = to % 8 - from % 8;
    (dc == 1 || dc == -1) && dr == (if c == Colour::White { 1 } else { -1 })
}

/// The king zone used to weight attack pressure: the squares a king on
/// `king_sq` touches, plus one square further ahead of the king — ahead
/// meaning towards Black when the attacker is White, and the reverse.
pub open spec fn near_king(attacker: Colour, king_sq: int, sq: int) -> bool {
    ||| king_move(king_sq, sq)
    ||| (valid_sq(king_sq) && valid_sq(sq) && match attacker {
        Colour::White => sq == king_sq + 16,
        Colour::Black => sq == king_sq - 16,
    } && sq_file(sq) == sq_file(king_sq))
}

pub fn is_near_king(attacker: Colour, king_sq: i32, sq: i32) -> (r: bool)
    requires
        valid_sq(king_sq as int),
        valid_sq(sq as int),
    ensures
        r == near_king(attacker, king_sq as int, sq as int),
{
    if is_king_move(king_sq, sq) {
        true
    } else {
        let ahead = if attacker == Colour::White {
            king_sq + 16
        } else {
            king_sq - 16
        };
        sq == ahead
    }
}

/// Walking from `(r, c)` by unit steps `(dr, dc)`, the path reaches
/// `(tr, tc)` before running into an occupied square. The target square
/// itself may be occupied.
pub open spec fn path_reaches(
    occ: u64,
    r: int,
    c: int,
    tr: int,
    tc: int,
    dr: int,
    dc: int,
    fuel: nat,
) -> bool
    decreases fuel,
{
    if fuel == 0 {
        false
    } else {
        let nr = r + dr;
        let nc = c + dc;
        if !(0 <= nr < 8 && 0 <= nc < 8) {
            false
        } else if nr == tr && nc == tc {
            true
        } else if bb_has(occ, (nr * 8 + nc) as u64) {
            false
        } else {
            path_reaches(occ, nr, nc, tr, tc, dr, dc, (fuel - 1) as nat)
        }
    }
}

pub open spec fn spec_sign(x: int) -> int {
    if x > 0 {
        1
    } else if x < 0 {
        -1
    } else {
        0
    }
}

/// A bishop (or queen, diagonally) on `from` attacks `to` given the occupancy.
pub open spec fn diag_reach(occ: u64, from: int, to: int) -> bool {
    let rd = sq_rank(to) - sq_rank(from);
    let cd = sq_file(to) - sq_file(from);
    &&& valid_sq(from)
    &&& valid_sq(to)
    &&& rd != 0
    &&& (rd == cd || rd == -cd)
    &&& path_reaches(
        occ,
        sq_rank(from),
        sq_file(from),
        sq_rank(to),
        sq_file(to),
        spec_sign(rd),
        spec_sign(cd),
        8,
    )
}

/// A rook (or queen, along a rank or file) on `from` attacks `to`.
pub open spec fn line_reach(occ: u64, from: int, to: int) -> bool {
    let rd = sq_rank(to) - sq_rank(from);
    let cd = sq_file(to) - sq_file(from);
    &&& valid_sq(from)
    &&& valid_sq(to)
    &&& (rd == 0) != (cd == 0)
    &&& path_reaches(
        occ,
        sq_rank(from),
        sq_file(from),
        sq_rank(to),
        sq_file(to),
        spec_sign(rd),
        spec_sign(cd),
        8,
    )
}

/// Walks the path from `(r, c)` towards `(tr, tc)` by `(dr, dc)` steps.
fn walk_path(occ: u64, r: i32, c: i32, tr: i32, tc: i32, dr: i32, dc: i32) -> (res: bool)
    requires
        0 <= r < 8,
        0 <= c < 8,
        0 <= tr < 8,
        0 <= tc < 8,
        -1 <= dr <= 1,
        -1 <= dc <= 1,
        dr != 0 || dc != 0,
    ensures
        res == path_reaches(occ, r as int, c as int, tr as int, tc as int, dr as int, dc as int, 8),
{
    let mut cr = r;
    let mut cc = c;
    let mut fuel: u32 = 8;
    loop
        invariant
            0 <= cr < 8,
            0 <= cc < 8,
            0 <= tr < 8,
            0 <= tc < 8,
            -1 <= dr <= 1,
            -1 <= dc <= 1,
            fuel <= 8,
            path_reaches(occ, r as int, c as int, tr as int, tc as int, dr as int, dc as int, 8)
                == path_reaches(
                occ,
                cr as int,
                cc as int,
                tr as int,
                tc as int,
                dr as int,
                dc as int,
                fuel as nat,
            ),
        decreases fuel,
    {
        if fuel == 0 {
            return false;
        }
        let nr = cr + dr;
        let nc = cc + dc;
        if !(0 <= nr && nr < 8 && 0 <= nc && nc < 8) {
            return false;
        }
        if nr == tr && nc == tc {
            return true;
        }
        if bb_test(occ, (nr * 8 + nc) as u64) {
            return false;
        }
        cr = nr;
        cc = nc;
        fuel = fuel - 1;
    }
}

pub fn reaches_diag(occ: u64, from: i32, to: i32) -> (r: bool)
    requires
        valid_sq(from as int),
        valid_sq(to as int),
    ensures
        r == diag_reach(occ, from as int, to as int),
{
    let rd = to / 8 - from / 8;
    let cd = to % 8 - from % 8;
    if rd == 0 || !(rd == cd || rd == -cd) {
        return false;
    }
    let dr: i32 = if rd > 0 { 1 } else { -1 };
    let dc: i32 = if cd > 0 { 1 } else { -1 };
    walk_path(occ, from / 8, from % 8, to / 8, to % 8, dr, dc)
}

pub fn reaches_line(occ: u64, from: i32, to: i32) -> (r: bool)
    requires
        valid_sq(from as int),
        valid_sq(to as int),
    ensures
        r == line_reach(occ, from as int, to as int),
{
    let rd = to / 8 - from / 8;
    let cd = to % 8 - from % 8;
    if (rd == 0) == (cd == 0) {
        return false;
    }
    let dr: i32 = if rd > 0 {
        1
    } else if rd < 0 {
        -1
    } else {
        0
    };
    let dc: i32 = if cd > 0 {
        1
    } else if cd < 0 {
        -1
    } else {
        0
    };
    walk_path(occ, from / 8, from % 8, to / 8, to % 8, dr, dc)
}

/// A piece of side `by` standing on `p` attacks `sq` on this board.
pub open spec fn attacker_at(b: Board, by: Colour, p: int, sq: int) -> bool {
    let s = b.side(by);
    let occ = b.spec_occupancy();
    ||| (bb_has(s.knights, p as u64) && knight_move(p, sq))
    ||| (bb_has(s.king, p as u64) && king_move(p, sq))
    ||| (bb_has(s.pawns, p as u64) && pawn_attack(by, p, sq))
    ||| ((bb_has(s.bishops, p as u64) || bb_has(s.queens, p as u64)) && diag_reach(occ, p, sq))
    ||| ((bb_has(s.rooks, p as u64) || bb_has(s.queens, p as u64)) && line_reach(occ, p, sq))
}

/// Side `by` attacks the square on this board.
pub open spec fn attacks_square(b: Board, by: Colour, sq: int) -> bool {
    exists|p: int| 0 <= p < 64 && attacker_at(b, by, p, sq)
}

fn attacker_at_exec(b: &Board, by: Colour, p: i32, sq: i32, s: &SidePieces, occ: u64) -> (r: bool)
    requires
        valid_sq(p as int),
        valid_sq(sq as int),
        *s == b.side(by),
        occ == b.spec_occupancy(),
    ensures
        r == attacker_at(*b, by, p as int, sq as int),
{
    if bb_test(s.knights, p as u64) && is_knight_move(p, sq) {
        return true;
    }
    if bb_test(s.king, p as u64) && is_king_move(p, sq) {
        return true;
    }
    if bb_test(s.pawns, p as u64) && is_pawn_attack(by, p, sq) {
        return true;
    }
    if (bb_test(s.bishops, p as u64) || bb_test(s.queens, p as u64)) && reaches_diag(occ, p, sq) {
        return true;
    }
    if (bb_test(s.rooks, p as u64) || bb_test(s.queens, p as u64)) && reaches_line(occ, p, sq) {
        return true;
    }
    false
}

/// Whether side `by` attacks square `sq`.
pub fn square_attacked(b: &Board, by: Colour, sq: i32) -> (r: bool)
    requires
        valid_sq(sq as int),
    ensures
        r == attacks_square(*b, by, sq as int),
{
    let s = b.get_side(by);
    let occ = b.occupancy();
    let mut p: i32 = 0;
    while p < 64
        invariant
            0 <= p <= 64,
            valid_sq(sq as int),
            s == b.side(by),
            occ == b.spec_occupancy(),
            forall|q: int| 0 <= q < p ==> !attacker_at(*b, by, q, sq as int),
        decreases 64 - p,
    {
        if attacker_at_exec(b, by, p, sq, &s, occ) {
            return true;
        }
        p += 1;
    }
    false
}

} // verus!
