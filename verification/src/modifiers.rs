//! The evaluator's parameters: piece values, piece-square tables, and the
//! bonus and penalty constants. Tables are written from White's side of the
//! board, first entry a8, and are mirrored by rank for the side they score.
use vstd::prelude::*;

use crate::board::Colour;
use crate::square::{sq_rank, valid_sq};

verus! {

pub const KNIGHT_ATTACK: i64 = 40;
pub const BISHIP_ATTACK: i64 = 45;
pub const ROOK_ATTACK: i64 = 50;
pub const QUEEN_ATTACK: i64 = 60;
pub const ACTIVE_ATTACK_MOD: i64 = 3;
pub const PASSIVE_ATTACK_MOD: i64 = 1;

pub const PAWN_VAL: i64 = 100;
pub const KNIGHT_VAL: i64 = 325;
pub const BISHOP_VAL: i64 = 335;
pub const ROOK_VAL: i64 = 500;
pub const QUEEN_VAL: i64 = 975;
pub const KING_VAL: i64 = 0;

pub const BISHOP_PAIR: i64 = 30;
pub const P_KNIGHT_PAIR: i64 = 8;
pub const P_ROOK_PAIR: i64 = 16;

pub const P_KING_BLOCKS_ROOK: i64 = 24;
pub const P_BISHOP_TRAPPED_A7: i64 = 150;
pub const P_BISHOP_TRAPPED_A6: i64 = 50;
pub const P_KNIGHT_TRAPPED_A8: i64 = 150;
pub const P_KNIGHT_TRAPPED_A7: i64 = 100;

pub const P_C3_KNIGHT: i64 = 5;
pub const P_DOUBLED_PAWN: i64 = 20;
pub const P_OPPONENT_FLAG: i64 = 4;
pub const P_QUEEN_DEVELOPED_EARLY: i64 = 2;

pub const SHIELD_1: i64 = 10;
pub const SHIELD_2: i64 = 5;

pub const ROOK_OPEN: i64 = 10;
pub const ROOK_HALF: i64 = 5;
pub const RETURNING_BISHOP: i64 = 20;
pub const TEMPO: i64 = 10;

/// Material adjustment for the number of own knights.
pub open spec fn spec_knight_adj() -> Seq<int> {
    seq![-20int, -16, -12, -8, -4, 0, 4, 8, 12]
}

/// Material adjustment for a rook by the number of own pawns.
pub open spec fn spec_rook_adj() -> Seq<int> {
    seq![15int, 12, 9, 6, 3, 0, -3, -6, -9]
}

/// King-safety bonus by accumulated attack weight; saturates.
pub open spec fn spec_safety_table() -> Seq<int> {
    seq![0int, 0, 1, 2, 3, 5, 7, 9, 12, 15, 18, 22, 26, 30, 35, 39, 44, 50, 56, 62, 68, 75, 82, 85,
        89, 97, 105, 113, 122, 131, 140, 150, 169, 180, 191, 202, 213, 225, 237, 248, 260, 272,
        283, 295, 307, 319, 330, 342, 354, 366, 377, 389, 401, 412, 424, 436, 448, 459, 471, 483,
        494, 500, 500, 500, 500, 500, 500, 500, 500, 500, 500, 500, 500, 500, 500, 500, 500, 500,
        500, 500, 500, 500, 500, 500, 500, 500, 500, 500, 500, 500, 500, 500, 500, 500, 500, 500,
        500, 500, 500, 500,
    ]
}

pub open spec fn spec_pawn_pcsq() -> Seq<int> {
    seq![0int, 0, 0, 0, 0, 0, 0, 0, -6, -4, 1, 1, 1, 1, -4, -6, -6, -4, 1, 2, 2, 1, -4, -6, -6, -4, 2,
        8, 8, 2, -4, -6, -6, -4, 5, 10, 10, 5, -4, -6, -4, -4, 1, 5, 5, 1, -4, -4, -6, -4, 1, -24,
        -24, 1, -4, -6, 0, 0, 0, 0, 0, 0, 0, 0,
    ]
}

pub open spec fn spec_knight_pcsq() -> Seq<int> {
    seq![-8int, -8, -8, -8, -8, -8, -8, -8, -8, 0, 0, 0, 0, 0, 0, -8, -8, 0, 4, 4, 4, 4, 0, -8, -8, 0,
        4, 8, 8, 4, 0, -8, -8, 0, 4, 8, 8, 4, 0, -8, -8, 0, 4, 4, 4, 4, 0, -8, -8, 0, 1, 2, 2, 1,
        0, -8, -8, -12, -8, -8, -8, -8, -12, -8,
    ]
}

pub open spec fn spec_bishop_pcsq() -> Seq<int> {
    seq![-4int, -4, -4, -4, -4, -4, -4, -4, -4, 0, 0, 0, 0, 0, 0, -4, -4, 0, 2, 4, 4, 2, 0, -4, -4, 0,
        4, 6, 6, 4, 0, -4, -4, 0, 4, 6, 6, 4, 0, -4, -4, 1, 2, 4, 4, 2, 1, -4, -4, 2, 1, 1, 1, 1,
        2, -4, -4, -4, -12, -4, -4, -12, -4, -4,
    ]
}

pub open spec fn spec_rook_pcsq() -> Seq<int> {
    seq![5int, 5, 5, 5, 5, 5, 5, 5, 20, 20, 20, 20, 20, 20, 20, 20, -5, 0, 0, 0, 0, 0, 0, -5, -5, 0,
        0, 0, 0, 0, 0, -5, -5, 0, 0, 0, 0, 0, 0, -5, -5, 0, 0, 0, 0, 0, 0, -5, -5, 0, 0, 0, 0, 0,
        0, -5, 0, 0, 0, 2, 2, 0, 0, 0,
    ]
}

pub open spec fn spec_queen_pcsq() -> Seq<int> {
    seq![0int, 0, 0, 0, 0, 0, 0, 0, 0, 0, 1, 1, 1, 1, 0, 0, 0, 0, 1, 2, 2, 1, 0, 0, 0, 0, 2, 3, 3, 2,
        0, 0, 0, 0, 2, 3, 3, 2, 0, 0, 0, 0, 1, 2, 2, 1, 0, 0, 0, 0, 1, 1, 1, 1, 0, 0, -5, -5, -5,
        -5, -5, -5, -5, -5,
    ]
}

pub open spec fn spec_king_pcsq_mg() -> Seq<int> {
    seq![-40int, -30, -50, -70, -70, -50, -30, -40, -30, -20, -40, -60, -60, -40, -20, -30, -20, -10,
        -30, -50, -50, -30, -10, -20, -10, 0, -20, -40, -40, -20, 0, -10, 0, 10, -10, -30, -30,
        -10, 10, 0, 10, 20, 0, -20, -20, 0, 20, 10, 30, 40, 20, 0, 0, 20, 40, 30, 40, 50, 30, 10,
        10, 30, 50, 40,
    ]
}

pub open spec fn spec_king_pcsq_eg() -> Seq<int> {
    seq![-72int, -48, -36, -24, -24, -36, -48, -72, -48, -24, -12, 0, 0, -12, -24, -48, -36, -12, 0,
        12, 12, 0, -12, -36, -24, 0, 12, 24, 24, 12, 0, -24, -24, 0, 12, 24, 24, 12, 0, -24, -36,
        -12, 0, 12, 12, 0, -12, -36, -48, -24, -12, 0, 0, -12, -24, -48, -72, -48, -36, -24, -24,
        -36, -48, -72,
    ]
}

pub open spec fn spec_weak_pawn_pcsq() -> Seq<int> {
    seq![0int, 0, 0, 0, 0, 0, 0, 0, -10, -12, -14, -16, -16, -14, -12, -10, -10, -12, -14, -16, -16,
        -14, -12, -10, -10, -12, -14, -16, -16, -14, -12, -10, -10, -12, -14, -16, -16, -14, -12,
        -10, -8, -12, -14, -16, -16, -14, -12, -10, -8, -12, -14, -16, -16, -14, -12, -10, 0, 0,
        0, 0, 0, 0, 0, 0,
    ]
}

pub open spec fn spec_passed_pawn_pcsq() -> Seq<int> {
    seq![0int, 0, 0, 0, 0, 0, 0, 0, 100, 100, 100, 100, 100, 100, 100, 100, 80, 80, 80, 80, 80, 80,
        80, 80, 60, 60, 60, 60, 60, 60, 60, 60, 40, 40, 40, 40, 40, 40, 40, 40, 20, 20, 20, 20,
        20, 20, 20, 20, 20, 20, 20, 20, 20, 20, 20, 20, 0, 0, 0, 0, 0, 0, 0, 0,
    ]
}

/// A table row index for the side: tables are written from White's side,
/// so White's squares flip by rank and Black's read directly.
pub open spec fn pst_index(side: Colour, sq: int) -> int {
    match side {
        Colour::White => (7 - sq_rank(sq)) * 8 + sq % 8,
        Colour::Black => sq,
    }
}

fn pst_index_exec(side: Colour, sq: i32) -> (r: usize)
    requires
        valid_sq(sq as int),
    ensures
        r == pst_index(side, sq as int),
        r < 64,
{
    match side {
        Colour::White => ((7 - sq / 8) * 8 + sq % 8) as usize,
        Colour::Black => sq as usize,
    }
}

pub open spec fn knight_adj(n: int) -> int {
    spec_knight_adj()[if n > 8 {
        8int
    } else {
        n
    }]
}

/// Material adjustment for the number of own knights; more than eight
/// knights are scored as eight.
pub fn knight_adj_at(n: usize) -> (r: i64)
    ensures
        r as int == knight_adj(n as int),
{
    let t: [i64; 9] = [-20, -16, -12, -8, -4, 0, 4, 8, 12];
    let i = if n > 8 {
        8
    } else {
        n
    };
    t[i]
}

pub open spec fn rook_adj(n: int) -> int {
    spec_rook_adj()[if n > 8 {
        8int
    } else {
        n
    }]
}

/// Material adjustment for a rook by the number of own pawns; more than
/// eight pawns are scored as eight.
pub fn rook_adj_at(n: usize) -> (r: i64)
    ensures
        r as int == rook_adj(n as int),
{
    let t: [i64; 9] = [15, 12, 9, 6, 3, 0, -3, -6, -9];
    let i = if n > 8 {
        8
    } else {
        n
    };
    t[i]
}

pub open spec fn safety_at(w: int) -> int {
    spec_safety_table()[if w > 99 {
        99int
    } else if w < 0 {
        0int
    } else {
        w
    }]
}

/// King-safety bonus for an accumulated attack weight; the table saturates
/// at index 99.
pub fn safety_table_at(w: i64) -> (r: i64)
    ensures
        r as int == safety_at(w as int),
{
    let t: [i64; 100] = [
        0, 0, 1, 2, 3, 5, 7, 9, 12, 15, 18, 22, 26, 30, 35, 39, 44, 50, 56, 62, 68, 75, 82, 85,
        89, 97, 105, 113, 122, 131, 140, 150, 169, 180, 191, 202, 213, 225, 237, 248, 260, 272,
        283, 295, 307, 319, 330, 342, 354, 366, 377, 389, 401, 412, 424, 436, 448, 459, 471, 483,
        494, 500, 500, 500, 500, 500, 500, 500, 500, 500, 500, 500, 500, 500, 500, 500, 500, 500,
        500, 500, 500, 500, 500, 500, 500, 500, 500, 500, 500, 500, 500, 500, 500, 500, 500, 500,
        500, 500, 500, 500,
    ];
    let i: usize = if w > 99 {
        99
    } else if w < 0 {
        0
    } else {
        w as usize
    };
    t[i]
}

pub open spec fn mg_pst(side: Colour, piece_sel: int, sq: int) -> int {
    let i = pst_index(side, sq);
    if piece_sel == 0 {
        spec_pawn_pcsq()[i]
    } else if piece_sel == 1 {
        spec_knight_pcsq()[i]
    } else if piece_sel == 2 {
        spec_bishop_pcsq()[i]
    } else if piece_sel == 3 {
        spec_rook_pcsq()[i]
    } else if piece_sel == 4 {
        spec_queen_pcsq()[i]
    } else {
        spec_king_pcsq_mg()[i]
    }
}

pub open spec fn eg_pst(side: Colour, piece_sel: int, sq: int) -> int {
    let i = pst_index(side, sq);
    if piece_sel == 0 {
        spec_pawn_pcsq()[i]
    } else if piece_sel == 1 {
        spec_knight_pcsq()[i]
    } else if piece_sel == 2 {
        spec_bishop_pcsq()[i]
    } else if piece_sel == 3 {
        spec_rook_pcsq()[i]
    } else if piece_sel == 4 {
        spec_queen_pcsq()[i]
    } else {
        spec_king_pcsq_eg()[i]
    }
}

/// Middlegame positional bonus for a piece on a square; the selector
/// orders piece types pawn, knight, bishop, rook, queen, king.
pub fn mg_pst_at(side: Colour, piece_sel: u8, sq: i32) -> (r: i64)
    requires
        valid_sq(sq as int),
        piece_sel <= 5,
    ensures
        r as int == mg_pst(side, piece_sel as int, sq as int),
        -100 <= r <= 100,
{
    let i = pst_index_exec(side, sq);
    if piece_sel == 0 {
        let t: [i64; 64] = [
            0, 0, 0, 0, 0, 0, 0, 0, -6, -4, 1, 1, 1, 1, -4, -6, -6, -4, 1, 2, 2, 1, -4, -6, -6,
            -4, 2, 8, 8, 2, -4, -6, -6, -4, 5, 10, 10, 5, -4, -6, -4, -4, 1, 5, 5, 1, -4, -4, -6,
            -4, 1, -24, -24, 1, -4, -6, 0, 0, 0, 0, 0, 0, 0, 0,
        ];
        t[i]
    } else if piece_sel == 1 {
        let t: [i64; 64] = [
            -8, -8, -8, -8, -8, -8, -8, -8, -8, 0, 0, 0, 0, 0, 0, -8, -8, 0, 4, 4, 4, 4, 0, -8,
            -8, 0, 4, 8, 8, 4, 0, -8, -8, 0, 4, 8, 8, 4, 0, -8, -8, 0, 4, 4, 4, 4, 0, -8, -8, 0,
            1, 2, 2, 1, 0, -8, -8, -12, -8, -8, -8, -8, -12, -8,
        ];
        t[i]
    } else if piece_sel == 2 {
        let t: [i64; 64] = [
            -4, -4, -4, -4, -4, -4, -4, -4, -4, 0, 0, 0, 0, 0, 0, -4, -4, 0, 2, 4, 4, 2, 0, -4,
            -4, 0, 4, 6, 6, 4, 0, -4, -4, 0, 4, 6, 6, 4, 0, -4, -4, 1, 2, 4, 4, 2, 1, -4, -4, 2,
            1, 1, 1, 1, 2, -4, -4, -4, -12, -4, -4, -12, -4, -4,
        ];
        t[i]
    } else if piece_sel == 3 {
        let t: [i64; 64] = [
            5, 5, 5, 5, 5, 5, 5, 5, 20, 20, 20, 20, 20, 20, 20, 20, -5, 0, 0, 0, 0, 0, 0, -5, -5,
            0, 0, 0, 0, 0, 0, -5, -5, 0, 0, 0, 0, 0, 0, -5, -5, 0, 0, 0, 0, 0, 0, -5, -5, 0, 0, 0,
            0, 0, 0, -5, 0, 0, 0, 2, 2, 0, 0, 0,
        ];
        t[i]
    } else if piece_sel == 4 {
        let t: [i64; 64] = [
            0, 0, 0, 0, 0, 0, 0, 0, 0, 0, 1, 1, 1, 1, 0, 0, 0, 0, 1, 2, 2, 1, 0, 0, 0, 0, 2, 3, 3,
            2, 0, 0, 0, 0, 2, 3, 3, 2, 0, 0, 0, 0, 1, 2, 2, 1, 0, 0, 0, 0, 1, 1, 1, 1, 0, 0, -5,
            -5, -5, -5, -5, -5, -5, -5,
        ];
        t[i]
    } else {
        let t: [i64; 64] = [
            -40, -30, -50, -70, -70, -50, -30, -40, -30, -20, -40, -60, -60, -40, -20, -30, -20,
            -10, -30, -50, -50, -30, -10, -20, -10, 0, -20, -40, -40, -20, 0, -10, 0, 10, -10,
            -30, -30, -10, 10, 0, 10, 20, 0, -20, -20, 0, 20, 10, 30, 40, 20, 0, 0, 20, 40, 30,
            40, 50, 30, 10, 10, 30, 50, 40,
        ];
        t[i]
    }
}

/// Endgame positional bonus for a piece on a square; only the king's table
/// differs from the middlegame.
pub fn eg_pst_at(side: Colour, piece_sel: u8, sq: i32) -> (r: i64)
    requires
        valid_sq(sq as int),
        piece_sel <= 5,
    ensures
        r as int == eg_pst(side, piece_sel as int, sq as int),
        -100 <= r <= 100,
{
    if piece_sel == 5 {
        let i = pst_index_exec(side, sq);
        let t: [i64; 64] = [
            -72, -48, -36, -24, -24, -36, -48, -72, -48, -24, -12, 0, 0, -12, -24, -48, -36, -12,
            0, 12, 12, 0, -12, -36, -24, 0, 12, 24, 24, 12, 0, -24, -24, 0, 12, 24, 24, 12, 0,
            -24, -36, -12, 0, 12, 12, 0, -12, -36, -48, -24, -12, 0, 0, -12, -24, -48, -72, -48,
            -36, -24, -24, -36, -48, -72,
        ];
        t[i]
    } else {
        mg_pst_at(side, piece_sel, sq)
    }
}

pub open spec fn weak_pawn_at(side: Colour, sq: int) -> int {
    spec_weak_pawn_pcsq()[pst_index(side, sq)]
}

pub fn weak_pawn_table(side: Colour, sq: i32) -> (r: i64)
    requires
        valid_sq(sq as int),
    ensures
        r as int == weak_pawn_at(side, sq as int),
        -100 <= r <= 100,
{
    let i = pst_index_exec(side, sq);
    let t: [i64; 64] = [
        0, 0, 0, 0, 0, 0, 0, 0, -10, -12, -14, -16, -16, -14, -12, -10, -10, -12, -14, -16, -16,
        -14, -12, -10, -10, -12, -14, -16, -16, -14, -12, -10, -10, -12, -14, -16, -16, -14, -12,
        -10, -8, -12, -14, -16, -16, -14, -12, -10, -8, -12, -14, -16, -16, -14, -12, -10, 0, 0,
        0, 0, 0, 0, 0, 0,
    ];
    t[i]
}

pub open spec fn passed_pawn_at(side: Colour, sq: int) -> int {
    spec_passed_pawn_pcsq()[pst_index(side, sq)]
}

pub fn passed_pawn_table(side: Colour, sq: i32) -> (r: i64)
    requires
        valid_sq(sq as int),
    ensures
        r as int == passed_pawn_at(side, sq as int),
        0 <= r <= 100,
{
    let i = pst_index_exec(side, sq);
    let t: [i64; 64] = [
        0, 0, 0, 0, 0, 0, 0, 0, 100, 100, 100, 100, 100, 100, 100, 100, 80, 80, 80, 80, 80, 80,
        80, 80, 60, 60, 60, 60, 60, 60, 60, 60, 40, 40, 40, 40, 40, 40, 40, 40, 20, 20, 20, 20,
        20, 20, 20, 20, 20, 20, 20, 20, 20, 20, 20, 20, 0, 0, 0, 0, 0, 0, 0, 0,
    ];
    t[i]
}

/// Protected passers score a quarter above ordinary passed pawns.
pub open spec fn protected_passed_pawn_at(side: Colour, sq: int) -> int {
    passed_pawn_at(side, sq) * 10 / 8
}

pub fn protected_passed_pawn_table(side: Colour, sq: i32) -> (r: i64)
    requires
        valid_sq(sq as int),
    ensures
        r as int == protected_passed_pawn_at(side, sq as int),
        0 <= r <= 125,
{
    passed_pawn_table(side, sq) * 10 / 8
}

} // verus!
