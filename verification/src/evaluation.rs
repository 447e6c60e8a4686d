//! The static evaluator: material with piece-square tables, king shield,
//! trapped-piece penalties, mobility and king-zone pressure, pawn
//! structure, pawn attacks on pieces, combination bonuses, tempo, king
//! safety, and the middlegame/endgame blend. The score is a pure function
//! of the position: every entry point's result equals its specification,
//! so repeated evaluations of one board agree.
use vstd::prelude::*;

use crate::attacks::{diag_reach, king_move, knight_move, line_reach, near_king, pawn_attack};
use crate::board::{bb_count, bb_has, bb_popcount, bb_test, Board, Colour, SidePieces};
use crate::modifiers::{
    eg_pst, eg_pst_at, knight_adj, knight_adj_at, mg_pst, mg_pst_at, passed_pawn_at,
    passed_pawn_table, protected_passed_pawn_at, protected_passed_pawn_table, rook_adj,
    rook_adj_at, safety_at, safety_table_at, weak_pawn_at, weak_pawn_table, ACTIVE_ATTACK_MOD,
    BISHIP_ATTACK, BISHOP_PAIR, BISHOP_VAL, KING_VAL, KNIGHT_ATTACK, KNIGHT_VAL,
    PASSIVE_ATTACK_MOD, PAWN_VAL, P_BISHOP_TRAPPED_A6, P_BISHOP_TRAPPED_A7, P_C3_KNIGHT,
    P_DOUBLED_PAWN, P_KING_BLOCKS_ROOK, P_KNIGHT_PAIR, P_KNIGHT_TRAPPED_A7, P_KNIGHT_TRAPPED_A8,
    P_OPPONENT_FLAG, P_QUEEN_DEVELOPED_EARLY, P_ROOK_PAIR, QUEEN_ATTACK, QUEEN_VAL,
    RETURNING_BISHOP, ROOK_ATTACK, ROOK_HALF, ROOK_OPEN, ROOK_VAL, SHIELD_1, SHIELD_2, TEMPO,
};
use crate::score::Eval;
use crate::square::{sq_file, sq_rank, valid_sq};

verus! {

// --- material and piece-square tables --------------------------------------
/// Which piece of this side stands on the square: the selector used by the
/// table lookups, or 6 when the square is empty of this side's pieces.
pub open spec fn piece_sel_at(s: SidePieces, sq: int) -> int {
    if bb_has(s.pawns, sq as u64) {
        0
    } else if bb_has(s.knights, sq as u64) {
        1
    } else if bb_has(s.bishops, sq as u64) {
        2
    } else if bb_has(s.rooks, sq as u64) {
        3
    } else if bb_has(s.queens, sq as u64) {
        4
    } else if bb_has(s.king, sq as u64) {
        5
    } else {
        6
    }
}

pub open spec fn piece_val_of(sel: int) -> int {
    if sel == 0 {
        PAWN_VAL as int
    } else if sel == 1 {
        KNIGHT_VAL as int
    } else if sel == 2 {
        BISHOP_VAL as int
    } else if sel == 3 {
        ROOK_VAL as int
    } else if sel == 4 {
        QUEEN_VAL as int
    } else if sel == 5 {
        KING_VAL as int
    } else {
        0
    }
}

/// One square's contribution to a side's material: piece value plus
/// positional bonus, middlegame and endgame.
pub open spec fn mat_at(s: SidePieces, side: Colour, sq: int) -> (int, int) {
    let sel = piece_sel_at(s, sq);
    if sel == 6 {
        (0, 0)
    } else {
        (piece_val_of(sel) + mg_pst(side, sel, sq), piece_val_of(sel) + eg_pst(side, sel, sq))
    }
}

pub open spec fn mat_fold(s: SidePieces, side: Colour, n: int) -> (int, int)
    decreases n,
{
    if n <= 0 {
        (0, 0)
    } else {
        let acc = mat_fold(s, side, n - 1);
        let at = mat_at(s, side, n - 1);
        (acc.0 + at.0, acc.1 + at.1)
    }
}

/// A side's material and positional score.
pub open spec fn spec_side_material(s: SidePieces, side: Colour) -> (int, int) {
    mat_fold(s, side, 64)
}

/// White's material minus Black's, middlegame and endgame.
pub open spec fn spec_material(white: SidePieces, black: SidePieces) -> (int, int) {
    let w = spec_side_material(white, Colour::White);
    let b = spec_side_material(black, Colour::Black);
    (w.0 - b.0, w.1 - b.1)
}

// --- the executable evaluator ----------------------------------------------
impl crate::tree::Branch {
    /// The material and piece-square score of one side's pieces.
    pub fn eval_side_material(pieces: &SidePieces, side: Colour) -> (r: (i64, i64))
        ensures
            r.0 as int == spec_side_material(*pieces, side).0,
            r.1 as int == spec_side_material(*pieces, side).1,
            -70400 <= r.0 <= 70400,
            -70400 <= r.1 <= 70400,
    {
        let mut mg: i64 = 0;
        let mut eg: i64 = 0;
        let mut sq: i32 = 0;
        while sq < 64
            invariant
                0 <= sq <= 64,
                mg as int == mat_fold(*pieces, side, sq as int).0,
                eg as int == mat_fold(*pieces, side, sq as int).1,
                -1100 * sq <= mg <= 1100 * sq,
                -1100 * sq <= eg <= 1100 * sq,
            decreases 64 - sq,
        {
            let sel: u8 = if bb_test(pieces.pawns, sq as u64) {
                0
            } else if bb_test(pieces.knights, sq as u64) {
                1
            } else if bb_test(pieces.bishops, sq as u64) {
                2
            } else if bb_test(pieces.rooks, sq as u64) {
                3
            } else if bb_test(pieces.queens, sq as u64) {
                4
            } else if bb_test(pieces.king, sq as u64) {
                5
            } else {
                6
            };
            if sel < 6 {
                let val: i64 = if sel == 0 {
                    PAWN_VAL
                } else if sel == 1 {
                    KNIGHT_VAL
                } else if sel == 2 {
                    BISHOP_VAL
                } else if sel == 3 {
                    ROOK_VAL
                } else if sel == 4 {
                    QUEEN_VAL
                } else {
                    KING_VAL
                };
                mg = mg + val + mg_pst_at(side, sel, sq);
                eg = eg + val + eg_pst_at(side, sel, sq);
            }
            sq += 1;
        }
        (mg, eg)
    }

    /// White's material minus Black's, middlegame and endgame.
    pub fn eval_material(white_pieces: &SidePieces, black_pieces: &SidePieces) -> (r: (i64, i64))
        ensures
            r.0 as int == spec_material(*white_pieces, *black_pieces).0,
            r.1 as int == spec_material(*white_pieces, *black_pieces).1,
            -140800 <= r.0 <= 140800,
            -140800 <= r.1 <= 140800,
    {
        let (white_mg, white_eg) = Self::eval_side_material(white_pieces, Colour::White);
        let (black_mg, black_eg) = Self::eval_side_material(black_pieces, Colour::Black);
        (white_mg - black_mg, white_eg - black_eg)
    }
}

// --- king shield ------------------------------------------------------------
/// The shield value of one file in front of the king: a pawn on the second
/// rank counts fully, one on the third rank half.
pub open spec fn shield_file(pawns: u64, side: Colour, file: int) -> int {
    let r2 = match side {
        Colour::White => 1int,
        Colour::Black => 6int,
    };
    let r3 = match side {
        Colour::White => 2int,
        Colour::Black => 5int,
    };
    if bb_has(pawns, (r2 * 8 + file) as u64) {
        SHIELD_1 as int
    } else if bb_has(pawns, (r3 * 8 + file) as u64) {
        SHIELD_2 as int
    } else {
        0
    }
}

/// A side's king shield: with the king castled short the three kingside
/// files are checked, castled long the three queenside files.
pub open spec fn spec_shield(s: SidePieces, side: Colour) -> int {
    let ksq = crate::board::bb_first(s.king) as int;
    let kfile = sq_file(ksq);
    if kfile > 4 {
        shield_file(s.pawns, side, 5) + shield_file(s.pawns, side, 6) + shield_file(s.pawns, side, 7)
    } else if kfile < 3 {
        shield_file(s.pawns, side, 0) + shield_file(s.pawns, side, 1) + shield_file(s.pawns, side, 2)
    } else {
        0
    }
}

fn shield_file_exec(pawns: u64, side: Colour, file: i32) -> (r: i64)
    requires
        0 <= file < 8,
    ensures
        r as int == shield_file(pawns, side, file as int),
        0 <= r <= 10,
{
    let r2: i32 = if side == Colour::White {
        1
    } else {
        6
    };
    let r3: i32 = if side == Colour::White {
        2
    } else {
        5
    };
    if bb_test(pawns, (r2 * 8 + file) as u64) {
        SHIELD_1
    } else if bb_test(pawns, (r3 * 8 + file) as u64) {
        SHIELD_2
    } else {
        0
    }
}

fn shield_for(pieces: &SidePieces, side: Colour) -> (r: i64)
    requires
        bb_count(pieces.king) == 1,
    ensures
        r as int == spec_shield(*pieces, side),
        0 <= r <= 30,
{
    proof {
        crate::board::lemma_bb_count_pos(pieces.king, 64);
        crate::board::lemma_bb_first_from(pieces.king, 0);
    }
    let ksq = crate::board::bb_lowest(pieces.king) as i32;
    let kfile = ksq % 8;
    if kfile > 4 {
        shield_file_exec(pieces.pawns, side, 5) + shield_file_exec(pieces.pawns, side, 6)
            + shield_file_exec(pieces.pawns, side, 7)
    } else if kfile < 3 {
        shield_file_exec(pieces.pawns, side, 0) + shield_file_exec(pieces.pawns, side, 1)
            + shield_file_exec(pieces.pawns, side, 2)
    } else {
        0
    }
}

impl crate::tree::Branch {
    /// White's king shield.
    pub fn eval_shield_white(pieces: &SidePieces) -> (r: i64)
        requires
            bb_count(pieces.king) == 1,
        ensures
            r as int == spec_shield(*pieces, Colour::White),
            0 <= r <= 30,
    {
        shield_for(pieces, Colour::White)
    }

    /// Black's king shield.
    pub fn eval_shield_black(pieces: &SidePieces) -> (r: i64)
        requires
            bb_count(pieces.king) == 1,
        ensures
            r as int == spec_shield(*pieces, Colour::Black),
            0 <= r <= 30,
    {
        shield_for(pieces, Colour::Black)
    }

    /// Both kings' shields.
    pub fn eval_shield(white_pieces: &SidePieces, black_pieces: &SidePieces) -> (r: (i64, i64))
        requires
            bb_count(white_pieces.king) == 1,
            bb_count(black_pieces.king) == 1,
        ensures
            r.0 as int == spec_shield(*white_pieces, Colour::White),
            r.1 as int == spec_shield(*black_pieces, Colour::Black),
            0 <= r.0 <= 30,
            0 <= r.1 <= 30,
    {
        (Self::eval_shield_white(white_pieces), Self::eval_shield_black(black_pieces))
    }
}

// --- king blocking its own rook ----------------------------------------------
/// Penalty when a side's uncastled king shuts its rook in the corner; the
/// same pattern is scored for both wings and both sides.
pub open spec fn king_blocks_rook(s: SidePieces, side: Colour) -> int {
    let base = match side {
        Colour::White => 0int,
        Colour::Black => 56int,
    };
    let kingside = (bb_has(s.king, (base + 5) as u64) || bb_has(s.king, (base + 6) as u64)) && (
    bb_has(s.rooks, (base + 7) as u64) || bb_has(s.rooks, (base + 6) as u64));
    let queenside = (bb_has(s.king, (base + 2) as u64) || bb_has(s.king, (base + 1) as u64)) && (
    bb_has(s.rooks, (base + 0) as u64) || bb_has(s.rooks, (base + 1) as u64));
    (if kingside {
        -(P_KING_BLOCKS_ROOK as int)
    } else {
        0
    }) + (if queenside {
        -(P_KING_BLOCKS_ROOK as int)
    } else {
        0
    })
}

fn king_blocks_rook_exec(s: &SidePieces, side: Colour) -> (r: i64)
    ensures
        r as int == king_blocks_rook(*s, side),
        -48 <= r <= 0,
{
    let base: i32 = if side == Colour::White {
        0
    } else {
        56
    };
    let mut r: i64 = 0;
    if (bb_test(s.king, (base + 5) as u64) || bb_test(s.king, (base + 6) as u64)) && (bb_test(
        s.rooks,
        (base + 7) as u64,
    ) || bb_test(s.rooks, (base + 6) as u64)) {
        r = r - P_KING_BLOCKS_ROOK;
    }
    if (bb_test(s.king, (base + 2) as u64) || bb_test(s.king, (base + 1) as u64)) && (bb_test(
        s.rooks,
        (base + 0) as u64,
    ) || bb_test(s.rooks, (base + 1) as u64)) {
        r = r - P_KING_BLOCKS_ROOK;
    }
    r
}

impl crate::tree::Branch {
    /// Trapped-rook penalties for both sides, White's and Black's.
    pub fn eval_blocked_pieces(white_pieces: &SidePieces, black_pieces: &SidePieces) -> (r: (
        i64,
        i64,
    ))
        ensures
            r.0 as int == king_blocks_rook(*white_pieces, Colour::White),
            r.1 as int == king_blocks_rook(*black_pieces, Colour::Black),
            -48 <= r.0 <= 0,
            -48 <= r.1 <= 0,
    {
        (
            king_blocks_rook_exec(white_pieces, Colour::White),
            king_blocks_rook_exec(black_pieces, Colour::Black),
        )
    }

    /// The side to move enjoys a small tempo bonus.
    pub fn tempo_bonus(&self, side: Colour) -> (r: i64)
        ensures
            r as int == spec_tempo(side),
    {
        if side == Colour::White {
            TEMPO
        } else {
            -TEMPO
        }
    }

    /// Piece-pair adjustments: the bishop pair gains, knight and rook
    /// pairs concede.
    pub fn combination_adjustment(
        &self,
        white_pieces: &SidePieces,
        black_pieces: &SidePieces,
    ) -> (r: i64)
        ensures
            r as int == spec_combination(*white_pieces, *black_pieces),
            -108 <= r <= 108,
    {
        let mut res: i64 = 0;
        if bb_popcount(white_pieces.bishops) > 1 {
            res = res + BISHOP_PAIR;
        }
        if bb_popcount(black_pieces.bishops) > 1 {
            res = res - BISHOP_PAIR;
        }
        if bb_popcount(white_pieces.knights) > 1 {
            res = res - P_KNIGHT_PAIR;
        }
        if bb_popcount(black_pieces.knights) > 1 {
            res = res + P_KNIGHT_PAIR;
        }
        if bb_popcount(white_pieces.rooks) > 1 {
            res = res - P_ROOK_PAIR;
        }
        if bb_popcount(black_pieces.rooks) > 1 {
            res = res + P_ROOK_PAIR;
        }
        res
    }
}

pub open spec fn spec_tempo(side: Colour) -> int {
    match side {
        Colour::White => TEMPO as int,
        Colour::Black => -(TEMPO as int),
    }
}

pub open spec fn spec_combination(white: SidePieces, black: SidePieces) -> int {
    (if bb_count(white.bishops) > 1 {
        BISHOP_PAIR as int
    } else {
        0
    }) + (if bb_count(black.bishops) > 1 {
        -(BISHOP_PAIR as int)
    } else {
        0
    }) + (if bb_count(white.knights) > 1 {
        -(P_KNIGHT_PAIR as int)
    } else {
        0
    }) + (if bb_count(black.knights) > 1 {
        P_KNIGHT_PAIR as int
    } else {
        0
    }) + (if bb_count(white.rooks) > 1 {
        -(P_ROOK_PAIR as int)
    } else {
        0
    }) + (if bb_count(black.rooks) > 1 {
        P_ROOK_PAIR as int
    } else {
        0
    })
}

// --- pawn structure ----------------------------------------------------------
/// `k` lies strictly ahead of `sq` from this side's point of view.
pub open spec fn ahead_of(side: Colour, sq: int, k: int) -> bool {
    match side {
        Colour::White => sq_rank(k) > sq_rank(sq),
        Colour::Black => sq_rank(k) < sq_rank(sq),
    }
}

/// Friendly pawns strictly ahead on the same file (doubled pawns).
pub open spec fn cnt_doubled(own: u64, sq: int, side: Colour, n: int) -> int
    decreases n,
{
    if n <= 0 {
        0
    } else {
        cnt_doubled(own, sq, side, n - 1) + if bb_has(own, (n - 1) as u64) && sq_file(n - 1)
            == sq_file(sq) && ahead_of(side, sq, n - 1) {
            1int
        } else {
            0int
        }
    }
}

/// Enemy pawns ahead on the same or an adjacent file (passers fail on these).
pub open spec fn cnt_blockers(other: u64, sq: int, side: Colour, n: int) -> int
    decreases n,
{
    if n <= 0 {
        0
    } else {
        cnt_blockers(other, sq, side, n - 1) + if bb_has(other, (n - 1) as u64) && sq_file(n - 1)
            - sq_file(sq) <= 1 && sq_file(sq) - sq_file(n - 1) <= 1 && ahead_of(side, sq, n - 1) {
            1int
        } else {
            0int
        }
    }
}

/// Enemy pawns ahead on the same file (the pawn is opposed).
pub open spec fn cnt_opposed(other: u64, sq: int, side: Colour, n: int) -> int
    decreases n,
{
    if n <= 0 {
        0
    } else {
        cnt_opposed(other, sq, side, n - 1) + if bb_has(other, (n - 1) as u64) && sq_file(n - 1)
            == sq_file(sq) && ahead_of(side, sq, n - 1) {
            1int
        } else {
            0int
        }
    }
}

/// Friendly pawns on an adjacent file at or behind this rank (the pawn is
/// not weak).
pub open spec fn cnt_guards(own: u64, sq: int, side: Colour, n: int) -> int
    decreases n,
{
    if n <= 0 {
        0
    } else {
        cnt_guards(own, sq, side, n - 1) + if bb_has(own, (n - 1) as u64) && (sq_file(n - 1)
            - sq_file(sq) == 1 || sq_file(sq) - sq_file(n - 1) == 1) && !ahead_of(
            side,
            sq,
            n - 1,
        ) {
            1int
        } else {
            0int
        }
    }
}

/// A friendly pawn stands diagonally behind or beside the passer.
pub open spec fn spec_pawn_supported(own: u64, sq: int, side: Colour) -> bool {
    let back = match side {
        Colour::White => -8int,
        Colour::Black => 8int,
    };
    ||| (sq_file(sq) > 0 && bb_has(own, (sq - 1) as u64))
    ||| (sq_file(sq) > 0 && valid_sq(sq - 1 + back) && bb_has(own, (sq - 1 + back) as u64))
    ||| (sq_file(sq) < 7 && bb_has(own, (sq + 1) as u64))
    ||| (sq_file(sq) < 7 && valid_sq(sq + 1 + back) && bb_has(own, (sq + 1 + back) as u64))
}

/// One pawn's structural score: passers gain (protected passers more),
/// weak pawns concede (more if unopposed), doubled pawns concede per pawn
/// ahead on the file.
pub open spec fn spec_eval_pawn(own: u64, other: u64, sq: int, side: Colour) -> int {
    let doubled = cnt_doubled(own, sq, side, 64);
    let passed = cnt_blockers(other, sq, side, 64) == 0;
    let opposed = cnt_opposed(other, sq, side, 64) > 0;
    let weak = cnt_guards(own, sq, side, 64) == 0;
    (-(P_DOUBLED_PAWN as int) * doubled) + (if passed {
        if spec_pawn_supported(own, sq, side) {
            protected_passed_pawn_at(side, sq)
        } else {
            passed_pawn_at(side, sq)
        }
    } else {
        0
    }) + (if weak {
        weak_pawn_at(side, sq) + if !opposed {
            -(P_OPPONENT_FLAG as int)
        } else {
            0
        }
    } else {
        0
    })
}

/// The structural score of all pawns, White minus Black.
pub open spec fn pawn_fold(own: u64, other: u64, side: Colour, n: int) -> int
    decreases n,
{
    if n <= 0 {
        0
    } else {
        pawn_fold(own, other, side, n - 1) + if bb_has(own, (n - 1) as u64) {
            spec_eval_pawn(own, other, n - 1, side)
        } else {
            0
        }
    }
}

pub open spec fn spec_structure(white_pawns: u64, black_pawns: u64) -> int {
    pawn_fold(white_pawns, black_pawns, Colour::White, 64) - pawn_fold(
        black_pawns,
        white_pawns,
        Colour::Black,
        64,
    )
}

impl crate::tree::Branch {
    /// Whether a friendly pawn protects the square.
    pub fn pawn_supported(&self, square: i32, side: Colour, pieces: &SidePieces) -> (r: bool)
        requires
            valid_sq(square as int),
        ensures
            r == spec_pawn_supported(pieces.pawns, square as int, side),
    {
        let back: i32 = if side == Colour::White {
            -8
        } else {
            8
        };
        let file = square % 8;
        (file > 0 && bb_test(pieces.pawns, (square - 1) as u64)) || (file > 0 && 0 <= square - 1
            + back && square - 1 + back < 64 && bb_test(pieces.pawns, (square - 1 + back) as u64))
            || (file < 7 && bb_test(pieces.pawns, (square + 1) as u64)) || (file < 7 && 0 <= square
            + 1 + back && square + 1 + back < 64 && bb_test(
            pieces.pawns,
            (square + 1 + back) as u64,
        ))
    }

    /// One pawn's structural score.
    pub fn eval_pawn(
        &self,
        square: i32,
        side: Colour,
        side_pieces: &SidePieces,
        other_pieces: &SidePieces,
    ) -> (r: i64)
        requires
            valid_sq(square as int),
        ensures
            r as int == spec_eval_pawn(side_pieces.pawns, other_pieces.pawns, square as int, side),
            -1500 <= r <= 1500,
    {
        let own = side_pieces.pawns;
        let other = other_pieces.pawns;
        let mut doubled: i64 = 0;
        let mut blockers: i64 = 0;
        let mut opposed_cnt: i64 = 0;
        let mut guards: i64 = 0;
        let mut k: i32 = 0;
        while k < 64
            invariant
                0 <= k <= 64,
                valid_sq(square as int),
                doubled as int == cnt_doubled(own, square as int, side, k as int),
                blockers as int == cnt_blockers(other, square as int, side, k as int),
                opposed_cnt as int == cnt_opposed(other, square as int, side, k as int),
                guards as int == cnt_guards(own, square as int, side, k as int),
                0 <= doubled <= k,
                0 <= blockers <= k,
                0 <= opposed_cnt <= k,
                0 <= guards <= k,
            decreases 64 - k,
        {
            let kf = k % 8;
            let sf = square % 8;
            let ahead = if side == Colour::White {
                k / 8 > square / 8
            } else {
                k / 8 < square / 8
            };
            if bb_test(own, k as u64) && kf == sf && ahead {
                doubled += 1;
            }
            if bb_test(other, k as u64) && kf - sf <= 1 && sf - kf <= 1 && ahead {
                blockers += 1;
            }
            if bb_test(other, k as u64) && kf == sf && ahead {
                opposed_cnt += 1;
            }
            if bb_test(own, k as u64) && (kf - sf == 1 || sf - kf == 1) && !ahead {
                guards += 1;
            }
            k += 1;
        }
        let mut res: i64 = -P_DOUBLED_PAWN * doubled;
        if blockers == 0 {
            if self.pawn_supported(square, side, side_pieces) {
                res = res + protected_passed_pawn_table(side, square);
            } else {
                res = res + passed_pawn_table(side, square);
            }
        }
        if guards == 0 {
            res = res + weak_pawn_table(side, square);
            if opposed_cnt == 0 {
                res = res - P_OPPONENT_FLAG;
            }
        }
        res
    }

    /// The structural score of all pawns, White minus Black.
    pub fn eval_structure(
        &self,
        white_pieces: &SidePieces,
        black_pieces: &SidePieces,
    ) -> (r: i64)
        ensures
            r as int == spec_structure(white_pieces.pawns, black_pieces.pawns),
            -192000 <= r <= 192000,
    {
        let wp = white_pieces.pawns;
        let bp = black_pieces.pawns;
        let mut res_w: i64 = 0;
        let mut sq: i32 = 0;
        while sq < 64
            invariant
                0 <= sq <= 64,
                wp == white_pieces.pawns,
                bp == black_pieces.pawns,
                res_w as int == pawn_fold(wp, bp, Colour::White, sq as int),
                -1500 * sq <= res_w <= 1500 * sq,
            decreases 64 - sq,
        {
            if bb_test(wp, sq as u64) {
                res_w = res_w + self.eval_pawn(sq, Colour::White, white_pieces, black_pieces);
            }
            sq += 1;
        }
        let mut res_b: i64 = 0;
        let mut sq2: i32 = 0;
        while sq2 < 64
            invariant
                0 <= sq2 <= 64,
                wp == white_pieces.pawns,
                bp == black_pieces.pawns,
                res_b as int == pawn_fold(bp, wp, Colour::Black, sq2 as int),
                -1500 * sq2 <= res_b <= 1500 * sq2,
            decreases 64 - sq2,
        {
            if bb_test(bp, sq2 as u64) {
                res_b = res_b + self.eval_pawn(sq2, Colour::Black, black_pieces, white_pieces);
            }
            sq2 += 1;
        }
        res_w - res_b
    }
}

// --- piece activity -----------------------------------------------------------
/// What one piece contributes to its side's running totals.
pub struct EvalDelta {
    pub game_phase: i64,
    pub mg_mob: i64,
    pub eg_mob: i64,
    pub att_count: i64,
    pub att_weight: i64,
    pub material_adj: i64,
    pub blockages: i64,
    pub positional: i64,
}

#[verifier::ext_equal]
pub ghost struct EvalDeltaS {
    pub game_phase: int,
    pub mg_mob: int,
    pub eg_mob: int,
    pub att_count: int,
    pub att_weight: int,
    pub material_adj: int,
    pub blockages: int,
    pub positional: int,
}

impl View for EvalDelta {
    type V = EvalDeltaS;

    open spec fn view(&self) -> EvalDeltaS {
        EvalDeltaS {
            game_phase: self.game_phase as int,
            mg_mob: self.mg_mob as int,
            eg_mob: self.eg_mob as int,
            att_count: self.att_count as int,
            att_weight: self.att_weight as int,
            material_adj: self.material_adj as int,
            blockages: self.blockages as int,
            positional: self.positional as int,
        }
    }
}

pub open spec fn dzero() -> EvalDeltaS {
    EvalDeltaS {
        game_phase: 0,
        mg_mob: 0,
        eg_mob: 0,
        att_count: 0,
        att_weight: 0,
        material_adj: 0,
        blockages: 0,
        positional: 0,
    }
}

pub open spec fn dsum(a: EvalDeltaS, b: EvalDeltaS) -> EvalDeltaS {
    EvalDeltaS {
        game_phase: a.game_phase + b.game_phase,
        mg_mob: a.mg_mob + b.mg_mob,
        eg_mob: a.eg_mob + b.eg_mob,
        att_count: a.att_count + b.att_count,
        att_weight: a.att_weight + b.att_weight,
        material_adj: a.material_adj + b.material_adj,
        blockages: a.blockages + b.blockages,
        positional: a.positional + b.positional,
    }
}

/// Every field within the per-piece bound.
pub open spec fn dbounded(d: EvalDeltaS, bound: int) -> bool {
    &&& -bound <= d.game_phase <= bound
    &&& -bound <= d.mg_mob <= bound
    &&& -bound <= d.eg_mob <= bound
    &&& -bound <= d.att_count <= bound
    &&& -bound <= d.att_weight <= bound
    &&& -bound <= d.material_adj <= bound
    &&& -bound <= d.blockages <= bound
    &&& -bound <= d.positional <= bound
}

/// Mobility and king-zone attack counts for a knight.
pub open spec fn knight_counts(from: int, attacker: Colour, ksq: int, n: int) -> (int, int)
    decreases n,
{
    if n <= 0 {
        (0, 0)
    } else {
        let acc = knight_counts(from, attacker, ksq, n - 1);
        if knight_move(from, n - 1) {
            (acc.0 + 1, acc.1 + if near_king(attacker, ksq, n - 1) {
                1int
            } else {
                0int
            })
        } else {
            acc
        }
    }
}

/// Mobility and king-zone attack counts for a sliding piece; the selector
/// is 2 for diagonal movers, 3 for straight movers, 4 for both.
pub open spec fn slider_counts(
    occ: u64,
    from: int,
    attacker: Colour,
    ksq: int,
    kind: int,
    n: int,
) -> (int, int)
    decreases n,
{
    if n <= 0 {
        (0, 0)
    } else {
        let acc = slider_counts(occ, from, attacker, ksq, kind, n - 1);
        let t = n - 1;
        let reach = if kind == 2 {
            diag_reach(occ, from, t)
        } else if kind == 3 {
            line_reach(occ, from, t)
        } else {
            diag_reach(occ, from, t) || line_reach(occ, from, t)
        };
        if reach {
            (acc.0 + 1, acc.1 + if near_king(attacker, ksq, t) {
                1int
            } else {
                0int
            })
        } else {
            acc
        }
    }
}

/// A knight's contribution: trapped-knight penalties, the material
/// adjustment for the number of own knights, and mobility and king-zone
/// pressure with weight 4 against an offset of 4.
pub open spec fn spec_eval_knight(b: Board, sq: int, side: Colour) -> EvalDeltaS {
    let us = b.side(side);
    let them = b.side(side.spec_other());
    let ksq = crate::board::bb_first(them.king) as int;
    let blockages = (match side {
        Colour::White => (if sq == 56 && (bb_has(them.pawns, 48) || bb_has(them.pawns, 50)) {
            -(P_KNIGHT_TRAPPED_A8 as int)
        } else {
            0int
        }) + (if sq == 63 && (bb_has(them.pawns, 55) || bb_has(them.pawns, 53)) {
            -(P_KNIGHT_TRAPPED_A8 as int)
        } else {
            0int
        }) + (if sq == 48 && bb_has(them.pawns, 40) && bb_has(them.pawns, 49) {
            -(P_KNIGHT_TRAPPED_A7 as int)
        } else {
            0int
        }) + (if sq == 55 && bb_has(them.pawns, 47) && bb_has(them.pawns, 54) {
            -(P_KNIGHT_TRAPPED_A7 as int)
        } else {
            0int
        }) + (if sq == 18 && bb_has(us.pawns, 10) && bb_has(us.pawns, 27) && !bb_has(us.pawns, 28) {
            -(P_C3_KNIGHT as int)
        } else {
            0int
        }),
        Colour::Black => (if sq == 0 && (bb_has(them.pawns, 8) || bb_has(them.pawns, 10)) {
            -(P_KNIGHT_TRAPPED_A8 as int)
        } else {
            0int
        }) + (if sq == 7 && (bb_has(them.pawns, 15) || bb_has(them.pawns, 13)) {
            -(P_KNIGHT_TRAPPED_A8 as int)
        } else {
            0int
        }) + (if sq == 8 && bb_has(them.pawns, 16) && bb_has(them.pawns, 9) {
            -(P_KNIGHT_TRAPPED_A7 as int)
        } else {
            0int
        }) + (if sq == 15 && bb_has(them.pawns, 23) && bb_has(them.pawns, 14) {
            -(P_KNIGHT_TRAPPED_A7 as int)
        } else {
            0int
        }) + (if sq == 42 && bb_has(us.pawns, 50) && bb_has(us.pawns, 35) && !bb_has(us.pawns, 36) {
            -(P_C3_KNIGHT as int)
        } else {
            0int
        }),
    });
    let counts = knight_counts(sq, side, ksq, 64);
    EvalDeltaS {
        game_phase: 1,
        mg_mob: 4 * (counts.0 - 4),
        eg_mob: 4 * (counts.0 - 4),
        att_count: if counts.1 != 0 {
            1int
        } else {
            0int
        },
        att_weight: if counts.1 != 0 {
            2 * counts.1
        } else {
            0int
        },
        material_adj: knight_adj(bb_count(us.knights)),
        blockages,
        positional: 0,
    }
}

/// A bishop's contribution: trapped-bishop penalties, the returning-bishop
/// theme, and mobility and king-zone pressure with weight 3 against an
/// offset of 7.
pub open spec fn spec_eval_bishop(b: Board, sq: int, side: Colour) -> EvalDeltaS {
    let us = b.side(side);
    let them = b.side(side.spec_other());
    let ksq = crate::board::bb_first(them.king) as int;
    let occ = b.spec_occupancy();
    let blockages = (match side {
        Colour::White => (if sq == 48 && bb_has(them.pawns, 41) {
            -(P_BISHOP_TRAPPED_A7 as int)
        } else {
            0int
        }) + (if sq == 55 && bb_has(them.pawns, 46) {
            -(P_BISHOP_TRAPPED_A7 as int)
        } else {
            0int
        }) + (if sq == 57 && bb_has(them.pawns, 50) {
            -(P_BISHOP_TRAPPED_A7 as int)
        } else {
            0int
        }) + (if sq == 62 && bb_has(them.pawns, 53) {
            -(P_BISHOP_TRAPPED_A7 as int)
        } else {
            0int
        }) + (if sq == 40 && bb_has(them.pawns, 33) {
            -(P_BISHOP_TRAPPED_A6 as int)
        } else {
            0int
        }) + (if sq == 47 && bb_has(them.pawns, 38) {
            -(P_BISHOP_TRAPPED_A7 as int)
        } else {
            0int
        }),
        Colour::Black => (if sq == 8 && bb_has(them.pawns, 17) {
            -(P_BISHOP_TRAPPED_A7 as int)
        } else {
            0int
        }) + (if sq == 15 && bb_has(them.pawns, 22) {
            -(P_BISHOP_TRAPPED_A7 as int)
        } else {
            0int
        }) + (if sq == 1 && bb_has(them.pawns, 10) {
            -(P_BISHOP_TRAPPED_A7 as int)
        } else {
            0int
        }) + (if sq == 6 && bb_has(them.pawns, 13) {
            -(P_BISHOP_TRAPPED_A7 as int)
        } else {
            0int
        }) + (if sq == 16 && bb_has(them.pawns, 25) {
            -(P_BISHOP_TRAPPED_A6 as int)
        } else {
            0int
        }) + (if sq == 23 && bb_has(them.pawns, 30) {
            -(P_BISHOP_TRAPPED_A7 as int)
        } else {
            0int
        }),
    });
    let positional = (match side {
        Colour::White => (if sq == 5 && bb_has(us.king, 6) {
            RETURNING_BISHOP as int
        } else {
            0int
        }) + (if sq == 2 && bb_has(us.king, 1) {
            RETURNING_BISHOP as int
        } else {
            0int
        }),
        Colour::Black => (if sq == 61 && bb_has(us.king, 62) {
            RETURNING_BISHOP as int
        } else {
            0int
        }) + (if sq == 58 && bb_has(us.king, 57) {
            RETURNING_BISHOP as int
        } else {
            0int
        }),
    });
    let counts = slider_counts(occ, sq, side, ksq, 2, 64);
    EvalDeltaS {
        game_phase: 1,
        mg_mob: 3 * (counts.0 - 7),
        eg_mob: 3 * (counts.0 - 7),
        att_count: if counts.1 != 0 {
            1int
        } else {
            0int
        },
        att_weight: if counts.1 != 0 {
            2 * counts.1
        } else {
            0int
        },
        material_adj: 0,
        blockages,
        positional,
    }
}

/// A rook's contribution: the pawn-count material adjustment, open and
/// half-open file bonuses, and mobility and king-zone pressure with
/// middlegame weight 2 and endgame weight 4 against an offset of 7.
pub open spec fn spec_eval_rook(b: Board, sq: int, side: Colour) -> EvalDeltaS {
    let us = b.side(side);
    let them = b.side(side.spec_other());
    let ksq = crate::board::bb_first(them.king) as int;
    let occ = b.spec_occupancy();
    let own_block = cnt_opposed(us.pawns, sq, side, 64);
    let opp_block = cnt_opposed(them.pawns, sq, side, 64);
    let file_bonus: int = if own_block == 0 {
        if opp_block == 0 {
            ROOK_OPEN as int
        } else {
            ROOK_HALF as int
        }
    } else {
        0
    };
    let counts = slider_counts(occ, sq, side, ksq, 3, 64);
    EvalDeltaS {
        game_phase: 2,
        mg_mob: 2 * (counts.0 - 7) + file_bonus,
        eg_mob: 4 * (counts.0 - 7) + file_bonus,
        att_count: if counts.1 != 0 {
            1int
        } else {
            0int
        },
        att_weight: if counts.1 != 0 {
            3 * counts.1
        } else {
            0int
        },
        material_adj: rook_adj(bb_count(us.pawns)),
        blockages: 0,
        positional: 0,
    }
}

/// A queen's contribution: the early-development penalty while minor
/// pieces still stand at home, and mobility and king-zone pressure with
/// middlegame weight 1 and endgame weight 2 against an offset of 14.
pub open spec fn spec_eval_queen(b: Board, sq: int, side: Colour) -> EvalDeltaS {
    let us = b.side(side);
    let them = b.side(side.spec_other());
    let ksq = crate::board::bb_first(them.king) as int;
    let occ = b.spec_occupancy();
    let developed_early = match side {
        Colour::White => sq > 15,
        Colour::Black => sq < 48,
    };
    let positional = if developed_early {
        let (n1, n2, b1, b2) = match side {
            Colour::White => (1int, 6int, 2int, 5int),
            Colour::Black => (57int, 62int, 58int, 61int),
        };
        (if bb_has(us.knights, n1 as u64) {
            -(P_QUEEN_DEVELOPED_EARLY as int)
        } else {
            0int
        }) + (if bb_has(us.knights, n2 as u64) {
            -(P_QUEEN_DEVELOPED_EARLY as int)
        } else {
            0int
        }) + (if bb_has(us.bishops, b1 as u64) {
            -(P_QUEEN_DEVELOPED_EARLY as int)
        } else {
            0int
        }) + (if bb_has(us.bishops, b2 as u64) {
            -(P_QUEEN_DEVELOPED_EARLY as int)
        } else {
            0int
        })
    } else {
        0int
    };
    let counts = slider_counts(occ, sq, side, ksq, 4, 64);
    EvalDeltaS {
        game_phase: 4,
        mg_mob: 1 * (counts.0 - 14),
        eg_mob: 2 * (counts.0 - 14),
        att_count: if counts.1 != 0 {
            1int
        } else {
            0int
        },
        att_weight: if counts.1 != 0 {
            4 * counts.1
        } else {
            0int
        },
        material_adj: 0,
        blockages: 0,
        positional,
    }
}

/// The piece contribution on one square for the selector: 1 knight,
/// 2 bishop, 3 rook, 4 queen.
pub open spec fn spec_eval_piece(b: Board, side: Colour, kind: int, sq: int) -> EvalDeltaS {
    if kind == 1 {
        spec_eval_knight(b, sq, side)
    } else if kind == 2 {
        spec_eval_bishop(b, sq, side)
    } else if kind == 3 {
        spec_eval_rook(b, sq, side)
    } else {
        spec_eval_queen(b, sq, side)
    }
}

pub open spec fn kind_bb(s: SidePieces, kind: int) -> u64 {
    if kind == 1 {
        s.knights
    } else if kind == 2 {
        s.bishops
    } else if kind == 3 {
        s.rooks
    } else {
        s.queens
    }
}

/// All contributions of one side's pieces of one kind.
pub open spec fn piece_fold(b: Board, side: Colour, kind: int, n: int) -> EvalDeltaS
    decreases n,
{
    if n <= 0 {
        dzero()
    } else {
        let acc = piece_fold(b, side, kind, n - 1);
        if bb_has(kind_bb(b.side(side), kind), (n - 1) as u64) {
            dsum(acc, spec_eval_piece(b, side, kind, n - 1))
        } else {
            acc
        }
    }
}

/// All contributions of one side's knights, bishops, rooks and queens.
pub open spec fn spec_side_pieces(b: Board, side: Colour) -> EvalDeltaS {
    dsum(
        dsum(piece_fold(b, side, 1, 64), piece_fold(b, side, 2, 64)),
        dsum(piece_fold(b, side, 3, 64), piece_fold(b, side, 4, 64)),
    )
}

// --- executable piece activity ----------------------------------------------
fn count_knight_targets(from: i32, attacker: Colour, ksq: i32) -> (r: (i64, i64))
    requires
        valid_sq(from as int),
        valid_sq(ksq as int),
    ensures
        (r.0 as int, r.1 as int) == knight_counts(from as int, attacker, ksq as int, 64),
        0 <= r.0 <= 64,
        0 <= r.1 <= 64,
{
    let mut mob: i64 = 0;
    let mut att: i64 = 0;
    let mut t: i32 = 0;
    while t < 64
        invariant
            0 <= t <= 64,
            valid_sq(from as int),
            valid_sq(ksq as int),
            (mob as int, att as int) == knight_counts(from as int, attacker, ksq as int, t as int),
            0 <= att <= mob <= t,
        decreases 64 - t,
    {
        if crate::attacks::is_knight_move(from, t) {
            mob += 1;
            if crate::attacks::is_near_king(attacker, ksq, t) {
                att += 1;
            }
        }
        t += 1;
    }
    (mob, att)
}

fn count_slider_targets(occ: u64, from: i32, attacker: Colour, ksq: i32, kind: u8) -> (r: (
    i64,
    i64,
))
    requires
        valid_sq(from as int),
        valid_sq(ksq as int),
        2 <= kind <= 4,
    ensures
        (r.0 as int, r.1 as int) == slider_counts(
            occ,
            from as int,
            attacker,
            ksq as int,
            kind as int,
            64,
        ),
        0 <= r.0 <= 64,
        0 <= r.1 <= 64,
{
    let mut mob: i64 = 0;
    let mut att: i64 = 0;
    let mut t: i32 = 0;
    while t < 64
        invariant
            0 <= t <= 64,
            valid_sq(from as int),
            valid_sq(ksq as int),
            2 <= kind <= 4,
            (mob as int, att as int) == slider_counts(
                occ,
                from as int,
                attacker,
                ksq as int,
                kind as int,
                t as int,
            ),
            0 <= att <= mob <= t,
        decreases 64 - t,
    {
        let reach = if kind == 2 {
            crate::attacks::reaches_diag(occ, from, t)
        } else if kind == 3 {
            crate::attacks::reaches_line(occ, from, t)
        } else {
            crate::attacks::reaches_diag(occ, from, t) || crate::attacks::reaches_line(
                occ,
                from,
                t,
            )
        };
        if reach {
            mob += 1;
            if crate::attacks::is_near_king(attacker, ksq, t) {
                att += 1;
            }
        }
        t += 1;
    }
    (mob, att)
}

/// The piece contribution on one square, executable form.
fn eval_piece_at(b: &Board, side: Colour, kind: u8, sq: i32) -> (r: EvalDelta)
    requires
        b.playable(),
        valid_sq(sq as int),
        1 <= kind <= 4,
    ensures
        r@ == spec_eval_piece(*b, side, kind as int, sq as int),
        dbounded(r@, 1000),
{
    let us = b.get_side(side);
    let them = b.get_side(side.other());
    proof {
        crate::board::lemma_bb_count_pos(them.king, 64);
        crate::board::lemma_bb_first_from(them.king, 0);
    }
    let ksq = crate::board::bb_lowest(them.king) as i32;
    let occ = b.occupancy();
    if kind == 1 {
        let mut blockages: i64 = 0;
        if side == Colour::White {
            if sq == 56 && (bb_test(them.pawns, 48) || bb_test(them.pawns, 50)) {
                blockages = blockages - P_KNIGHT_TRAPPED_A8;
            }
            if sq == 63 && (bb_test(them.pawns, 55) || bb_test(them.pawns, 53)) {
                blockages = blockages - P_KNIGHT_TRAPPED_A8;
            }
            if sq == 48 && bb_test(them.pawns, 40) && bb_test(them.pawns, 49) {
                blockages = blockages - P_KNIGHT_TRAPPED_A7;
            }
            if sq == 55 && bb_test(them.pawns, 47) && bb_test(them.pawns, 54) {
                blockages = blockages - P_KNIGHT_TRAPPED_A7;
            }
            if sq == 18 && bb_test(us.pawns, 10) && bb_test(us.pawns, 27) && !bb_test(
                us.pawns,
                28,
            ) {
                blockages = blockages - P_C3_KNIGHT;
            }
        } else {
            if sq == 0 && (bb_test(them.pawns, 8) || bb_test(them.pawns, 10)) {
                blockages = blockages - P_KNIGHT_TRAPPED_A8;
            }
            if sq == 7 && (bb_test(them.pawns, 15) || bb_test(them.pawns, 13)) {
                blockages = blockages - P_KNIGHT_TRAPPED_A8;
            }
            if sq == 8 && bb_test(them.pawns, 16) && bb_test(them.pawns, 9) {
                blockages = blockages - P_KNIGHT_TRAPPED_A7;
            }
            if sq == 15 && bb_test(them.pawns, 23) && bb_test(them.pawns, 14) {
                blockages = blockages - P_KNIGHT_TRAPPED_A7;
            }
            if sq == 42 && bb_test(us.pawns, 50) && bb_test(us.pawns, 35) && !bb_test(
                us.pawns,
                36,
            ) {
                blockages = blockages - P_C3_KNIGHT;
            }
        }
        let (mob, att) = count_knight_targets(sq, side, ksq);
        let r = EvalDelta {
            game_phase: 1,
            mg_mob: 4 * (mob - 4),
            eg_mob: 4 * (mob - 4),
            att_count: if att != 0 {
                1
            } else {
                0
            },
            att_weight: if att != 0 {
                2 * att
            } else {
                0
            },
            material_adj: knight_adj_at(bb_popcount(us.knights)),
            blockages,
            positional: 0,
        };
        proof {
            assert(r@ =~= spec_eval_piece(*b, side, kind as int, sq as int));
        }
        r
    } else if kind == 2 {
        let mut blockages: i64 = 0;
        let mut positional: i64 = 0;
        if side == Colour::White {
            if sq == 48 && bb_test(them.pawns, 41) {
                blockages = blockages - P_BISHOP_TRAPPED_A7;
            }
            if sq == 55 && bb_test(them.pawns, 46) {
                blockages = blockages - P_BISHOP_TRAPPED_A7;
            }
            if sq == 57 && bb_test(them.pawns, 50) {
                blockages = blockages - P_BISHOP_TRAPPED_A7;
            }
            if sq == 62 && bb_test(them.pawns, 53) {
                blockages = blockages - P_BISHOP_TRAPPED_A7;
            }
            if sq == 40 && bb_test(them.pawns, 33) {
                blockages = blockages - P_BISHOP_TRAPPED_A6;
            }
            if sq == 47 && bb_test(them.pawns, 38) {
                blockages = blockages - P_BISHOP_TRAPPED_A7;
            }
            if sq == 5 && bb_test(us.king, 6) {
                positional = positional + RETURNING_BISHOP;
            }
            if sq == 2 && bb_test(us.king, 1) {
                positional = positional + RETURNING_BISHOP;
            }
        } else {
            if sq == 8 && bb_test(them.pawns, 17) {
                blockages = blockages - P_BISHOP_TRAPPED_A7;
            }
            if sq == 15 && bb_test(them.pawns, 22) {
                blockages = blockages - P_BISHOP_TRAPPED_A7;
            }
            if sq == 1 && bb_test(them.pawns, 10) {
                blockages = blockages - P_BISHOP_TRAPPED_A7;
            }
            if sq == 6 && bb_test(them.pawns, 13) {
                blockages = blockages - P_BISHOP_TRAPPED_A7;
            }
            if sq == 16 && bb_test(them.pawns, 25) {
                blockages = blockages - P_BISHOP_TRAPPED_A6;
            }
            if sq == 23 && bb_test(them.pawns, 30) {
                blockages = blockages - P_BISHOP_TRAPPED_A7;
            }
            if sq == 61 && bb_test(us.king, 62) {
                positional = positional + RETURNING_BISHOP;
            }
            if sq == 58 && bb_test(us.king, 57) {
                positional = positional + RETURNING_BISHOP;
            }
        }
        let (mob, att) = count_slider_targets(occ, sq, side, ksq, 2);
        let r = EvalDelta {
            game_phase: 1,
            mg_mob: 3 * (mob - 7),
            eg_mob: 3 * (mob - 7),
            att_count: if att != 0 {
                1
            } else {
                0
            },
            att_weight: if att != 0 {
                2 * att
            } else {
                0
            },
            material_adj: 0,
            blockages,
            positional,
        };
        proof {
            assert(r@ =~= spec_eval_piece(*b, side, kind as int, sq as int));
        }
        r
    } else if kind == 3 {
        let mut own_block: i64 = 0;
        let mut opp_block: i64 = 0;
        let mut k: i32 = 0;
        while k < 64
            invariant
                0 <= k <= 64,
                valid_sq(sq as int),
                us == b.side(side),
                them == b.side(side.spec_other()),
                own_block as int == cnt_opposed(us.pawns, sq as int, side, k as int),
                opp_block as int == cnt_opposed(them.pawns, sq as int, side, k as int),
                0 <= own_block <= k,
                0 <= opp_block <= k,
            decreases 64 - k,
        {
            let ahead = if side == Colour::White {
                k / 8 > sq / 8
            } else {
                k / 8 < sq / 8
            };
            if bb_test(us.pawns, k as u64) && k % 8 == sq % 8 && ahead {
                own_block += 1;
            }
            if bb_test(them.pawns, k as u64) && k % 8 == sq % 8 && ahead {
                opp_block += 1;
            }
            k += 1;
        }
        let file_bonus: i64 = if own_block == 0 {
            if opp_block == 0 {
                ROOK_OPEN
            } else {
                ROOK_HALF
            }
        } else {
            0
        };
        let (mob, att) = count_slider_targets(occ, sq, side, ksq, 3);
        let r = EvalDelta {
            game_phase: 2,
            mg_mob: 2 * (mob - 7) + file_bonus,
            eg_mob: 4 * (mob - 7) + file_bonus,
            att_count: if att != 0 {
                1
            } else {
                0
            },
            att_weight: if att != 0 {
                3 * att
            } else {
                0
            },
            material_adj: rook_adj_at(bb_popcount(us.pawns)),
            blockages: 0,
            positional: 0,
        };
        proof {
            assert(r@ =~= spec_eval_piece(*b, side, kind as int, sq as int));
        }
        r
    } else {
        let developed_early = if side == Colour::White {
            sq > 15
        } else {
            sq < 48
        };
        let mut positional: i64 = 0;
        if developed_early {
            let (n1, n2, b1, b2): (i32, i32, i32, i32) = if side == Colour::White {
                (1, 6, 2, 5)
            } else {
                (57, 62, 58, 61)
            };
            if bb_test(us.knights, n1 as u64) {
                positional = positional - P_QUEEN_DEVELOPED_EARLY;
            }
            if bb_test(us.knights, n2 as u64) {
                positional = positional - P_QUEEN_DEVELOPED_EARLY;
            }
            if bb_test(us.bishops, b1 as u64) {
                positional = positional - P_QUEEN_DEVELOPED_EARLY;
            }
            if bb_test(us.bishops, b2 as u64) {
                positional = positional - P_QUEEN_DEVELOPED_EARLY;
            }
        }
        let (mob, att) = count_slider_targets(occ, sq, side, ksq, 4);
        let r = EvalDelta {
            game_phase: 4,
            mg_mob: 1 * (mob - 14),
            eg_mob: 2 * (mob - 14),
            att_count: if att != 0 {
                1
            } else {
                0
            },
            att_weight: if att != 0 {
                4 * att
            } else {
                0
            },
            material_adj: 0,
            blockages: 0,
            positional,
        };
        proof {
            assert(r@ =~= spec_eval_piece(*b, side, kind as int, sq as int));
        }
        r
    }
}

/// Sums the contributions of one side's pieces of one kind.
fn fold_pieces(b: &Board, side: Colour, kind: u8) -> (r: EvalDelta)
    requires
        b.playable(),
        1 <= kind <= 4,
    ensures
        r@ == piece_fold(*b, side, kind as int, 64),
        dbounded(r@, 64000),
{
    let us = b.get_side(side);
    let bb = if kind == 1 {
        us.knights
    } else if kind == 2 {
        us.bishops
    } else if kind == 3 {
        us.rooks
    } else {
        us.queens
    };
    let mut acc = EvalDelta {
        game_phase: 0,
        mg_mob: 0,
        eg_mob: 0,
        att_count: 0,
        att_weight: 0,
        material_adj: 0,
        blockages: 0,
        positional: 0,
    };
    let mut sq: i32 = 0;
    while sq < 64
        invariant
            0 <= sq <= 64,
            b.playable(),
            1 <= kind <= 4,
            bb == kind_bb(b.side(side), kind as int),
            acc@ == piece_fold(*b, side, kind as int, sq as int),
            dbounded(acc@, 1000 * sq as int),
        decreases 64 - sq,
    {
        if bb_test(bb, sq as u64) {
            let d = eval_piece_at(b, side, kind, sq);
            acc = EvalDelta {
                game_phase: acc.game_phase + d.game_phase,
                mg_mob: acc.mg_mob + d.mg_mob,
                eg_mob: acc.eg_mob + d.eg_mob,
                att_count: acc.att_count + d.att_count,
                att_weight: acc.att_weight + d.att_weight,
                material_adj: acc.material_adj + d.material_adj,
                blockages: acc.blockages + d.blockages,
                positional: acc.positional + d.positional,
            };
            proof {
                assert(acc@ =~= piece_fold(*b, side, kind as int, sq as int + 1));
            }
        }
        sq += 1;
    }
    acc
}

impl crate::tree::Branch {
    /// All piece-activity contributions: White's and Black's totals over
    /// knights, bishops, rooks and queens.
    pub fn eval_pieces(&self, board: &Board) -> (r: (EvalDelta, EvalDelta))
        requires
            board.playable(),
        ensures
            r.0@ == spec_side_pieces(*board, Colour::White),
            r.1@ == spec_side_pieces(*board, Colour::Black),
            dbounded(r.0@, 256000),
            dbounded(r.1@, 256000),
    {
        let wn = fold_pieces(board, Colour::White, 1);
        let wb = fold_pieces(board, Colour::White, 2);
        let wr = fold_pieces(board, Colour::White, 3);
        let wq = fold_pieces(board, Colour::White, 4);
        let bn = fold_pieces(board, Colour::Black, 1);
        let bbp = fold_pieces(board, Colour::Black, 2);
        let br = fold_pieces(board, Colour::Black, 3);
        let bq = fold_pieces(board, Colour::Black, 4);
        let w = EvalDelta {
            game_phase: wn.game_phase + wb.game_phase + wr.game_phase + wq.game_phase,
            mg_mob: wn.mg_mob + wb.mg_mob + wr.mg_mob + wq.mg_mob,
            eg_mob: wn.eg_mob + wb.eg_mob + wr.eg_mob + wq.eg_mob,
            att_count: wn.att_count + wb.att_count + wr.att_count + wq.att_count,
            att_weight: wn.att_weight + wb.att_weight + wr.att_weight + wq.att_weight,
            material_adj: wn.material_adj + wb.material_adj + wr.material_adj + wq.material_adj,
            blockages: wn.blockages + wb.blockages + wr.blockages + wq.blockages,
            positional: wn.positional + wb.positional + wr.positional + wq.positional,
        };
        let b2 = EvalDelta {
            game_phase: bn.game_phase + bbp.game_phase + br.game_phase + bq.game_phase,
            mg_mob: bn.mg_mob + bbp.mg_mob + br.mg_mob + bq.mg_mob,
            eg_mob: bn.eg_mob + bbp.eg_mob + br.eg_mob + bq.eg_mob,
            att_count: bn.att_count + bbp.att_count + br.att_count + bq.att_count,
            att_weight: bn.att_weight + bbp.att_weight + br.att_weight + bq.att_weight,
            material_adj: bn.material_adj + bbp.material_adj + br.material_adj + bq.material_adj,
            blockages: bn.blockages + bbp.blockages + br.blockages + bq.blockages,
            positional: bn.positional + bbp.positional + br.positional + bq.positional,
        };
        proof {
            assert(w@ =~= spec_side_pieces(*board, Colour::White));
            assert(b2@ =~= spec_side_pieces(*board, Colour::Black));
        }
        (w, b2)
    }
}

// --- pawn attacks on pieces ---------------------------------------------------
/// The bounty on an enemy piece standing on the square.
pub open spec fn hit_val(them: SidePieces, t: int) -> int {
    if bb_has(them.knights, t as u64) {
        KNIGHT_ATTACK as int
    } else if bb_has(them.bishops, t as u64) {
        BISHIP_ATTACK as int
    } else if bb_has(them.rooks, t as u64) {
        ROOK_ATTACK as int
    } else if bb_has(them.queens, t as u64) {
        QUEEN_ATTACK as int
    } else {
        0
    }
}

/// What one pawn attacks: bounties on enemy pieces on its two capture
/// squares.
pub open spec fn pawn_hits(them: SidePieces, side: Colour, from: int, n: int) -> int
    decreases n,
{
    if n <= 0 {
        0
    } else {
        pawn_hits(them, side, from, n - 1) + if pawn_attack(side, from, n - 1) {
            hit_val(them, n - 1)
        } else {
            0
        }
    }
}

/// All bounties won by one side's pawns.
pub open spec fn pawn_atk_fold(own_pawns: u64, them: SidePieces, side: Colour, n: int) -> int
    decreases n,
{
    if n <= 0 {
        0
    } else {
        pawn_atk_fold(own_pawns, them, side, n - 1) + if bb_has(own_pawns, (n - 1) as u64) {
            pawn_hits(them, side, n - 1, 64)
        } else {
            0
        }
    }
}

/// Pawn pressure on pieces, weighted for the side to move.
pub open spec fn spec_pawn_attacks(b: Board) -> int {
    let (mod_white, mod_black) = if b.side_to_move is White {
        (ACTIVE_ATTACK_MOD as int, PASSIVE_ATTACK_MOD as int)
    } else {
        (PASSIVE_ATTACK_MOD as int, ACTIVE_ATTACK_MOD as int)
    };
    mod_white * pawn_atk_fold(b.white.pawns, b.black, Colour::White, 64) - mod_black
        * pawn_atk_fold(b.black.pawns, b.white, Colour::Black, 64)
}

impl crate::tree::Branch {
    /// The bounties won by one side's pawns: each pawn attack on an enemy
    /// knight, bishop, rook or queen scores its bounty.
    pub fn pawn_piece_attacks(
        res_board: &Board,
        colour: Colour,
        white_pieces: &SidePieces,
        black_pieces: &SidePieces,
    ) -> (r: i64)
        ensures
            r as int == pawn_atk_fold(
                res_board.side(colour).pawns,
                res_board.side(colour.spec_other()),
                colour,
                64,
            ),
            0 <= r <= 524288,
    {
        let us = res_board.get_side(colour);
        let them = res_board.get_side(colour.other());
        let own = us.pawns;
        let mut res: i64 = 0;
        let mut sq: i32 = 0;
        while sq < 64
            invariant
                0 <= sq <= 64,
                own == res_board.side(colour).pawns,
                them == res_board.side(colour.spec_other()),
                res as int == pawn_atk_fold(own, them, colour, sq as int),
                0 <= res <= 8192 * sq,
            decreases 64 - sq,
        {
            if bb_test(own, sq as u64) {
                let mut hits: i64 = 0;
                let mut t: i32 = 0;
                while t < 64
                    invariant
                        0 <= t <= 64,
                        0 <= sq < 64,
                        them == res_board.side(colour.spec_other()),
                        hits as int == pawn_hits(them, colour, sq as int, t as int),
                        0 <= hits <= 128 * t,
                    decreases 64 - t,
                {
                    if crate::attacks::is_pawn_attack(colour, sq, t) {
                        if bb_test(them.knights, t as u64) {
                            hits = hits + KNIGHT_ATTACK;
                        } else if bb_test(them.bishops, t as u64) {
                            hits = hits + BISHIP_ATTACK;
                        } else if bb_test(them.rooks, t as u64) {
                            hits = hits + ROOK_ATTACK;
                        } else if bb_test(them.queens, t as u64) {
                            hits = hits + QUEEN_ATTACK;
                        }
                    }
                    t += 1;
                }
                res = res + hits;
            }
            sq += 1;
        }
        res
    }

    /// Pawn pressure on pieces, weighted by a factor of three for the side
    /// to move.
    pub fn eval_pawn_atttacks(
        res_board: &Board,
        white_pieces: &SidePieces,
        black_pieces: &SidePieces,
    ) -> (r: i64)
        ensures
            r as int == spec_pawn_attacks(*res_board),
            -1572864 <= r <= 1572864,
    {
        let (mod_white, mod_black) = if res_board.side_to_move() == Colour::White {
            (ACTIVE_ATTACK_MOD, PASSIVE_ATTACK_MOD)
        } else {
            (PASSIVE_ATTACK_MOD, ACTIVE_ATTACK_MOD)
        };
        let w = Self::pawn_piece_attacks(res_board, Colour::White, white_pieces, black_pieces);
        let b = Self::pawn_piece_attacks(res_board, Colour::Black, white_pieces, black_pieces);
        mod_white * w - mod_black * b
    }
}

// --- the full heuristic -------------------------------------------------------
/// Truncating division by 24, as the engine computes the phase blend.
pub open spec fn tdiv24(x: int) -> int {
    if x >= 0 {
        x / 24
    } else {
        -((-x) / 24)
    }
}

/// The full heuristic score of a position, in centipawns from White's
/// point of view.
pub open spec fn spec_eval_heuristic(b: Board) -> int {
    let white = b.white;
    let black = b.black;
    let mat = spec_material(white, black);
    let eval_mg0 = mat.0 + spec_shield(white, Colour::White) - spec_shield(black, Colour::Black);
    let blocked_w = king_blocks_rook(white, Colour::White);
    let blocked_b = king_blocks_rook(black, Colour::Black);
    let dw = spec_side_pieces(b, Colour::White);
    let db = spec_side_pieces(b, Colour::Black);
    let eval_mg = eval_mg0 + dw.mg_mob - db.mg_mob;
    let eval_eg = mat.1 + dw.eg_mob - db.eg_mob;
    let phase0 = dw.game_phase + db.game_phase;
    let phase = if phase0 > 24 {
        24int
    } else if phase0 < 0 {
        0int
    } else {
        phase0
    };
    let base = spec_tempo(b.side_to_move) + spec_combination(white, black) + spec_structure(
        white.pawns,
        black.pawns,
    ) + spec_pawn_attacks(b);
    let blended = base + tdiv24(eval_mg * phase + eval_eg * (24 - phase));
    let with_pieces = blended + (blocked_w + dw.blockages) - (blocked_b + db.blockages)
        + dw.positional - db.positional + dw.material_adj - db.material_adj;
    let aw_w = if dw.att_count < 2 || bb_count(white.queens) == 0 {
        0int
    } else {
        dw.att_weight
    };
    let aw_b = if db.att_count < 2 || bb_count(black.queens) == 0 {
        0int
    } else {
        db.att_weight
    };
    with_pieces + safety_at(aw_w) - safety_at(aw_b)
}

impl crate::tree::Branch {
    /// The heuristic score of this node's position. The result is pinned to
    /// a function of the position alone, so repeated evaluations agree.
    #[verifier::rlimit(100)]
    pub fn eval_heuristic(&self) -> (r: Eval)
        requires
            self.board.playable(),
        ensures
            r == Eval::Numeric((spec_eval_heuristic(self.board)) as i64),
            -20000000 <= (spec_eval_heuristic(self.board)) as i64 <= 20000000,
    {
        let board = &self.board;
        let white_pieces = board.get_side(Colour::White);
        let black_pieces = board.get_side(Colour::Black);
        let side = board.side_to_move();

        let (mut eval_mg, mut eval_eg) = Self::eval_material(&white_pieces, &black_pieces);
        let (shield_w, shield_b) = Self::eval_shield(&white_pieces, &black_pieces);
        eval_mg = eval_mg + shield_w - shield_b;

        let (blocked_w, blocked_b) = Self::eval_blocked_pieces(&white_pieces, &black_pieces);

        let mut res: i64 = 0;
        res = res + self.tempo_bonus(side);
        res = res + self.combination_adjustment(&white_pieces, &black_pieces);
        res = res + self.eval_structure(&white_pieces, &black_pieces);

        let (dw, db) = self.eval_pieces(board);

        res = res + Self::eval_pawn_atttacks(board, &white_pieces, &black_pieces);

        eval_mg = eval_mg + dw.mg_mob - db.mg_mob;
        eval_eg = eval_eg + dw.eg_mob - db.eg_mob;

        let phase0 = dw.game_phase + db.game_phase;
        let phase = if phase0 > 24 {
            24
        } else if phase0 < 0 {
            0
        } else {
            phase0
        };
        proof {
            assert(-100000000 <= (eval_mg as int) * (phase as int) <= 100000000)
                by (nonlinear_arith)
                requires
                    -4000000 <= eval_mg as int <= 4000000,
                    0 <= phase as int <= 24,
            ;
            assert(-100000000 <= (eval_eg as int) * (24 - phase as int) <= 100000000)
                by (nonlinear_arith)
                requires
                    -4000000 <= eval_eg as int <= 4000000,
                    0 <= phase as int <= 24,
            ;
        }
        let num = eval_mg * phase + eval_eg * (24 - phase);
        let blend = if num >= 0 {
            num / 24
        } else {
            -((-num) / 24)
        };
        res = res + blend;

        res = res + (blocked_w + dw.blockages) - (blocked_b + db.blockages);
        res = res + dw.positional - db.positional;
        res = res + dw.material_adj - db.material_adj;

        let aw_w = if dw.att_count < 2 || bb_popcount(white_pieces.queens) == 0 {
            0
        } else {
            dw.att_weight
        };
        let aw_b = if db.att_count < 2 || bb_popcount(black_pieces.queens) == 0 {
            0
        } else {
            db.att_weight
        };
        res = res + safety_table_at(aw_w) - safety_table_at(aw_b);

        proof {
            let b = self.board;
            let mat = spec_material(b.white, b.black);
            let dws = spec_side_pieces(b, Colour::White);
            let dbs = spec_side_pieces(b, Colour::Black);
            assert(dw@ == dws);
            assert(db@ == dbs);
            assert(eval_mg as int == mat.0 + spec_shield(b.white, Colour::White) - spec_shield(
                b.black,
                Colour::Black,
            ) + dws.mg_mob - dbs.mg_mob);
            assert(eval_eg as int == mat.1 + dws.eg_mob - dbs.eg_mob);
            let sphase0 = dws.game_phase + dbs.game_phase;
            let sphase = if sphase0 > 24 {
                24int
            } else if sphase0 < 0 {
                0int
            } else {
                sphase0
            };
            assert(phase as int == sphase);
            assert(blend as int == tdiv24(eval_mg as int * sphase + eval_eg as int * (24 - sphase)));
            assert(res as int == spec_eval_heuristic(b));
        }
        Eval::Numeric(res)
    }

    /// The heuristic score of a bare position.
    pub fn test_eval(board: Board) -> (r: Eval)
        requires
            board.playable(),
        ensures
            r == Eval::Numeric((spec_eval_heuristic(board)) as i64),
    {
        let branch = Self::from_board(board);
        branch.eval_heuristic()
    }
}

/// The score of a node given its position's game state: a win is a mate at
/// this ply, a draw is a zero score, and an ongoing game takes the
/// heuristic.
pub open spec fn spec_eval_position(b: Board, mobility: int, depth: usize) -> Eval {
    match crate::movegen::spec_game_state(b, mobility) {
        crate::movegen::GameState::Ongoing => Eval::Numeric((spec_eval_heuristic(b)) as i64),
        crate::movegen::GameState::Finished(f) => match f {
            crate::movegen::FinishedState::Win(c, _) => Eval::Mate(depth, c),
            crate::movegen::FinishedState::Draw(_) => Eval::Numeric(0),
        },
    }
}

impl crate::tree::Branch {
    /// The node's score, given how many legal moves its position allows and
    /// the node's ply from the search root.
    pub fn eval_position(&self, mobility: usize, depth: usize) -> (r: Eval)
        requires
            self.board.playable(),
        ensures
            r == spec_eval_position(self.board, mobility as int, depth),
            match r {
                Eval::Numeric(x) => -20000000 <= x <= 20000000,
                _ => true,
            },
    {
        match self.board.get_unchecked_game_state(mobility) {
            crate::movegen::GameState::Ongoing => self.eval_heuristic(),
            crate::movegen::GameState::Finished(state) => match state {
                crate::movegen::FinishedState::Win(c, _) => match c {
                    Colour::White => Eval::Mate(depth, Colour::White),
                    Colour::Black => Eval::Mate(depth, Colour::Black),
                },
                crate::movegen::FinishedState::Draw(_) => Eval::Numeric(0),
            },
        }
    }
}


/// Evaluator determinism: the heuristic score is a function of the
/// position alone, so repeated evaluations of one board — in any thread,
/// at any time — return identical values.
pub proof fn lemma_evaluator_deterministic(a: Board, b: Board)
    requires
        a == b,
    ensures
        spec_eval_heuristic(a) == spec_eval_heuristic(b),
{
}

} // verus!
