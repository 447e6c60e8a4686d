//! The priority scorer: how promising a freshly evaluated frontier node is
//! to extend next, regardless of which side it favours.
use vstd::prelude::*;

use crate::board::{Board, Colour, SidePieces};
use crate::modifiers::{BISHOP_VAL, KNIGHT_VAL, PAWN_VAL, QUEEN_VAL, ROOK_VAL};
use crate::score::Eval;
use crate::tree::Branch;

verus! {

/// The depth at which the search stops deepening; priorities are defined
/// up to this ply.
pub const MAX_SEARCH_DEPTH: usize = 0xffff;

pub const CAPTURE_BONUS: i64 = 50;

pub const DEPTH_PENALTY: i64 = 10;

/// The value of the piece a move captured, judged by which of the moving
/// side's piece counts shrank, or `None` for a quiet move.
pub open spec fn spec_is_capture(orig: Board, res: Board) -> Option<i64> {
    let side = res.side_to_move;
    let o = orig.side(side);
    let r = res.side(side);
    if o.pawns != r.pawns {
        Some(PAWN_VAL)
    } else if o.queens != r.queens {
        Some(QUEEN_VAL)
    } else if o.rooks != r.rooks {
        Some(ROOK_VAL)
    } else if o.bishops != r.bishops {
        Some(BISHOP_VAL)
    } else if o.knights != r.knights {
        Some(KNIGHT_VAL)
    } else {
        None
    }
}

/// A numeric score is turned towards the mover, discounted by depth, and
/// boosted for captures; mate scores pass through unchanged.
pub open spec fn spec_calc_priority(
    orig: Board,
    res: Board,
    depth: int,
    heuristic: Eval,
) -> Eval {
    match heuristic {
        Eval::Numeric(x) => {
            let turned: int = if res.side_to_move is White {
                x as int
            } else {
                -(x as int)
            };
            let depthed = turned - depth * (DEPTH_PENALTY as int);
            let boosted = match spec_is_capture(orig, res) {
                Some(v) => depthed + v * ((CAPTURE_BONUS as int) - (DEPTH_PENALTY as int) * depth),
                None => depthed,
            };
            Eval::Numeric(boosted as i64)
        },
        _ => heuristic,
    }
}

impl Branch {
    /// The captured piece's value, when the move was a capture.
    pub fn is_capture(orig_board: &Board, res_board: &Board) -> (r: Option<i64>)
        ensures
            r == spec_is_capture(*orig_board, *res_board),
    {
        let side = res_board.side_to_move();
        let orig_side = orig_board.get_side(side);
        let res_side = res_board.get_side(side);
        if orig_side.pawns != res_side.pawns {
            Some(PAWN_VAL)
        } else if orig_side.queens != res_side.queens {
            Some(QUEEN_VAL)
        } else if orig_side.rooks != res_side.rooks {
            Some(ROOK_VAL)
        } else if orig_side.bishops != res_side.bishops {
            Some(BISHOP_VAL)
        } else if orig_side.knights != res_side.knights {
            Some(KNIGHT_VAL)
        } else {
            None
        }
    }

    /// The ordering signal of a frontier node: larger means more promising
    /// to extend next. The depth is bounded by the search's maximum ply.
    pub fn calc_priority(
        orig_board: &Board,
        res_board: &Board,
        depth: usize,
        heuristic: Eval,
    ) -> (r: Eval)
        requires
            depth <= MAX_SEARCH_DEPTH,
            match heuristic {
                Eval::Numeric(x) => -20000000 <= x <= 20000000,
                _ => true,
            },
        ensures
            r == spec_calc_priority(*orig_board, *res_board, depth as int, heuristic),
    {
        if let Eval::Numeric(x) = heuristic {
            let mut res: i64 = if res_board.side_to_move() == Colour::White {
                x
            } else {
                -x
            };
            let d = depth as i64;
            res = res - d * DEPTH_PENALTY;
            if let Some(capture_val) = Self::is_capture(orig_board, res_board) {
                proof {
                    assert(-2000000000 <= (capture_val as int) * ((CAPTURE_BONUS as int) - (
                    DEPTH_PENALTY as int) * (d as int)) <= 2000000000) by (nonlinear_arith)
                        requires
                            100 <= capture_val as int <= 975,
                            0 <= d as int <= 0xffff,
                    ;
                }
                res = res + capture_val * (CAPTURE_BONUS - DEPTH_PENALTY * d);
            }
            Eval::Numeric(res)
        } else {
            heuristic
        }
    }
}

} // verus!
