//! Legal-move generation: candidate moves per square, board update for a
//! move, and the king-safety filter. The enumeration order is fixed by
//! construction — origin squares ascending, target squares ascending within
//! an origin, promotions queen first, castling last — so the move list of a
//! position is deterministic.
use vstd::prelude::*;

use crate::attacks::{
    attacks_square, diag_reach, is_king_move, is_knight_move, is_pawn_attack, king_move,
    knight_move, line_reach, pawn_attack, reaches_diag, reaches_line, square_attacked,
};
use crate::board::{
    bb_clear, bb_count, bb_count_upto, bb_first, bb_has, bb_lowest, bb_set, bb_test, bb_with,
    bb_without, lemma_bb_ext, lemma_bb_with, lemma_bb_without, lemma_side_occupied_at, Board,
    CastlingRights, Colour, Piece, SidePieces, EP_NONE,
};
use crate::square::{sq_file, sq_rank, valid_sq};

verus! {

broadcast use lemma_bb_with, lemma_bb_without, lemma_side_occupied_at, crate::board::lemma_bb_or, crate::board::lemma_occupancy_at;

/// How a candidate move changes the board beyond the moving piece itself.
#[derive(Debug, Clone, Copy, PartialEq, Eq, Structural, Hash)]
pub enum MoveType {
    Normal,
    DoublePush,
    EnPassant,
    CastleKingside,
    CastleQueenside,
}

/// A candidate move before it is applied: the piece, where it moves, what
/// it promotes to, and the move's kind.
#[derive(Debug, Clone, Copy, PartialEq, Eq, Structural, Hash)]
pub struct MoveDesc {
    pub piece: Piece,
    pub from: i32,
    pub to: i32,
    pub promotion: Option<Piece>,
    pub kind: MoveType,
}

/// A legal move: its description and the position it leads to.
#[derive(Debug, Clone, Copy, PartialEq, Eq, Structural, Hash)]
pub struct ChessMove {
    pub piece: Piece,
    pub origin: i32,
    pub dest: i32,
    pub promotion: Option<Piece>,
    pub kind: MoveType,
    pub board: Board,
}

// --- counting lemmas -------------------------------------------------------
proof fn lemma_bb_count_upto_with(bb: u64, sq: u64, n: int)
    requires
        sq < 64,
        0 <= n <= 64,
    ensures
        bb_count_upto(bb_with(bb, sq), n) == bb_count_upto(bb, n) + if sq < n && !bb_has(bb, sq) {
            1int
        } else {
            0int
        },
    decreases n,
{
    broadcast use lemma_bb_with;

    if n > 0 {
        lemma_bb_count_upto_with(bb, sq, n - 1);
    }
}

pub proof fn lemma_bb_count_with(bb: u64, sq: u64)
    requires
        sq < 64,
    ensures
        bb_count(bb_with(bb, sq)) == bb_count(bb) + if bb_has(bb, sq) {
            0int
        } else {
            1int
        },
{
    lemma_bb_count_upto_with(bb, sq, 64);
}

proof fn lemma_bb_count_upto_without(bb: u64, sq: u64, n: int)
    requires
        sq < 64,
        0 <= n <= 64,
    ensures
        bb_count_upto(bb_without(bb, sq), n) == bb_count_upto(bb, n) - if sq < n && bb_has(
            bb,
            sq,
        ) {
            1int
        } else {
            0int
        },
    decreases n,
{
    broadcast use lemma_bb_without;

    if n > 0 {
        lemma_bb_count_upto_without(bb, sq, n - 1);
    }
}

pub proof fn lemma_bb_count_without(bb: u64, sq: u64)
    requires
        sq < 64,
    ensures
        bb_count(bb_without(bb, sq)) == bb_count(bb) - if bb_has(bb, sq) {
            1int
        } else {
            0int
        },
{
    lemma_bb_count_upto_without(bb, sq, 64);
}

// --- board update ----------------------------------------------------------
/// The side with every piece removed from `sq`.
pub open spec fn side_remove(s: SidePieces, sq: u64) -> SidePieces {
    SidePieces {
        king: bb_without(s.king, sq),
        queens: bb_without(s.queens, sq),
        rooks: bb_without(s.rooks, sq),
        bishops: bb_without(s.bishops, sq),
        knights: bb_without(s.knights, sq),
        pawns: bb_without(s.pawns, sq),
    }
}

/// The side with a piece of the given type placed on `sq`.
pub open spec fn side_place(s: SidePieces, p: Piece, sq: u64) -> SidePieces {
    match p {
        Piece::King(_) => SidePieces { king: bb_with(s.king, sq), ..s },
        Piece::Queen(_) => SidePieces { queens: bb_with(s.queens, sq), ..s },
        Piece::Rook(_) => SidePieces { rooks: bb_with(s.rooks, sq), ..s },
        Piece::Bishop(_) => SidePieces { bishops: bb_with(s.bishops, sq), ..s },
        Piece::Knight(_) => SidePieces { knights: bb_with(s.knights, sq), ..s },
        Piece::Pawn(_) => SidePieces { pawns: bb_with(s.pawns, sq), ..s },
    }
}

fn side_remove_exec(s: &SidePieces, sq: u64) -> (r: SidePieces)
    requires
        sq < 64,
    ensures
        r == side_remove(*s, sq),
{
    SidePieces {
        king: bb_clear(s.king, sq),
        queens: bb_clear(s.queens, sq),
        rooks: bb_clear(s.rooks, sq),
        bishops: bb_clear(s.bishops, sq),
        knights: bb_clear(s.knights, sq),
        pawns: bb_clear(s.pawns, sq),
    }
}

fn side_place_exec(s: &SidePieces, p: Piece, sq: u64) -> (r: SidePieces)
    requires
        sq < 64,
    ensures
        r == side_place(*s, p, sq),
{
    match p {
        Piece::King(_) => SidePieces { king: bb_set(s.king, sq), ..*s },
        Piece::Queen(_) => SidePieces { queens: bb_set(s.queens, sq), ..*s },
        Piece::Rook(_) => SidePieces { rooks: bb_set(s.rooks, sq), ..*s },
        Piece::Bishop(_) => SidePieces { bishops: bb_set(s.bishops, sq), ..*s },
        Piece::Knight(_) => SidePieces { knights: bb_set(s.knights, sq), ..*s },
        Piece::Pawn(_) => SidePieces { pawns: bb_set(s.pawns, sq), ..*s },
    }
}

proof fn lemma_side_remove_at(s: SidePieces, sq: u64, j: u64)
    requires
        sq < 64,
        j < 64,
    ensures
        side_remove(s, sq).count_at(j) == if j == sq {
            0int
        } else {
            s.count_at(j)
        },
{
    broadcast use lemma_bb_without;

}

proof fn lemma_side_place_at(s: SidePieces, p: Piece, sq: u64, j: u64)
    requires
        sq < 64,
        j < 64,
    ensures
        j != sq ==> side_place(s, p, sq).count_at(j) == s.count_at(j),
        j == sq ==> side_place(s, p, sq).count_at(j) <= s.count_at(j) + 1,
{
    broadcast use lemma_bb_with;

}

/// The rook's own move inside a castling move, given the king's target.
pub open spec fn castle_rook_squares(to: int) -> (i32, i32) {
    if to == 6 {
        (7i32, 5i32)
    } else if to == 2 {
        (0i32, 3i32)
    } else if to == 62 {
        (63i32, 61i32)
    } else {
        (56i32, 59i32)
    }
}

/// The pawn removed by an en-passant capture: the one straight behind the
/// target square from the mover's point of view.
pub open spec fn ep_victim(stm: Colour, to: int) -> int {
    match stm {
        Colour::White => to - 8,
        Colour::Black => to + 8,
    }
}

/// What a candidate move must satisfy before it is applied. Candidate
/// generation establishes this; the board update relies on it.
pub open spec fn desc_wf(b: Board, d: MoveDesc) -> bool {
    let stm = b.side_to_move;
    let us = b.side(stm);
    let them = b.side(stm.spec_other());
    &&& valid_sq(d.from as int)
    &&& valid_sq(d.to as int)
    &&& d.from != d.to
    &&& d.piece.spec_colour() == stm
    &&& piece_on(us, d.piece, d.from as u64)
    &&& !us.has(d.to as u64)
    &&& !bb_has(them.king, d.to as u64)
    &&& match d.promotion {
        Some(p) => d.piece == Piece::Pawn(stm) && p.spec_colour() == stm && !(p is Pawn) && !(
        p is King) && sq_rank(d.to as int) == promo_rank(stm),
        None => !(d.piece is Pawn) || sq_rank(d.to as int) != promo_rank(stm),
    }
    &&& match d.kind {
        MoveType::Normal => true,
        MoveType::DoublePush => d.piece == Piece::Pawn(stm) && d.to == d.from + match stm {
            Colour::White => 16,
            Colour::Black => -16,
        },
        MoveType::EnPassant => d.piece == Piece::Pawn(stm) && b.ep < 64 && d.to == b.ep as i32
            && valid_sq(ep_victim(stm, d.to as int)) && !them.has(d.to as u64) && bb_has(
            them.pawns,
            ep_victim(stm, d.to as int) as u64,
        ),
        MoveType::CastleKingside => d.piece == Piece::King(stm) && d.from == (match stm {
            Colour::White => 4int,
            Colour::Black => 60int,
        }) && d.to == d.from + 2 && castle_desc_ok(b, true),
        MoveType::CastleQueenside => d.piece == Piece::King(stm) && d.from == (match stm {
            Colour::White => 4int,
            Colour::Black => 60int,
        }) && d.to == d.from - 2 && castle_desc_ok(b, false),
    }
}

/// The rank a pawn promotes on.
pub open spec fn promo_rank(c: Colour) -> int {
    match c {
        Colour::White => 7,
        Colour::Black => 0,
    }
}

/// The named piece stands on `sq` in its own bitboard.
pub open spec fn piece_on(s: SidePieces, p: Piece, sq: u64) -> bool {
    match p {
        Piece::King(_) => bb_has(s.king, sq),
        Piece::Queen(_) => bb_has(s.queens, sq),
        Piece::Rook(_) => bb_has(s.rooks, sq),
        Piece::Bishop(_) => bb_has(s.bishops, sq),
        Piece::Knight(_) => bb_has(s.knights, sq),
        Piece::Pawn(_) => bb_has(s.pawns, sq),
    }
}

/// The structural part of a castling candidate: the king and rook stand on
/// their home squares, the squares between are empty, the king's start and
/// crossing square are not attacked. The king's landing square is covered
/// by the ordinary legality filter.
pub open spec fn castle_desc_ok(b: Board, kingside: bool) -> bool {
    let stm = b.side_to_move;
    let us = b.side(stm);
    let home: int = match stm { Colour::White => 4, Colour::Black => 60 };
    let rook_home: int = if kingside {
        home + 3
    } else {
        home - 4
    };
    let cross: int = if kingside {
        home + 1
    } else {
        home - 1
    };
    let extra: int = if kingside {
        home + 2
    } else {
        home - 2
    };
    &&& (match stm {
        Colour::White => if kingside {
            b.castling.white_king
        } else {
            b.castling.white_queen
        },
        Colour::Black => if kingside {
            b.castling.black_king
        } else {
            b.castling.black_queen
        },
    })
    &&& bb_has(us.king, home as u64)
    &&& bb_has(us.rooks, rook_home as u64)
    &&& !bb_has(b.spec_occupancy(), cross as u64)
    &&& !bb_has(b.spec_occupancy(), extra as u64)
    &&& (!kingside ==> !bb_has(b.spec_occupancy(), (home - 3) as u64))
    &&& !attacks_square(b, stm.spec_other(), home)
    &&& !attacks_square(b, stm.spec_other(), cross)
}

/// The board after a candidate move, before the king-safety filter. The
/// halfmove clock resets on pawn moves and counts on everything else.
pub open spec fn spec_apply(b: Board, d: MoveDesc) -> Board {
    let stm = b.side_to_move;
    let us = b.side(stm);
    let them = b.side(stm.spec_other());
    let placed = match d.promotion {
        Some(p) => p,
        None => d.piece,
    };
    let us1 = side_place(side_remove(us, d.from as u64), placed, d.to as u64);
    let us2 = match d.kind {
        MoveType::CastleKingside | MoveType::CastleQueenside => {
            let (rf, rt) = castle_rook_squares(d.to as int);
            side_place(side_remove(us1, rf as u64), Piece::Rook(stm), rt as u64)
        },
        _ => us1,
    };
    let them2 = if d.kind is EnPassant {
        side_remove(them, ep_victim(stm, d.to as int) as u64)
    } else {
        side_remove(them, d.to as u64)
    };
    let castling = CastlingRights {
        white_king: b.castling.white_king && d.from != 4 && d.from != 7 && d.to != 7,
        white_queen: b.castling.white_queen && d.from != 4 && d.from != 0 && d.to != 0,
        black_king: b.castling.black_king && d.from != 60 && d.from != 63 && d.to != 63,
        black_queen: b.castling.black_queen && d.from != 60 && d.from != 56 && d.to != 56,
    };
    let ep = if d.kind is DoublePush {
        (((d.from + d.to) / 2) as u8)
    } else {
        EP_NONE
    };
    let halfmove = if d.piece is Pawn {
        0u32
    } else if b.halfmove < 0xffff_ffffu32 {
        (b.halfmove + 1) as u32
    } else {
        b.halfmove
    };
    let fullmove = if stm is Black && b.fullmove < 0xffff_ffffu32 {
        (b.fullmove + 1) as u32
    } else {
        b.fullmove
    };
    match stm {
        Colour::White => Board {
            white: us2,
            black: them2,
            side_to_move: Colour::Black,
            castling,
            ep,
            halfmove,
            fullmove,
        },
        Colour::Black => Board {
            white: them2,
            black: us2,
            side_to_move: Colour::White,
            castling,
            ep,
            halfmove,
            fullmove,
        },
    }
}

/// Applies a candidate move.
pub fn apply_move(b: &Board, d: &MoveDesc) -> (r: Board)
    requires
        b.playable(),
        desc_wf(*b, *d),
    ensures
        r == spec_apply(*b, *d),
        r.playable(),
        r.side_to_move == b.side_to_move.spec_other(),
        bb_count(r.side(b.side_to_move).king) == 1,
{
    let ghost gb = *b;
    let ghost gd = *d;
    let stm = b.side_to_move;
    let us = b.get_side(stm);
    let them = b.get_side(stm.other());
    let placed = match d.promotion {
        Some(p) => p,
        None => d.piece,
    };
    let us1 = side_place_exec(&side_remove_exec(&us, d.from as u64), placed, d.to as u64);
    let us2 = if matches!(d.kind, MoveType::CastleKingside | MoveType::CastleQueenside) {
        let (rf, rt) = if d.to == 6 {
            (7i32, 5i32)
        } else if d.to == 2 {
            (0i32, 3i32)
        } else if d.to == 62 {
            (63i32, 61i32)
        } else {
            (56i32, 59i32)
        };
        side_place_exec(&side_remove_exec(&us1, rf as u64), Piece::Rook(stm), rt as u64)
    } else {
        us1
    };
    let them2 = if matches!(d.kind, MoveType::EnPassant) {
        let victim = if stm == Colour::White {
            d.to - 8
        } else {
            d.to + 8
        };
        side_remove_exec(&them, victim as u64)
    } else {
        side_remove_exec(&them, d.to as u64)
    };
    let castling = CastlingRights {
        white_king: b.castling.white_king && d.from != 4 && d.from != 7 && d.to != 7,
        white_queen: b.castling.white_queen && d.from != 4 && d.from != 0 && d.to != 0,
        black_king: b.castling.black_king && d.from != 60 && d.from != 63 && d.to != 63,
        black_queen: b.castling.black_queen && d.from != 60 && d.from != 56 && d.to != 56,
    };
    let ep = if matches!(d.kind, MoveType::DoublePush) {
        ((d.from + d.to) / 2) as u8
    } else {
        EP_NONE
    };
    let halfmove = if matches!(d.piece, Piece::Pawn(_)) {
        0u32
    } else if b.halfmove < 0xffff_ffffu32 {
        b.halfmove + 1
    } else {
        b.halfmove
    };
    let fullmove = if stm == Colour::Black && b.fullmove < 0xffff_ffffu32 {
        b.fullmove + 1
    } else {
        b.fullmove
    };
    let r = match stm {
        Colour::White => Board {
            white: us2,
            black: them2,
            side_to_move: Colour::Black,
            castling,
            ep,
            halfmove,
            fullmove,
        },
        Colour::Black => Board {
            white: them2,
            black: us2,
            side_to_move: Colour::White,
            castling,
            ep,
            halfmove,
            fullmove,
        },
    };
    proof {
        lemma_apply_playable(gb, gd);
    }
    r
}

/// A candidate move on a playable board yields a playable board, and the
/// mover keeps exactly one king.
proof fn lemma_apply_playable(b: Board, d: MoveDesc)
    requires
        b.playable(),
        desc_wf(b, d),
    ensures
        spec_apply(b, d).playable(),
        spec_apply(b, d).side_to_move == b.side_to_move.spec_other(),
        bb_count(spec_apply(b, d).side(b.side_to_move).king) == 1,
{
    let stm = b.side_to_move;
    let us = b.side(stm);
    let them = b.side(stm.spec_other());
    let r = spec_apply(b, d);
    let rus = r.side(stm);
    let rthem = r.side(stm.spec_other());
    let placed = match d.promotion {
        Some(p) => p,
        None => d.piece,
    };
    let us1 = side_place(side_remove(us, d.from as u64), placed, d.to as u64);
    let is_castle = d.kind is CastleKingside || d.kind is CastleQueenside;

    // per-square piece counts stay at most one
    assert forall|sq: u64| sq < 64 implies rus.count_at(sq) + rthem.count_at(sq) <= 1 by {
        assert(us.count_at(sq) + them.count_at(sq) <= 1);
        lemma_side_remove_at(us, d.from as u64, sq);
        lemma_side_place_at(side_remove(us, d.from as u64), placed, d.to as u64, sq);
        assert(us.count_at(d.to as u64) == 0);
        if is_castle {
            let (rf, rt) = castle_rook_squares(d.to as int);
            lemma_side_remove_at(us1, rf as u64, sq);
            lemma_side_place_at(side_remove(us1, rf as u64), Piece::Rook(stm), rt as u64, sq);
            // the rook lands on the square the king crossed, which the
            // castling conditions require to be empty
            assert(castle_desc_ok(b, d.kind is CastleKingside));
            assert(us.count_at(rt as u64) == 0 && them.count_at(rt as u64) == 0);
            assert(us1.count_at(rt as u64) == 0);
        }
        if d.kind is EnPassant {
            lemma_side_remove_at(them, ep_victim(stm, d.to as int) as u64, sq);
            assert(them.count_at(d.to as u64) == 0);
        } else {
            lemma_side_remove_at(them, d.to as u64, sq);
        }
    }

    // the mover's king count is preserved
    if d.piece is King {
        assert(bb_has(us.king, d.from as u64));
        lemma_bb_count_without(us.king, d.from as u64);
        lemma_bb_count_with(bb_without(us.king, d.from as u64), d.to as u64);
        assert(!bb_has(us.king, d.to as u64)) by {
            assert(!us.has(d.to as u64));
        }
        assert(bb_count(us1.king) == 1);
        if is_castle {
            let (rf, rt) = castle_rook_squares(d.to as int);
            // the rook's shuffle does not touch the king's bitboard
            assert(!bb_has(us1.king, rf as u64)) by {
                assert(us.count_at(rf as u64) <= 1);
                assert(castle_desc_ok(b, d.kind is CastleKingside));
            }
            assert(rus.king == bb_without(us1.king, rf as u64));
            lemma_bb_count_without(us1.king, rf as u64);
        }
    } else {
        // the king board is untouched: the king does not stand on any of the
        // squares the move clears or fills
        assert(!bb_has(us.king, d.from as u64)) by {
            assert(us.count_at(d.from as u64) <= 1);
            assert(piece_on(us, d.piece, d.from as u64));
        }
        assert(rus.king == us.king) by {
            assert(!(placed is King));
            assert(rus.king == bb_without(us.king, d.from as u64));
            assert forall|j: u64| j < 64 implies bb_has(rus.king, j) == bb_has(us.king, j) by {}
            lemma_bb_ext(rus.king, us.king);
        }
    }

    // the opponent's king count is preserved: no candidate captures a king
    assert(rthem.king == them.king) by {
        if d.kind is EnPassant {
            let v = ep_victim(stm, d.to as int) as u64;
            assert(!bb_has(them.king, v)) by {
                assert(them.count_at(v) <= 1);
            }
            assert(rthem.king == bb_without(them.king, v));
        } else {
            assert(!bb_has(them.king, d.to as u64));
            assert(rthem.king == bb_without(them.king, d.to as u64));
        }
        assert forall|j: u64| j < 64 implies bb_has(rthem.king, j) == bb_has(them.king, j) by {}
        lemma_bb_ext(rthem.king, them.king);
    }
}


// --- candidate generation --------------------------------------------------
/// The pawn's starting rank.
pub open spec fn pawn_start_rank(c: Colour) -> int {
    match c {
        Colour::White => 1,
        Colour::Black => 6,
    }
}

pub open spec fn pawn_forward(c: Colour) -> int {
    match c {
        Colour::White => 8,
        Colour::Black => -8,
    }
}

pub open spec fn mk_desc(piece: Piece, from: int, to: int, promotion: Option<Piece>, kind: MoveType) -> MoveDesc {
    MoveDesc { piece, from: from as i32, to: to as i32, promotion, kind }
}

/// The moves a pawn move to `to` expands to: four promotions on the last
/// rank, queen first, otherwise the single move.
pub open spec fn pawn_expand(stm: Colour, from: int, to: int, kind: MoveType) -> Seq<MoveDesc> {
    if sq_rank(to) == promo_rank(stm) {
        seq![
            mk_desc(Piece::Pawn(stm), from, to, Some(Piece::Queen(stm)), kind),
            mk_desc(Piece::Pawn(stm), from, to, Some(Piece::Rook(stm)), kind),
            mk_desc(Piece::Pawn(stm), from, to, Some(Piece::Bishop(stm)), kind),
            mk_desc(Piece::Pawn(stm), from, to, Some(Piece::Knight(stm)), kind),
        ]
    } else {
        seq![mk_desc(Piece::Pawn(stm), from, to, None, kind)]
    }
}

/// Candidate pawn moves from `from` to `to`.
pub open spec fn pawn_cand(b: Board, from: int, to: int) -> Seq<MoveDesc> {
    let stm = b.side_to_move;
    let them = b.side(stm.spec_other());
    let occ = b.spec_occupancy();
    let fwd = pawn_forward(stm);
    if to == from + fwd && !bb_has(occ, to as u64) {
        pawn_expand(stm, from, to, MoveType::Normal)
    } else if to == from + 2 * fwd && sq_rank(from) == pawn_start_rank(stm) && !bb_has(
        occ,
        (from + fwd) as u64,
    ) && !bb_has(occ, to as u64) {
        seq![mk_desc(Piece::Pawn(stm), from, to, None, MoveType::DoublePush)]
    } else if pawn_attack(stm, from, to) && them.has(to as u64) && !bb_has(them.king, to as u64) {
        pawn_expand(stm, from, to, MoveType::Normal)
    } else if pawn_attack(stm, from, to) && b.ep < 64 && to == b.ep as int && sq_rank(to) == (
    match stm {
        Colour::White => 5int,
        Colour::Black => 2int,
    }) && !bb_has(occ, to as u64) && valid_sq(ep_victim(stm, to)) && bb_has(
        them.pawns,
        ep_victim(stm, to) as u64,
    ) {
        seq![mk_desc(Piece::Pawn(stm), from, to, None, MoveType::EnPassant)]
    } else {
        Seq::<MoveDesc>::empty()
    }
}

/// The candidate moves from `from` to `to`, by the piece standing on `from`.
pub open spec fn cand_at(b: Board, from: int, to: int) -> Seq<MoveDesc> {
    let stm = b.side_to_move;
    let us = b.side(stm);
    let them = b.side(stm.spec_other());
    let occ = b.spec_occupancy();
    let free = !us.has(to as u64) && !bb_has(them.king, to as u64);
    if bb_has(us.pawns, from as u64) {
        pawn_cand(b, from, to)
    } else if bb_has(us.knights, from as u64) {
        if knight_move(from, to) && free {
            seq![mk_desc(Piece::Knight(stm), from, to, None, MoveType::Normal)]
        } else {
            Seq::<MoveDesc>::empty()
        }
    } else if bb_has(us.bishops, from as u64) {
        if diag_reach(occ, from, to) && free {
            seq![mk_desc(Piece::Bishop(stm), from, to, None, MoveType::Normal)]
        } else {
            Seq::<MoveDesc>::empty()
        }
    } else if bb_has(us.rooks, from as u64) {
        if line_reach(occ, from, to) && free {
            seq![mk_desc(Piece::Rook(stm), from, to, None, MoveType::Normal)]
        } else {
            Seq::<MoveDesc>::empty()
        }
    } else if bb_has(us.queens, from as u64) {
        if (diag_reach(occ, from, to) || line_reach(occ, from, to)) && free {
            seq![mk_desc(Piece::Queen(stm), from, to, None, MoveType::Normal)]
        } else {
            Seq::<MoveDesc>::empty()
        }
    } else if bb_has(us.king, from as u64) {
        if king_move(from, to) && free {
            seq![mk_desc(Piece::King(stm), from, to, None, MoveType::Normal)]
        } else {
            Seq::<MoveDesc>::empty()
        }
    } else {
        Seq::<MoveDesc>::empty()
    }
}

pub open spec fn cands_to_upto(b: Board, from: int, n: int) -> Seq<MoveDesc>
    decreases n,
{
    if n <= 0 {
        Seq::<MoveDesc>::empty()
    } else {
        cands_to_upto(b, from, n - 1) + cand_at(b, from, n - 1)
    }
}

pub open spec fn cands_from_upto(b: Board, n: int) -> Seq<MoveDesc>
    decreases n,
{
    if n <= 0 {
        Seq::<MoveDesc>::empty()
    } else {
        cands_from_upto(b, n - 1) + cands_to_upto(b, n - 1, 64)
    }
}

/// Castling candidates, kingside first.
pub open spec fn castle_cands(b: Board) -> Seq<MoveDesc> {
    let stm = b.side_to_move;
    let home: int = match stm {
        Colour::White => 4,
        Colour::Black => 60,
    };
    (if castle_desc_ok(b, true) {
        seq![mk_desc(Piece::King(stm), home, home + 2, None, MoveType::CastleKingside)]
    } else {
        Seq::<MoveDesc>::empty()
    }) + (if castle_desc_ok(b, false) {
        seq![mk_desc(Piece::King(stm), home, home - 2, None, MoveType::CastleQueenside)]
    } else {
        Seq::<MoveDesc>::empty()
    })
}

/// Every candidate move of the position, in generation order.
pub open spec fn all_cands(b: Board) -> Seq<MoveDesc> {
    cands_from_upto(b, 64) + castle_cands(b)
}

/// The mover's king square.
pub open spec fn king_square(b: Board, c: Colour) -> int {
    bb_first(b.side(c).king) as int
}

/// The named side's king is attacked.
pub open spec fn in_check_spec(b: Board, c: Colour) -> bool {
    attacks_square(b, c.spec_other(), king_square(b, c))
}

/// A candidate survives the legality filter when the mover's king is safe
/// afterwards.
pub open spec fn keep_move(b: Board, d: MoveDesc) -> bool {
    !in_check_spec(spec_apply(b, d), b.side_to_move)
}

pub open spec fn mk_move(b: Board, d: MoveDesc) -> ChessMove {
    ChessMove {
        piece: d.piece,
        origin: d.from,
        dest: d.to,
        promotion: d.promotion,
        kind: d.kind,
        board: spec_apply(b, d),
    }
}

pub open spec fn legal_pre(b: Board, s: Seq<MoveDesc>, n: int) -> Seq<ChessMove>
    decreases n,
{
    if n <= 0 {
        Seq::<ChessMove>::empty()
    } else {
        legal_pre(b, s, n - 1) + if keep_move(b, s[n - 1]) {
            seq![mk_move(b, s[n - 1])]
        } else {
            Seq::<ChessMove>::empty()
        }
    }
}

/// The legal moves of the position, in a deterministic order.
pub open spec fn legal_moves(b: Board) -> Seq<ChessMove> {
    legal_pre(b, all_cands(b), all_cands(b).len() as int)
}

// --- every candidate is well-formed ----------------------------------------
proof fn lemma_cand_at_wf(b: Board, from: int, to: int)
    requires
        b.playable(),
        valid_sq(from),
        valid_sq(to),
    ensures
        forall|i: int|
            0 <= i < cand_at(b, from, to).len() ==> desc_wf(b, #[trigger] cand_at(b, from, to)[i]),
{
    let stm = b.side_to_move;
    let us = b.side(stm);
    let them = b.side(stm.spec_other());
    let occ = b.spec_occupancy();
    let cs = cand_at(b, from, to);
    assert(us.count_at(to as u64) + them.count_at(to as u64) <= 1);
    assert(us.count_at(from as u64) + them.count_at(from as u64) <= 1);
    assert forall|i: int| 0 <= i < cs.len() implies desc_wf(b, #[trigger] cs[i]) by {
        let d = cs[i];
        if them.has(to as u64) {
            assert(them.count_at(to as u64) >= 1);
            assert(!us.has(to as u64));
        }
        if !bb_has(occ, to as u64) {
            assert(!us.has(to as u64) && !them.has(to as u64));
            assert(!bb_has(them.king, to as u64));
        }
        if bb_has(us.pawns, from as u64) {
            let fwd = pawn_forward(stm);
            if to == from + fwd && !bb_has(occ, to as u64) {
                assert(cs == pawn_expand(stm, from, to, MoveType::Normal));
                assert(sq_rank(to) != sq_rank(from));
            } else if to == from + 2 * fwd && sq_rank(from) == pawn_start_rank(stm) && !bb_has(
                occ,
                (from + fwd) as u64,
            ) && !bb_has(occ, to as u64) {
                assert(sq_rank(to) != promo_rank(stm));
            } else if pawn_attack(stm, from, to) && them.has(to as u64) && !bb_has(
                them.king,
                to as u64,
            ) {
                assert(cs == pawn_expand(stm, from, to, MoveType::Normal));
            } else {
            }
        }
    }
}

proof fn lemma_cands_to_upto_wf(b: Board, from: int, n: int)
    requires
        b.playable(),
        valid_sq(from),
        0 <= n <= 64,
    ensures
        forall|i: int|
            0 <= i < cands_to_upto(b, from, n).len() ==> desc_wf(
                b,
                #[trigger] cands_to_upto(b, from, n)[i],
            ),
    decreases n,
{
    if n > 0 {
        lemma_cands_to_upto_wf(b, from, n - 1);
        lemma_cand_at_wf(b, from, n - 1);
        let s1 = cands_to_upto(b, from, n - 1);
        let s2 = cand_at(b, from, n - 1);
        assert forall|i: int|
            0 <= i < cands_to_upto(b, from, n).len() implies desc_wf(
            b,
            #[trigger] cands_to_upto(b, from, n)[i],
        ) by {
            assert(cands_to_upto(b, from, n) == s1 + s2);
            if i < s1.len() {
                assert(cands_to_upto(b, from, n)[i] == s1[i]);
            } else {
                assert(cands_to_upto(b, from, n)[i] == s2[i - s1.len()]);
            }
        }
    }
}

proof fn lemma_cands_from_upto_wf(b: Board, n: int)
    requires
        b.playable(),
        0 <= n <= 64,
    ensures
        forall|i: int|
            0 <= i < cands_from_upto(b, n).len() ==> desc_wf(b, #[trigger] cands_from_upto(b, n)[i]),
    decreases n,
{
    if n > 0 {
        lemma_cands_from_upto_wf(b, n - 1);
        lemma_cands_to_upto_wf(b, n - 1, 64);
        let s1 = cands_from_upto(b, n - 1);
        let s2 = cands_to_upto(b, n - 1, 64);
        assert forall|i: int|
            0 <= i < cands_from_upto(b, n).len() implies desc_wf(
            b,
            #[trigger] cands_from_upto(b, n)[i],
        ) by {
            assert(cands_from_upto(b, n) == s1 + s2);
            if i < s1.len() {
                assert(cands_from_upto(b, n)[i] == s1[i]);
            } else {
                assert(cands_from_upto(b, n)[i] == s2[i - s1.len()]);
            }
        }
    }
}

proof fn lemma_castle_cands_wf(b: Board)
    requires
        b.playable(),
    ensures
        forall|i: int|
            0 <= i < castle_cands(b).len() ==> desc_wf(b, #[trigger] castle_cands(b)[i]),
{
    let stm = b.side_to_move;
    let home: int = match stm {
        Colour::White => 4,
        Colour::Black => 60,
    };
    if castle_desc_ok(b, true) {
        assert(b.side(stm).count_at((home + 2) as u64) + b.side(stm.spec_other()).count_at(
            (home + 2) as u64,
        ) <= 1);
    }
    if castle_desc_ok(b, false) {
        assert(b.side(stm).count_at((home - 2) as u64) + b.side(stm.spec_other()).count_at(
            (home - 2) as u64,
        ) <= 1);
    }
}

/// Every candidate of a playable position is well-formed.
proof fn lemma_all_cands_wf(b: Board)
    requires
        b.playable(),
    ensures
        forall|i: int| 0 <= i < all_cands(b).len() ==> desc_wf(b, #[trigger] all_cands(b)[i]),
{
    lemma_cands_from_upto_wf(b, 64);
    lemma_castle_cands_wf(b);
    let s1 = cands_from_upto(b, 64);
    let s2 = castle_cands(b);
    assert forall|i: int|
        0 <= i < all_cands(b).len() implies desc_wf(b, #[trigger] all_cands(b)[i]) by {
        assert(all_cands(b) == s1 + s2);
        if i < s1.len() {
            assert(all_cands(b)[i] == s1[i]);
        } else {
            assert(all_cands(b)[i] == s2[i - s1.len()]);
        }
    }
}

// --- executable generation -------------------------------------------------
/// Pushes the expansion of one pawn move: four promotions on the last rank,
/// else the move itself.
fn push_pawn_set(stm: Colour, from: i32, to: i32, kind: MoveType, v: &mut Vec<MoveDesc>)
    requires
        valid_sq(from as int),
        valid_sq(to as int),
    ensures
        final(v)@ == old(v)@ + pawn_expand(stm, from as int, to as int, kind),
{
    let promo = if stm == Colour::White {
        to / 8 == 7
    } else {
        to / 8 == 0
    };
    if promo {
        v.push(MoveDesc { piece: Piece::Pawn(stm), from, to, promotion: Some(Piece::Queen(stm)), kind });
        v.push(MoveDesc { piece: Piece::Pawn(stm), from, to, promotion: Some(Piece::Rook(stm)), kind });
        v.push(MoveDesc { piece: Piece::Pawn(stm), from, to, promotion: Some(Piece::Bishop(stm)), kind });
        v.push(MoveDesc { piece: Piece::Pawn(stm), from, to, promotion: Some(Piece::Knight(stm)), kind });
        proof {
            assert(v@ =~= old(v)@ + pawn_expand(stm, from as int, to as int, kind));
        }
    } else {
        v.push(MoveDesc { piece: Piece::Pawn(stm), from, to, promotion: None, kind });
        proof {
            assert(v@ =~= old(v)@ + pawn_expand(stm, from as int, to as int, kind));
        }
    }
}

/// Pushes the candidate moves from `from` to `to`.
fn push_cands_at(b: &Board, from: i32, to: i32, v: &mut Vec<MoveDesc>)
    requires
        valid_sq(from as int),
        valid_sq(to as int),
    ensures
        final(v)@ == old(v)@ + cand_at(*b, from as int, to as int),
{
    let ghost gfrom = from as int;
    let ghost gto = to as int;
    let stm = b.side_to_move();
    let us = b.get_side(stm);
    let them = b.get_side(stm.other());
    let occ = b.occupancy();
    let free = !bb_test(us.occupied(), to as u64) && !bb_test(them.king, to as u64);
    if bb_test(us.pawns, from as u64) {
        let fwd: i32 = if stm == Colour::White {
            8
        } else {
            -8
        };
        let start_ok = if stm == Colour::White {
            from / 8 == 1
        } else {
            from / 8 == 6
        };
        if to == from + fwd && !bb_test(occ, to as u64) {
            push_pawn_set(stm, from, to, MoveType::Normal, v);
        } else if to == from + 2 * fwd && start_ok && !bb_test(occ, (from + fwd) as u64)
            && !bb_test(occ, to as u64) {
            v.push(MoveDesc { piece: Piece::Pawn(stm), from, to, promotion: None, kind: MoveType::DoublePush });
            proof {
                assert(v@ =~= old(v)@ + cand_at(*b, gfrom, gto));
            }
        } else if is_pawn_attack(stm, from, to) && bb_test(them.occupied(), to as u64) && !bb_test(
            them.king,
            to as u64,
        ) {
            push_pawn_set(stm, from, to, MoveType::Normal, v);
        } else if is_pawn_attack(stm, from, to) && b.ep < 64 && to == b.ep as i32 && to / 8 == (
        if stm == Colour::White {
            5
        } else {
            2
        }) && !bb_test(occ, to as u64) {
            let victim = if stm == Colour::White {
                to - 8
            } else {
                to + 8
            };
            if 0 <= victim && victim < 64 && bb_test(them.pawns, victim as u64) {
                v.push(MoveDesc { piece: Piece::Pawn(stm), from, to, promotion: None, kind: MoveType::EnPassant });
                proof {
                    assert(v@ =~= old(v)@ + cand_at(*b, gfrom, gto));
                }
            } else {
                proof {
                    assert(v@ =~= old(v)@ + cand_at(*b, gfrom, gto));
                }
            }
        } else {
            proof {
                assert(v@ =~= old(v)@ + cand_at(*b, gfrom, gto));
            }
        }
    } else if bb_test(us.knights, from as u64) {
        if is_knight_move(from, to) && free {
            v.push(MoveDesc { piece: Piece::Knight(stm), from, to, promotion: None, kind: MoveType::Normal });
        }
        proof {
            assert(v@ =~= old(v)@ + cand_at(*b, gfrom, gto));
        }
    } else if bb_test(us.bishops, from as u64) {
        if reaches_diag(occ, from, to) && free {
            v.push(MoveDesc { piece: Piece::Bishop(stm), from, to, promotion: None, kind: MoveType::Normal });
        }
        proof {
            assert(v@ =~= old(v)@ + cand_at(*b, gfrom, gto));
        }
    } else if bb_test(us.rooks, from as u64) {
        if reaches_line(occ, from, to) && free {
            v.push(MoveDesc { piece: Piece::Rook(stm), from, to, promotion: None, kind: MoveType::Normal });
        }
        proof {
            assert(v@ =~= old(v)@ + cand_at(*b, gfrom, gto));
        }
    } else if bb_test(us.queens, from as u64) {
        if (reaches_diag(occ, from, to) || reaches_line(occ, from, to)) && free {
            v.push(MoveDesc { piece: Piece::Queen(stm), from, to, promotion: None, kind: MoveType::Normal });
        }
        proof {
            assert(v@ =~= old(v)@ + cand_at(*b, gfrom, gto));
        }
    } else if bb_test(us.king, from as u64) {
        if is_king_move(from, to) && free {
            v.push(MoveDesc { piece: Piece::King(stm), from, to, promotion: None, kind: MoveType::Normal });
        }
        proof {
            assert(v@ =~= old(v)@ + cand_at(*b, gfrom, gto));
        }
    } else {
        proof {
            assert(v@ =~= old(v)@ + cand_at(*b, gfrom, gto));
        }
    }
}

/// Whether the given side may castle, with all structural conditions.
fn castle_ok(b: &Board, kingside: bool) -> (r: bool)
    requires
        b.playable(),
    ensures
        r == castle_desc_ok(*b, kingside),
{
    let stm = b.side_to_move();
    let us = b.get_side(stm);
    let occ = b.occupancy();
    let home: i32 = if stm == Colour::White {
        4
    } else {
        60
    };
    let rook_home = if kingside {
        home + 3
    } else {
        home - 4
    };
    let cross = if kingside {
        home + 1
    } else {
        home - 1
    };
    let extra = if kingside {
        home + 2
    } else {
        home - 2
    };
    let right = match stm {
        Colour::White => if kingside {
            b.castling.white_king
        } else {
            b.castling.white_queen
        },
        Colour::Black => if kingside {
            b.castling.black_king
        } else {
            b.castling.black_queen
        },
    };
    right && bb_test(us.king, home as u64) && bb_test(us.rooks, rook_home as u64) && !bb_test(
        occ,
        cross as u64,
    ) && !bb_test(occ, extra as u64) && (kingside || !bb_test(occ, (home - 3) as u64))
        && !square_attacked(b, stm.other(), home) && !square_attacked(b, stm.other(), cross)
}

fn push_castles(b: &Board, v: &mut Vec<MoveDesc>)
    requires
        b.playable(),
    ensures
        final(v)@ == old(v)@ + castle_cands(*b),
{
    let stm = b.side_to_move();
    let home: i32 = if stm == Colour::White {
        4
    } else {
        60
    };
    if castle_ok(b, true) {
        v.push(MoveDesc { piece: Piece::King(stm), from: home, to: home + 2, promotion: None, kind: MoveType::CastleKingside });
    }
    if castle_ok(b, false) {
        v.push(MoveDesc { piece: Piece::King(stm), from: home, to: home - 2, promotion: None, kind: MoveType::CastleQueenside });
    }
    proof {
        assert(v@ =~= old(v)@ + castle_cands(*b));
    }
}

impl Board {
    /// Whether the named side's king is attacked.
    pub fn in_check(&self, c: Colour) -> (r: bool)
        requires
            self.playable(),
        ensures
            r == in_check_spec(*self, c),
    {
        let king_bb = self.get_side(c).king;
        proof {
            crate::board::lemma_bb_count_pos(king_bb, 64);
            crate::board::lemma_bb_first_from(king_bb, 0);
        }
        let k = bb_lowest(king_bb);
        square_attacked(self, c.other(), k as i32)
    }

    /// All legal moves of the position, in a deterministic order: origin
    /// squares ascending, target squares ascending, promotions queen first,
    /// castling last.
    pub fn generate_legal_moves(&self) -> (r: Vec<ChessMove>)
        requires
            self.playable(),
        ensures
            r@ == legal_moves(*self),
            forall|i: int|
                0 <= i < r@.len() ==> (#[trigger] r@[i]).board.playable()
                    && r@[i].board.side_to_move == self.side_to_move.spec_other()
                    && crate::square::valid_sq(r@[i].origin as int) && crate::square::valid_sq(
                    r@[i].dest as int,
                ),
    {
        let ghost b = *self;
        let mut cands: Vec<MoveDesc> = Vec::new();
        let mut from: i32 = 0;
        while from < 64
            invariant
                0 <= from <= 64,
                cands@ == cands_from_upto(b, from as int),
                b == *self,
            decreases 64 - from,
        {
            let mut to: i32 = 0;
            while to < 64
                invariant
                    0 <= from < 64,
                    0 <= to <= 64,
                    cands@ == cands_from_upto(b, from as int) + cands_to_upto(
                        b,
                        from as int,
                        to as int,
                    ),
                    b == *self,
                decreases 64 - to,
            {
                push_cands_at(self, from, to, &mut cands);
                to += 1;
            }
            from += 1;
        }
        push_castles(self, &mut cands);
        proof {
            assert(cands@ == all_cands(b));
            lemma_all_cands_wf(b);
        }

        let stm = self.side_to_move();
        let other = stm.other();
        let mut out: Vec<ChessMove> = Vec::new();
        let mut i: usize = 0;
        while i < cands.len()
            invariant
                0 <= i <= cands@.len(),
                cands@ == all_cands(b),
                b == *self,
                b.playable(),
                stm == b.side_to_move,
                other == stm.spec_other(),
                forall|k: int| 0 <= k < cands@.len() ==> desc_wf(b, #[trigger] cands@[k]),
                out@ == legal_pre(b, cands@, i as int),
                forall|k: int|
                    0 <= k < out@.len() ==> (#[trigger] out@[k]).board.playable()
                        && out@[k].board.side_to_move == stm.spec_other() && crate::square::valid_sq(
                        out@[k].origin as int,
                    ) && crate::square::valid_sq(out@[k].dest as int),
            decreases cands@.len() - i,
        {
            let d = cands[i];
            let nb = apply_move(self, &d);
            proof {
                crate::board::lemma_bb_count_pos(nb.side(stm).king, 64);
                crate::board::lemma_bb_first_from(nb.side(stm).king, 0);
            }
            let k = bb_lowest(nb.get_side(stm).king);
            if !square_attacked(&nb, other, k as i32) {
                out.push(
                    ChessMove {
                        piece: d.piece,
                        origin: d.from,
                        dest: d.to,
                        promotion: d.promotion,
                        kind: d.kind,
                        board: nb,
                    },
                );
                proof {
                    assert(out@ =~= legal_pre(b, cands@, i + 1));
                }
            } else {
                proof {
                    assert(out@ =~= legal_pre(b, cands@, i + 1));
                }
            }
            i += 1;
        }
        out
    }
}

// --- game state ------------------------------------------------------------
#[derive(Debug, Clone, Copy, PartialEq, Eq, Structural, Hash)]
pub enum ReasonWin {
    Checkmate,
}

#[derive(Debug, Clone, Copy, PartialEq, Eq, Structural, Hash)]
pub enum ReasonDraw {
    Stalemate,
}

#[derive(Debug, Clone, Copy, PartialEq, Eq, Structural, Hash)]
pub enum FinishedState {
    Win(Colour, ReasonWin),
    Draw(ReasonDraw),
}

#[derive(Debug, Clone, Copy, PartialEq, Eq, Structural, Hash)]
pub enum GameState {
    Ongoing,
    Finished(FinishedState),
}

/// The game state, given how many legal moves the side to move has: with a
/// move the game goes on; without one it is checkmate when the king is
/// attacked, stalemate otherwise.
pub open spec fn spec_game_state(b: Board, mobility: int) -> GameState {
    if mobility > 0 {
        GameState::Ongoing
    } else if in_check_spec(b, b.side_to_move) {
        GameState::Finished(FinishedState::Win(b.side_to_move.spec_other(), ReasonWin::Checkmate))
    } else {
        GameState::Finished(FinishedState::Draw(ReasonDraw::Stalemate))
    }
}

impl Board {
    /// The game state given a legal-move count the caller already knows.
    pub fn get_unchecked_game_state(&self, mobility: usize) -> (r: GameState)
        requires
            self.playable(),
        ensures
            r == spec_game_state(*self, mobility as int),
    {
        if mobility > 0 {
            GameState::Ongoing
        } else if self.in_check(self.side_to_move()) {
            GameState::Finished(
                FinishedState::Win(self.side_to_move().other(), ReasonWin::Checkmate),
            )
        } else {
            GameState::Finished(FinishedState::Draw(ReasonDraw::Stalemate))
        }
    }

    /// The game state of the position.
    pub fn get_game_state(&self) -> (r: GameState)
        requires
            self.playable(),
        ensures
            r == spec_game_state(*self, legal_moves(*self).len() as int),
    {
        let moves = self.generate_legal_moves();
        self.get_unchecked_game_state(moves.len())
    }
}

} // verus!
