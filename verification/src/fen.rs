//! The FEN codec: a position serializes to the standard six-field notation,
//! and a notation string parses back to a well-formed position. The
//! serializer's output is pinned exactly by `fen_chars`; the parser accepts
//! the notations the engine exchanges and rejects anything malformed.
use vstd::prelude::*;

use crate::board::{
    bb_has, bb_test, bb_with, Board, CastlingRights, Colour, SidePieces, EP_NONE,
};
use crate::error::ChessError;
use crate::evaluation::piece_sel_at;
use crate::square::{sq_file, sq_rank, valid_sq};

verus! {

pub const EMPTY_BOARD: &'static str = "8/8/8/8/8/8/8/8 w - - 0 1";

pub const START_POSITION: &'static str = "rnbqkbnr/pppppppp/8/8/8/8/PPPPPPPP/RNBQKBNR w KQkq - 0 1";

pub const CASTLE_KINGSIDE_POSITION: &'static str =
    "rnbqk2r/pppppppp/8/8/8/8/PPPPPPPP/RNBQK2R w KQkq - 0 1";

pub const CASTLE_QUEENSIDE_POSITION: &'static str =
    "r3kbnr/pppppppp/8/8/8/8/PPPPPPPP/R3KBNR w KQkq - 0 1";

pub const PROMOTION_POSITION: &'static str = "4k3/1P6/2P5/8/8/8/8/4K3 w - - 0 1";

pub const CHECK_POSITION: &'static str = "4k3/1P6/2P5/8/8/8/5p2/4K3 w - - 0 1";

pub const TRICKY_POSITION: &'static str =
    "r3k2r/p1ppqpb1/bn2pnp1/3PN3/1p2P3/2N2Q1p/PPPBBPPP/R3K2R w KQkq - 0 1";

pub const KILLER_POSITION: &'static str =
    "rnbqkb1r/pp1p1pPp/8/2p1pP2/1P1P4/3P3P/P1P1P3/RNBQKBNR w KQkq e6 0 1";

pub const CMK_POSITION: &'static str =
    "r2q1rk1/ppp2ppp/2n1bn2/2b1p3/3pP3/3P1NPP/PPP1NPB1/R1BQ1RK1 b - - 0 9";

/// The digit character for a value 0 through 9.
pub open spec fn digit_char(d: int) -> char {
    ((48 + d) as u8) as char
}

/// The piece letter on a square, upper case for White.
pub open spec fn piece_char(b: Board, sq: int) -> char {
    let w = piece_sel_at(b.white, sq);
    let bl = piece_sel_at(b.black, sq);
    if w == 0 {
        'P'
    } else if w == 1 {
        'N'
    } else if w == 2 {
        'B'
    } else if w == 3 {
        'R'
    } else if w == 4 {
        'Q'
    } else if w == 5 {
        'K'
    } else if bl == 0 {
        'p'
    } else if bl == 1 {
        'n'
    } else if bl == 2 {
        'b'
    } else if bl == 3 {
        'r'
    } else if bl == 4 {
        'q'
    } else if bl == 5 {
        'k'
    } else {
        '-'
    }
}

pub open spec fn sq_empty(b: Board, sq: int) -> bool {
    piece_sel_at(b.white, sq) == 6 && piece_sel_at(b.black, sq) == 6
}

/// One rank of the placement field, with runs of empty squares counted.
pub open spec fn rank_fold(b: Board, rank: int, file: int, pending: int) -> Seq<char>
    decreases 8 - file,
    when 0 <= file <= 8
{
    if file == 8 {
        if pending > 0 {
            seq![digit_char(pending)]
        } else {
            Seq::<char>::empty()
        }
    } else {
        let sq = rank * 8 + file;
        if sq_empty(b, sq) {
            rank_fold(b, rank, file + 1, pending + 1)
        } else {
            (if pending > 0 {
                seq![digit_char(pending)]
            } else {
                Seq::<char>::empty()
            }) + seq![piece_char(b, sq)] + rank_fold(b, rank, file + 1, 0)
        }
    }
}

pub open spec fn rank_chars(b: Board, rank: int) -> Seq<char> {
    rank_fold(b, rank, 0, 0)
}

/// The placement field from the given rank down, ranks joined by '/'.
pub open spec fn ranks_from(b: Board, r: int) -> Seq<char>
    decreases r + 1,
    when r >= 0
{
    if r == 0 {
        rank_chars(b, 0)
    } else {
        rank_chars(b, r) + seq!['/'] + ranks_from(b, r - 1)
    }
}

pub open spec fn castling_chars(c: CastlingRights) -> Seq<char> {
    if !c.white_king && !c.white_queen && !c.black_king && !c.black_queen {
        seq!['-']
    } else {
        (if c.white_king {
            seq!['K']
        } else {
            Seq::<char>::empty()
        }) + (if c.white_queen {
            seq!['Q']
        } else {
            Seq::<char>::empty()
        }) + (if c.black_king {
            seq!['k']
        } else {
            Seq::<char>::empty()
        }) + (if c.black_queen {
            seq!['q']
        } else {
            Seq::<char>::empty()
        })
    }
}

pub open spec fn ep_chars(b: Board) -> Seq<char> {
    if b.ep >= 64 {
        seq!['-']
    } else {
        seq![
            crate::square::spec_file_char(b.ep as int),
            crate::square::spec_rank_char(b.ep as int),
        ]
    }
}

/// A number in decimal, most significant digit first.
pub open spec fn dec_chars(n: int) -> Seq<char>
    decreases n,
    when n >= 0
{
    if n < 10 {
        seq![digit_char(n)]
    } else {
        dec_chars(n / 10) + seq![digit_char(n % 10)]
    }
}

/// The full FEN text of a position.
pub open spec fn fen_chars(b: Board) -> Seq<char> {
    ranks_from(b, 7) + seq![' '] + seq![
        match b.side_to_move {
            Colour::White => 'w',
            Colour::Black => 'b',
        },
    ] + seq![' '] + castling_chars(b.castling) + seq![' '] + ep_chars(b) + seq![' '] + dec_chars(
        b.halfmove as int,
    ) + seq![' '] + dec_chars(b.fullmove as int)
}

/// A character the serializer can emit.
pub open spec fn fen_char(c: char) -> bool {
    ||| ('0' <= c <= '9')
    ||| ('a' <= c <= 'h')
    ||| c == 'p' || c == 'n' || c == 'r' || c == 'q' || c == 'k'
    ||| c == 'P' || c == 'N' || c == 'B' || c == 'R' || c == 'Q' || c == 'K'
    ||| c == '/' || c == ' ' || c == '-' || c == 'w'
}


/// Appends one FEN character to the string.
fn push_char(s: &mut String, c: char)
    requires
        fen_char(c),
    ensures
        final(s)@ == old(s)@.push(c),
{
    match c {
        '0' => {
            proof {
                reveal_strlit("0");
                assert("0"@ =~= seq!['0']);
            }
            s.append("0");
        },
        '1' => {
            proof {
                reveal_strlit("1");
                assert("1"@ =~= seq!['1']);
            }
            s.append("1");
        },
        '2' => {
            proof {
                reveal_strlit("2");
                assert("2"@ =~= seq!['2']);
            }
            s.append("2");
        },
        '3' => {
            proof {
                reveal_strlit("3");
                assert("3"@ =~= seq!['3']);
            }
            s.append("3");
        },
        '4' => {
            proof {
                reveal_strlit("4");
                assert("4"@ =~= seq!['4']);
            }
            s.append("4");
        },
        '5' => {
            proof {
                reveal_strlit("5");
                assert("5"@ =~= seq!['5']);
            }
            s.append("5");
        },
        '6' => {
            proof {
                reveal_strlit("6");
                assert("6"@ =~= seq!['6']);
            }
            s.append("6");
        },
        '7' => {
            proof {
                reveal_strlit("7");
                assert("7"@ =~= seq!['7']);
            }
            s.append("7");
        },
        '8' => {
            proof {
                reveal_strlit("8");
                assert("8"@ =~= seq!['8']);
            }
            s.append("8");
        },
        '9' => {
            proof {
                reveal_strlit("9");
                assert("9"@ =~= seq!['9']);
            }
            s.append("9");
        },
        'a' => {
            proof {
                reveal_strlit("a");
                assert("a"@ =~= seq!['a']);
            }
            s.append("a");
        },
        'b' => {
            proof {
                reveal_strlit("b");
                assert("b"@ =~= seq!['b']);
            }
            s.append("b");
        },
        'c' => {
            proof {
                reveal_strlit("c");
                assert("c"@ =~= seq!['c']);
            }
            s.append("c");
        },
        'd' => {
            proof {
                reveal_strlit("d");
                assert("d"@ =~= seq!['d']);
            }
            s.append("d");
        },
        'e' => {
            proof {
                reveal_strlit("e");
                assert("e"@ =~= seq!['e']);
            }
            s.append("e");
        },
        'f' => {
            proof {
                reveal_strlit("f");
                assert("f"@ =~= seq!['f']);
            }
            s.append("f");
        },
        'g' => {
            proof {
                reveal_strlit("g");
                assert("g"@ =~= seq!['g']);
            }
            s.append("g");
        },
        'h' => {
            proof {
                reveal_strlit("h");
                assert("h"@ =~= seq!['h']);
            }
            s.append("h");
        },
        'p' => {
            proof {
                reveal_strlit("p");
                assert("p"@ =~= seq!['p']);
            }
            s.append("p");
        },
        'n' => {
            proof {
                reveal_strlit("n");
                assert("n"@ =~= seq!['n']);
            }
            s.append("n");
        },
        'r' => {
            proof {
                reveal_strlit("r");
                assert("r"@ =~= seq!['r']);
            }
            s.append("r");
        },
        'q' => {
            proof {
                reveal_strlit("q");
                assert("q"@ =~= seq!['q']);
            }
            s.append("q");
        },
        'k' => {
            proof {
                reveal_strlit("k");
                assert("k"@ =~= seq!['k']);
            }
            s.append("k");
        },
        'P' => {
            proof {
                reveal_strlit("P");
                assert("P"@ =~= seq!['P']);
            }
            s.append("P");
        },
        'N' => {
            proof {
                reveal_strlit("N");
                assert("N"@ =~= seq!['N']);
            }
            s.append("N");
        },
        'B' => {
            proof {
                reveal_strlit("B");
                assert("B"@ =~= seq!['B']);
            }
            s.append("B");
        },
        'R' => {
            proof {
                reveal_strlit("R");
                assert("R"@ =~= seq!['R']);
            }
            s.append("R");
        },
        'Q' => {
            proof {
                reveal_strlit("Q");
                assert("Q"@ =~= seq!['Q']);
            }
            s.append("Q");
        },
        'K' => {
            proof {
                reveal_strlit("K");
                assert("K"@ =~= seq!['K']);
            }
            s.append("K");
        },
        '/' => {
            proof {
                reveal_strlit("/");
                assert("/"@ =~= seq!['/']);
            }
            s.append("/");
        },
        ' ' => {
            proof {
                reveal_strlit(" ");
                assert(" "@ =~= seq![' ']);
            }
            s.append(" ");
        },
        '-' => {
            proof {
                reveal_strlit("-");
                assert("-"@ =~= seq!['-']);
            }
            s.append("-");
        },
        'w' => {
            proof {
                reveal_strlit("w");
                assert("w"@ =~= seq!['w']);
            }
            s.append("w");
        },
        _ => {},
    }
    proof {
        assert(old(s)@ + seq![c] =~= old(s)@.push(c));
    }
}


fn push_dec(s: &mut String, n: u32)
    ensures
        final(s)@ == old(s)@ + dec_chars(n as int),
    decreases n,
{
    if n < 10 {
        push_char(s, (48 + n as u8) as char);
        proof {
            assert(old(s)@.push(digit_char(n as int)) =~= old(s)@ + dec_chars(n as int));
        }
    } else {
        push_dec(s, n / 10);
        push_char(s, (48 + (n % 10) as u8) as char);
        proof {
            assert(old(s)@ + dec_chars((n / 10) as int) + seq![digit_char((n % 10) as int)] =~= old(
                s,
            )@ + dec_chars(n as int));
        }
    }
}

impl Board {
    /// Serializes the position to FEN, exactly as `fen_chars` lays it out.
    #[verifier::rlimit(100)]
    pub fn into_fen(&self) -> (r: String)
        ensures
            r@ == fen_chars(*self),
    {
        let b = *self;
        let mut s = String::new();
        let mut r: i32 = 7;
        while r >= 0
            invariant
                -1 <= r <= 7,
                b == *self,
                r >= 0 ==> s@ + ranks_from(b, r as int) == ranks_from(b, 7),
                r < 0 ==> s@ == ranks_from(b, 7),
            decreases r + 1,
        {
            let ghost s_rank_start = s@;
            let mut file: i32 = 0;
            let mut pending: i32 = 0;
            while file < 8
                invariant
                    0 <= file <= 8,
                    0 <= pending <= file,
                    0 <= r <= 7,
                    b == *self,
                    s@ + rank_fold(b, r as int, file as int, pending as int) == s_rank_start
                        + rank_chars(b, r as int),
                decreases 8 - file,
            {
                let sq = r * 8 + file;
                let wsel = piece_sel_exec(&b.white, sq);
                let bsel = piece_sel_exec(&b.black, sq);
                if wsel == 6 && bsel == 6 {
                    pending += 1;
                } else {
                    if pending > 0 {
                        push_char(&mut s, (48 + pending as u8) as char);
                    }
                    let c = if wsel == 0 {
                        'P'
                    } else if wsel == 1 {
                        'N'
                    } else if wsel == 2 {
                        'B'
                    } else if wsel == 3 {
                        'R'
                    } else if wsel == 4 {
                        'Q'
                    } else if wsel == 5 {
                        'K'
                    } else if bsel == 0 {
                        'p'
                    } else if bsel == 1 {
                        'n'
                    } else if bsel == 2 {
                        'b'
                    } else if bsel == 3 {
                        'r'
                    } else if bsel == 4 {
                        'q'
                    } else {
                        'k'
                    };
                    push_char(&mut s, c);
                    pending = 0;
                    proof {
                        assert(c == piece_char(b, (r * 8 + file) as int));
                        assert(s@ + rank_fold(b, r as int, file as int + 1, 0) =~= s_rank_start
                            + rank_chars(b, r as int));
                    }
                }
                file += 1;
            }
            if pending > 0 {
                push_char(&mut s, (48 + pending as u8) as char);
            }
            proof {
                assert(s@ =~= s_rank_start + rank_chars(b, r as int));
            }
            if r > 0 {
                push_char(&mut s, '/');
                proof {
                    assert(s@ + ranks_from(b, r as int - 1) =~= ranks_from(b, 7));
                }
            } else {
                proof {
                    assert(s@ =~= ranks_from(b, 7));
                }
            }
            r -= 1;
        }
        push_char(&mut s, ' ');
        push_char(
            &mut s,
            if self.side_to_move == Colour::White {
                'w'
            } else {
                'b'
            },
        );
        push_char(&mut s, ' ');
        let c = self.castling;
        if !c.white_king && !c.white_queen && !c.black_king && !c.black_queen {
            push_char(&mut s, '-');
        } else {
            if c.white_king {
                push_char(&mut s, 'K');
            }
            if c.white_queen {
                push_char(&mut s, 'Q');
            }
            if c.black_king {
                push_char(&mut s, 'k');
            }
            if c.black_queen {
                push_char(&mut s, 'q');
            }
        }
        proof {
            assert(s@ =~= ranks_from(b, 7) + seq![' '] + seq![
                match b.side_to_move {
                    Colour::White => 'w',
                    Colour::Black => 'b',
                },
            ] + seq![' '] + castling_chars(b.castling));
        }
        push_char(&mut s, ' ');
        if self.ep < 64 {
            push_char(&mut s, crate::square::file_char(self.ep as i32));
            push_char(&mut s, crate::square::rank_char(self.ep as i32));
        } else {
            push_char(&mut s, '-');
        }
        push_char(&mut s, ' ');
        push_dec(&mut s, self.halfmove);
        push_char(&mut s, ' ');
        push_dec(&mut s, self.fullmove);
        proof {
            assert(s@ =~= fen_chars(b));
        }
        s
    }
}

/// The selector of this side's piece on the square: 0 pawn through 5 king,
/// 6 when none.
fn piece_sel_exec(s: &SidePieces, sq: i32) -> (r: u8)
    requires
        valid_sq(sq as int),
    ensures
        r as int == piece_sel_at(*s, sq as int),
        r <= 6,
{
    if bb_test(s.pawns, sq as u64) {
        0
    } else if bb_test(s.knights, sq as u64) {
        1
    } else if bb_test(s.bishops, sq as u64) {
        2
    } else if bb_test(s.rooks, sq as u64) {
        3
    } else if bb_test(s.queens, sq as u64) {
        4
    } else if bb_test(s.king, sq as u64) {
        5
    } else {
        6
    }
}


/// No square carries two pieces across the two sides.
pub open spec fn sides_ok(w: SidePieces, b: SidePieces) -> bool {
    forall|j: u64| j < 64 ==> w.count_at(j) + b.count_at(j) <= 1
}


/// The pieces with the named one placed on an empty square; `None` when the
/// letter is not a piece or the square is taken.
pub open spec fn spec_place(w: SidePieces, b: SidePieces, c: char, sq: int) -> Option<
    (SidePieces, SidePieces),
> {
    if w.has(sq as u64) || b.has(sq as u64) {
        None
    } else if c == 'P' {
        Some((SidePieces { pawns: bb_with(w.pawns, sq as u64), ..w }, b))
    } else if c == 'N' {
        Some((SidePieces { knights: bb_with(w.knights, sq as u64), ..w }, b))
    } else if c == 'B' {
        Some((SidePieces { bishops: bb_with(w.bishops, sq as u64), ..w }, b))
    } else if c == 'R' {
        Some((SidePieces { rooks: bb_with(w.rooks, sq as u64), ..w }, b))
    } else if c == 'Q' {
        Some((SidePieces { queens: bb_with(w.queens, sq as u64), ..w }, b))
    } else if c == 'K' {
        Some((SidePieces { king: bb_with(w.king, sq as u64), ..w }, b))
    } else if c == 'p' {
        Some((w, SidePieces { pawns: bb_with(b.pawns, sq as u64), ..b }))
    } else if c == 'n' {
        Some((w, SidePieces { knights: bb_with(b.knights, sq as u64), ..b }))
    } else if c == 'b' {
        Some((w, SidePieces { bishops: bb_with(b.bishops, sq as u64), ..b }))
    } else if c == 'r' {
        Some((w, SidePieces { rooks: bb_with(b.rooks, sq as u64), ..b }))
    } else if c == 'q' {
        Some((w, SidePieces { queens: bb_with(b.queens, sq as u64), ..b }))
    } else if c == 'k' {
        Some((w, SidePieces { king: bb_with(b.king, sq as u64), ..b }))
    } else {
        None
    }
}

/// What the placement scanner accepts from position `i` on, at the given
/// rank and file with the pieces read so far: the position after the
/// closing space and both sides' pieces.
pub open spec fn parse_placement(
    text: Seq<char>,
    i: int,
    rank: int,
    file: int,
    w: SidePieces,
    b: SidePieces,
) -> Option<(int, SidePieces, SidePieces)>
    decreases text.len() - i,
    when i >= 0
{
    if i >= text.len() {
        None
    } else {
        let c = text[i];
        if c == ' ' {
            if rank == 0 && file == 8 {
                Some((i + 1, w, b))
            } else {
                None
            }
        } else if c == '/' {
            if file != 8 || rank == 0 {
                None
            } else {
                parse_placement(text, i + 1, rank - 1, 0, w, b)
            }
        } else if '1' <= c && c <= '8' {
            let d = c as int - 48;
            if file + d > 8 {
                None
            } else {
                parse_placement(text, i + 1, rank, file + d, w, b)
            }
        } else if file >= 8 {
            None
        } else {
            match spec_place(w, b, c, rank * 8 + file) {
                Some(p) => parse_placement(text, i + 1, rank, file + 1, p.0, p.1),
                None => None,
            }
        }
    }
}

/// The side-to-move field and the position after its trailing space.
pub open spec fn parse_side(text: Seq<char>, i: int) -> Option<(Colour, int)> {
    if i >= text.len() {
        None
    } else {
        let c = text[i];
        if c != 'w' && c != 'b' {
            None
        } else if i + 1 >= text.len() || text[i + 1] != ' ' {
            None
        } else {
            Some(
                (
                    if c == 'w' {
                        Colour::White
                    } else {
                        Colour::Black
                    },
                    i + 2,
                ),
            )
        }
    }
}

/// The castling field: flag letters or '-' up to a space, at least one
/// character read.
pub open spec fn parse_castling(text: Seq<char>, i: int, cr: CastlingRights, saw: bool) -> Option<
    (CastlingRights, int),
>
    decreases text.len() - i,
    when i >= 0
{
    if i >= text.len() {
        None
    } else {
        let c = text[i];
        if c == ' ' {
            if saw {
                Some((cr, i + 1))
            } else {
                None
            }
        } else if c == '-' {
            parse_castling(text, i + 1, cr, true)
        } else if c == 'K' {
            parse_castling(text, i + 1, CastlingRights { white_king: true, ..cr }, true)
        } else if c == 'Q' {
            parse_castling(text, i + 1, CastlingRights { white_queen: true, ..cr }, true)
        } else if c == 'k' {
            parse_castling(text, i + 1, CastlingRights { black_king: true, ..cr }, true)
        } else if c == 'q' {
            parse_castling(text, i + 1, CastlingRights { black_queen: true, ..cr }, true)
        } else {
            None
        }
    }
}

/// The en-passant field: '-' or a square name.
pub open spec fn parse_ep(text: Seq<char>, i: int) -> Option<(u8, int)> {
    if i >= text.len() {
        None
    } else if text[i] == '-' {
        Some((EP_NONE, i + 1))
    } else if i + 1 >= text.len() {
        None
    } else {
        match crate::square::spec_sq_from_chars(text[i], text[i + 1]) {
            Some(sq) => Some((sq as u8, i + 2)),
            None => None,
        }
    }
}

/// A run of digits read as a number, and the position after it; `None`
/// without at least one digit or past the largest clock value.
pub open spec fn spec_parse_number(text: Seq<char>, i: int, acc: int, any: bool) -> Option<
    (u32, int),
>
    decreases text.len() - i,
    when i >= 0 && 0 <= acc <= 0xffff_ffff
{
    if i < text.len() && '0' <= text[i] && text[i] <= '9' {
        let acc2 = acc * 10 + (text[i] as int - 48);
        if acc2 > 0xffff_ffff {
            None
        } else {
            spec_parse_number(text, i + 1, acc2, true)
        }
    } else {
        if any {
            Some((acc as u32, i))
        } else {
            None
        }
    }
}

/// What parsing a FEN text yields: the placement, the side to move, the
/// castling rights, the en-passant square and the two clocks, each field
/// separated by one space; anything else is refused.
pub open spec fn spec_from_fen(text: Seq<char>) -> Option<Board> {
    match parse_placement(text, 0, 7, 0, SidePieces::spec_empty(), SidePieces::spec_empty()) {
        Some((i1, w, b)) => match parse_side(text, i1) {
            Some((side_to_move, i2)) => match parse_castling(
                text,
                i2,
                CastlingRights { white_king: false, white_queen: false, black_king: false, black_queen: false },
                false,
            ) {
                Some((castling, i3)) => match parse_ep(text, i3) {
                    Some((ep, i4)) => if i4 < text.len() && text[i4] == ' ' {
                        match spec_parse_number(text, i4 + 1, 0, false) {
                            Some((halfmove, i5)) => if i5 < text.len() && text[i5] == ' ' {
                                match spec_parse_number(text, i5 + 1, 0, false) {
                                    Some((fullmove, _)) => Some(
                                        Board {
                                            white: w,
                                            black: b,
                                            side_to_move,
                                            castling,
                                            ep,
                                            halfmove,
                                            fullmove,
                                        },
                                    ),
                                    None => None,
                                }
                            } else {
                                None
                            },
                            None => None,
                        }
                    } else {
                        None
                    },
                    None => None,
                },
                None => None,
            },
            None => None,
        },
        None => None,
    }
}

/// Puts the piece named by a FEN letter on an empty square; `false` when
/// the letter is not a piece or the square is taken.
fn place_piece(white: &mut SidePieces, black: &mut SidePieces, c: char, sq: i32) -> (ok: bool)
    requires
        valid_sq(sq as int),
        sides_ok(*old(white), *old(black)),
    ensures
        sides_ok(*final(white), *final(black)),
        match spec_place(*old(white), *old(black), c, sq as int) {
            Some(p) => ok && *final(white) == p.0 && *final(black) == p.1,
            None => !ok && *final(white) == *old(white) && *final(black) == *old(black),
        },
{
    broadcast use crate::board::lemma_bb_with, crate::board::lemma_side_occupied_at;

    let taken = bb_test(white.occupied(), sq as u64) || bb_test(black.occupied(), sq as u64);
    if taken {
        return false;
    }
    let ghost w0 = *white;
    let ghost b0 = *black;
    let placed = match c {
        'P' => {
            white.pawns = crate::board::bb_set(white.pawns, sq as u64);
            true
        },
        'N' => {
            white.knights = crate::board::bb_set(white.knights, sq as u64);
            true
        },
        'B' => {
            white.bishops = crate::board::bb_set(white.bishops, sq as u64);
            true
        },
        'R' => {
            white.rooks = crate::board::bb_set(white.rooks, sq as u64);
            true
        },
        'Q' => {
            white.queens = crate::board::bb_set(white.queens, sq as u64);
            true
        },
        'K' => {
            white.king = crate::board::bb_set(white.king, sq as u64);
            true
        },
        'p' => {
            black.pawns = crate::board::bb_set(black.pawns, sq as u64);
            true
        },
        'n' => {
            black.knights = crate::board::bb_set(black.knights, sq as u64);
            true
        },
        'b' => {
            black.bishops = crate::board::bb_set(black.bishops, sq as u64);
            true
        },
        'r' => {
            black.rooks = crate::board::bb_set(black.rooks, sq as u64);
            true
        },
        'q' => {
            black.queens = crate::board::bb_set(black.queens, sq as u64);
            true
        },
        'k' => {
            black.king = crate::board::bb_set(black.king, sq as u64);
            true
        },
        _ => false,
    };
    proof {
        assert(!w0.has(sq as u64) && !b0.has(sq as u64));
        assert(w0.count_at(sq as u64) == 0 && b0.count_at(sq as u64) == 0);
        assert forall|j: u64| j < 64 implies white.count_at(j) + black.count_at(j) <= 1 by {
            assert(w0.count_at(j) + b0.count_at(j) <= 1);
        }
    }
    placed
}

impl Board {
    /// Parses a FEN string: exactly the text `spec_from_fen` accepts, to
    /// exactly the board it denotes, which is well-formed; anything else is
    /// rejected.
    pub fn from_fen(text: &str) -> (r: Result<Board, ChessError>)
        ensures
            match r {
                Ok(c) => spec_from_fen(text@) == Some(c) && c.wf(),
                Err(_) => spec_from_fen(text@) is None,
            },
    {
        let n = text.unicode_len();
        let mut i: usize = 0;
        let mut white = SidePieces::empty();
        let mut black = SidePieces::empty();
        proof {
            assert forall|j: u64| j < 64 implies white.count_at(j) + black.count_at(j) <= 1 by {
                assert(!bb_has(0u64, j)) by (bit_vector);
            }
        }
        let mut rank: i32 = 7;
        let mut file: i32 = 0;
        // piece placement
        loop
            invariant_except_break
                parse_placement(
                    text@,
                    0,
                    7,
                    0,
                    SidePieces::spec_empty(),
                    SidePieces::spec_empty(),
                ) == parse_placement(text@, i as int, rank as int, file as int, white, black),
            invariant
                0 <= rank <= 7,
                0 <= file <= 8,
                i <= n,
                n == text@.len(),
                sides_ok(white, black),
            ensures
                i <= n,
                n == text@.len(),
                sides_ok(white, black),
                parse_placement(
                    text@,
                    0,
                    7,
                    0,
                    SidePieces::spec_empty(),
                    SidePieces::spec_empty(),
                ) == Some((i as int, white, black)),
            decreases n - i,
        {
            let ghost i0 = i as int;
            let ghost w0 = white;
            let ghost b0 = black;
            if i >= n {
                proof {
                    assert(spec_from_fen(text@) is None);
                }
                return Err(ChessError::InputError);
            }
            let c = text.get_char(i);
            i += 1;
            if c == ' ' {
                if rank == 0 && file == 8 {
                    break ;
                }
                proof {
                    assert(spec_from_fen(text@) is None);
                }
                return Err(ChessError::InputError);
            } else if c == '/' {
                if file != 8 || rank == 0 {
                    proof {
                        assert(spec_from_fen(text@) is None);
                    }
                    return Err(ChessError::InputError);
                }
                rank -= 1;
                file = 0;
            } else if '1' <= c && c <= '8' {
                let d = (c as u32 - 48) as i32;
                if file + d > 8 {
                    proof {
                        assert(spec_from_fen(text@) is None);
                    }
                    return Err(ChessError::InputError);
                }
                file += d;
            } else {
                if file >= 8 {
                    proof {
                        assert(spec_from_fen(text@) is None);
                    }
                    return Err(ChessError::InputError);
                }
                let sq = rank * 8 + file;
                if !place_piece(&mut white, &mut black, c, sq) {
                    proof {
                        assert(spec_place(w0, b0, c, rank as int * 8 + file as int) is None);
                        assert(spec_from_fen(text@) is None);
                    }
                    return Err(ChessError::InputError);
                }
                proof {
                    assert(spec_place(w0, b0, c, rank as int * 8 + file as int) == Some(
                        (white, black),
                    ));
                }
                file += 1;
            }
        }
        let ghost i1 = i as int;
        proof {
            assert(parse_placement(
                text@,
                0,
                7,
                0,
                SidePieces::spec_empty(),
                SidePieces::spec_empty(),
            ) == Some((i1, white, black)));
        }
        // side to move
        if i >= n {
            proof {
                assert(parse_side(text@, i1) is None);
                assert(spec_from_fen(text@) is None);
            }
            return Err(ChessError::InputError);
        }
        let side_c = text.get_char(i);
        i += 1;
        let side_to_move = if side_c == 'w' {
            Colour::White
        } else if side_c == 'b' {
            Colour::Black
        } else {
            proof {
                assert(parse_side(text@, i1) is None);
                assert(spec_from_fen(text@) is None);
            }
            return Err(ChessError::InputError);
        };
        if i >= n || text.get_char(i) != ' ' {
            proof {
                assert(parse_side(text@, i1) is None);
                assert(spec_from_fen(text@) is None);
            }
            return Err(ChessError::InputError);
        }
        i += 1;
        let ghost i2 = i as int;
        proof {
            assert(parse_side(text@, i1) == Some((side_to_move, i2)));
        }
        // castling rights
        let ghost cr0 = CastlingRights {
            white_king: false,
            white_queen: false,
            black_king: false,
            black_queen: false,
        };
        let mut castling = CastlingRights {
            white_king: false,
            white_queen: false,
            black_king: false,
            black_queen: false,
        };
        let mut saw_castling = false;
        loop
            invariant_except_break
                parse_castling(text@, i2, cr0, false) == parse_castling(
                    text@,
                    i as int,
                    castling,
                    saw_castling,
                ),
            invariant
                i <= n,
                n == text@.len(),
                cr0 == (CastlingRights {
                    white_king: false,
                    white_queen: false,
                    black_king: false,
                    black_queen: false,
                }),
                parse_placement(
                    text@,
                    0,
                    7,
                    0,
                    SidePieces::spec_empty(),
                    SidePieces::spec_empty(),
                ) == Some((i1, white, black)),
                parse_side(text@, i1) == Some((side_to_move, i2)),
            ensures
                i <= n,
                n == text@.len(),
                parse_placement(
                    text@,
                    0,
                    7,
                    0,
                    SidePieces::spec_empty(),
                    SidePieces::spec_empty(),
                ) == Some((i1, white, black)),
                parse_side(text@, i1) == Some((side_to_move, i2)),
                parse_castling(text@, i2, cr0, false) == Some((castling, i as int)),
            decreases n - i,
        {
            if i >= n {
                proof {
                    assert(parse_castling(text@, i2, cr0, false) is None);
                    assert(spec_from_fen(text@) is None);
                }
                return Err(ChessError::InputError);
            }
            let c = text.get_char(i);
            if c == ' ' {
                if !saw_castling {
                    proof {
                        assert(parse_castling(text@, i2, cr0, false) is None);
                        assert(spec_from_fen(text@) is None);
                    }
                    return Err(ChessError::InputError);
                }
                i += 1;
                break ;
            }
            i += 1;
            if c == '-' {
                saw_castling = true;
            } else if c == 'K' {
                castling.white_king = true;
                saw_castling = true;
            } else if c == 'Q' {
                castling.white_queen = true;
                saw_castling = true;
            } else if c == 'k' {
                castling.black_king = true;
                saw_castling = true;
            } else if c == 'q' {
                castling.black_queen = true;
                saw_castling = true;
            } else {
                proof {
                    assert(parse_castling(text@, i2, cr0, false) is None);
                    assert(spec_from_fen(text@) is None);
                }
                return Err(ChessError::InputError);
            }
        }
        let ghost i3 = i as int;
        proof {
            assert(parse_castling(text@, i2, cr0, false) == Some((castling, i3)));
        }
        // en passant
        if i >= n {
            proof {
                assert(parse_ep(text@, i3) is None);
                assert(spec_from_fen(text@) is None);
            }
            return Err(ChessError::InputError);
        }
        let ep_c = text.get_char(i);
        i += 1;
        let ep: u8 = if ep_c == '-' {
            EP_NONE
        } else {
            if i >= n {
                proof {
                    assert(parse_ep(text@, i3) is None);
                    assert(spec_from_fen(text@) is None);
                }
                return Err(ChessError::InputError);
            }
            let rank_c = text.get_char(i);
            i += 1;
            match crate::square::sq_from_chars(ep_c, rank_c) {
                Some(sq) => sq as u8,
                None => {
                    proof {
                        assert(parse_ep(text@, i3) is None);
                        assert(spec_from_fen(text@) is None);
                    }
                    return Err(ChessError::InputError);
                },
            }
        };
        let ghost i4 = i as int;
        proof {
            assert(parse_ep(text@, i3) == Some((ep, i4)));
        }
        // clocks
        if i >= n || text.get_char(i) != ' ' {
            proof {
                assert(spec_from_fen(text@) is None);
            }
            return Err(ChessError::InputError);
        }
        i += 1;
        let (halfmove, i5) = match parse_number(text, i) {
            Some(p) => p,
            None => {
                proof {
                    assert(spec_parse_number(text@, i4 + 1, 0, false) is None);
                    assert(spec_from_fen(text@) is None);
                }
                return Err(ChessError::InputError);
            },
        };
        i = i5;
        proof {
            assert(spec_parse_number(text@, i4 + 1, 0, false) == Some((halfmove, i as int)));
        }
        if i >= n || text.get_char(i) != ' ' {
            proof {
                assert(spec_from_fen(text@) is None);
            }
            return Err(ChessError::InputError);
        }
        let ghost i5g = i as int;
        i += 1;
        let (fullmove, _i6) = match parse_number(text, i) {
            Some(p) => p,
            None => {
                proof {
                    assert(spec_parse_number(text@, i5g + 1, 0, false) is None);
                    assert(spec_from_fen(text@) is None);
                }
                return Err(ChessError::InputError);
            },
        };
        let board = Board { white, black, side_to_move, castling, ep, halfmove, fullmove };
        proof {
            assert(spec_from_fen(text@) == Some(board));
        }
        Ok(board)
    }
}

/// Reads a run of digits as a number; `None` without at least one digit or
/// past the largest clock value.
fn parse_number(text: &str, start: usize) -> (r: Option<(u32, usize)>)
    requires
        start <= text@.len(),
    ensures
        match r {
            Some(p) => spec_parse_number(text@, start as int, 0, false) == Some(
                (p.0, p.1 as int),
            ) && p.1 <= text@.len(),
            None => spec_parse_number(text@, start as int, 0, false) is None,
        },
{
    let n = text.unicode_len();
    let mut i = start;
    let mut acc: u64 = 0;
    let mut any = false;
    while i < n
        invariant
            start <= i <= n,
            n == text@.len(),
            acc <= 0xffff_ffff,
            spec_parse_number(text@, start as int, 0, false) == spec_parse_number(
                text@,
                i as int,
                acc as int,
                any,
            ),
        decreases n - i,
    {
        let c = text.get_char(i);
        if '0' <= c && c <= '9' {
            let acc2 = acc * 10 + (c as u64 - 48);
            if acc2 > 0xffff_ffff {
                return None;
            }
            acc = acc2;
            any = true;
            i += 1;
        } else {
            // the run ends here: the tail starts with a non-digit
            if !any {
                return None;
            }
            return Some((acc as u32, i));
        }
    }
    if !any {
        None
    } else {
        Some((acc as u32, i))
    }
}


// --- the round-trip law ------------------------------------------------------
// Parsing inverts serialization: field lemmas below build up to
// `lemma_fen_round_trip`, and `from_fen`/`into_fen` are pinned to
// `spec_from_fen`/`fen_chars`, so parsing the text `into_fen` writes
// returns exactly the board it was written from.
/// Digits folded forward onto an accumulator, as the number parser reads
/// them.
pub open spec fn digits_val(s: Seq<char>, acc: int) -> int
    decreases s.len(),
{
    if s.len() == 0 {
        acc
    } else {
        digits_val(s.drop_first(), acc * 10 + (s[0] as int - 48))
    }
}

pub open spec fn all_digits(s: Seq<char>) -> bool {
    forall|k: int| 0 <= k < s.len() ==> '0' <= #[trigger] s[k] && s[k] <= '9'
}

proof fn lemma_digits_val_append(s: Seq<char>, t: Seq<char>, acc: int)
    ensures
        digits_val(s + t, acc) == digits_val(t, digits_val(s, acc)),
    decreases s.len(),
{
    if s.len() == 0 {
        assert(s + t =~= t);
    } else {
        assert((s + t).drop_first() =~= s.drop_first() + t);
        lemma_digits_val_append(s.drop_first(), t, acc * 10 + (s[0] as int - 48));
    }
}

/// Reading back a printed number yields the number.
proof fn lemma_digits_val_dec(n: int)
    requires
        n >= 0,
    ensures
        digits_val(dec_chars(n), 0) == n,
        all_digits(dec_chars(n)),
        dec_chars(n).len() >= 1,
    decreases n,
{
    if n < 10 {
        assert(digit_char(n) as int == 48 + n);
        let d0 = digit_char(n);
        assert(dec_chars(n) == seq![d0]);
        assert(seq![d0].drop_first() =~= Seq::<char>::empty());
        assert(digits_val(Seq::<char>::empty(), 0 * 10 + (d0 as int - 48)) == n);
        assert(digits_val(seq![d0], 0) == digits_val(
            seq![d0].drop_first(),
            0 * 10 + (d0 as int - 48),
        ));
        assert(digits_val(dec_chars(n), 0) == n);
        assert forall|k: int|
            0 <= k < dec_chars(n).len() implies '0' <= #[trigger] dec_chars(n)[k] && dec_chars(
            n,
        )[k] <= '9' by {
            assert(dec_chars(n)[k] == d0);
        }
    } else {
        lemma_digits_val_dec(n / 10);
        let head = dec_chars(n / 10);
        let dc = digit_char(n % 10);
        assert(dc as int == 48 + n % 10);
        let d = seq![dc];
        assert(dec_chars(n) == head + d);
        lemma_digits_val_append(head, d, 0);
        assert(d.drop_first() =~= Seq::<char>::empty());
        assert(digits_val(Seq::<char>::empty(), (n / 10) * 10 + (dc as int - 48)) == (n / 10) * 10
            + (dc as int - 48));
        assert(digits_val(d, n / 10) == digits_val(
            d.drop_first(),
            (n / 10) * 10 + (dc as int - 48),
        ));
        assert((n / 10) * 10 + n % 10 == n) by {
            vstd::arithmetic::div_mod::lemma_fundamental_div_mod(n, 10);
        }
        assert(digits_val(dec_chars(n), 0) == n);
        assert forall|k: int|
            0 <= k < dec_chars(n).len() implies '0' <= #[trigger] dec_chars(n)[k] && dec_chars(
            n,
        )[k] <= '9' by {
            if k < head.len() {
                assert(dec_chars(n)[k] == head[k]);
            } else {
                assert(dec_chars(n)[k] == dc);
            }
        }
    }
}

/// The folded value can only grow as digits arrive.
proof fn lemma_digits_val_grows(s: Seq<char>, acc: int)
    requires
        all_digits(s),
        acc >= 0,
    ensures
        digits_val(s, acc) >= acc,
    decreases s.len(),
{
    if s.len() > 0 {
        assert('0' <= s[0] && s[0] <= '9');
        assert(all_digits(s.drop_first())) by {
            assert forall|k: int|
                0 <= k < s.drop_first().len() implies '0' <= #[trigger] s.drop_first()[k]
                && s.drop_first()[k] <= '9' by {
                assert(s.drop_first()[k] == s[k + 1]);
            }
        }
        lemma_digits_val_grows(s.drop_first(), acc * 10 + (s[0] as int - 48));
    }
}

/// The number parser consumes exactly a digit run and folds it up.
proof fn lemma_parse_digit_run(text: Seq<char>, i: int, s: Seq<char>, acc: int, any: bool)
    requires
        0 <= i,
        i + s.len() <= text.len(),
        all_digits(s),
        forall|k: int| 0 <= k < s.len() ==> text[i + k] == s[k],
        i + s.len() == text.len() || !('0' <= text[i + s.len()] && text[i + s.len()] <= '9'),
        0 <= acc,
        digits_val(s, acc) <= 0xffff_ffff,
        any || s.len() > 0,
    ensures
        spec_parse_number(text, i, acc, any) == Some(
            (digits_val(s, acc) as u32, i + s.len()),
        ),
    decreases s.len(),
{
    if s.len() == 0 {
        assert(!(i < text.len() && '0' <= text[i] && text[i] <= '9'));
    } else {
        assert(text[i] == s[0]);
        let acc2 = acc * 10 + (s[0] as int - 48);
        assert(all_digits(s.drop_first())) by {
            assert forall|k: int|
                0 <= k < s.drop_first().len() implies '0' <= #[trigger] s.drop_first()[k]
                && s.drop_first()[k] <= '9' by {
                assert(s.drop_first()[k] == s[k + 1]);
            }
        }
        lemma_digits_val_grows(s.drop_first(), acc2);
        assert(digits_val(s, acc) == digits_val(s.drop_first(), acc2));
        assert(acc2 <= 0xffff_ffff);
        lemma_parse_digit_run(text, i + 1, s.drop_first(), acc2, true);
        assert forall|k: int|
            0 <= k < s.drop_first().len() implies text[i + 1 + k] == s.drop_first()[k] by {
            assert(s.drop_first()[k] == s[k + 1]);
        }
    }
}


/// Reading back printed castling rights yields the rights.
pub proof fn lemma_parse_castling_round(text: Seq<char>, i: int, cr: CastlingRights)
    requires
        0 <= i,
        i + castling_chars(cr).len() + 1 <= text.len(),
        forall|k: int| 0 <= k < castling_chars(cr).len() ==> text[i + k] == castling_chars(cr)[k],
        text[i + castling_chars(cr).len()] == ' ',
    ensures
        parse_castling(
            text,
            i,
            CastlingRights { white_king: false, white_queen: false, black_king: false, black_queen: false },
            false,
        ) == Some((cr, i + castling_chars(cr).len() + 1)),
{
    reveal_with_fuel(parse_castling, 7);
    let ghost cr0 = CastlingRights {
        white_king: false,
        white_queen: false,
        black_king: false,
        black_queen: false,
    };
    if !cr.white_king && !cr.white_queen && !cr.black_king && !cr.black_queen {
        assert(castling_chars(cr) =~= seq!['-']);
        assert(castling_chars(cr)[0] == '-');
        assert(text[i + 0] == '-');
        assert(text[i + 1] == ' ');
        assert(parse_castling(text, i, cr0, false) == Some((cr, i + 1 + 1)));
    }
    if !cr.white_king && !cr.white_queen && !cr.black_king && cr.black_queen {
        assert(castling_chars(cr) =~= seq!['q']);
        assert(castling_chars(cr)[0] == 'q');
        assert(text[i + 0] == 'q');
        assert(text[i + 1] == ' ');
        assert(parse_castling(text, i, cr0, false) == Some((cr, i + 1 + 1)));
    }
    if !cr.white_king && !cr.white_queen && cr.black_king && !cr.black_queen {
        assert(castling_chars(cr) =~= seq!['k']);
        assert(castling_chars(cr)[0] == 'k');
        assert(text[i + 0] == 'k');
        assert(text[i + 1] == ' ');
        assert(parse_castling(text, i, cr0, false) == Some((cr, i + 1 + 1)));
    }
    if !cr.white_king && !cr.white_queen && cr.black_king && cr.black_queen {
        assert(castling_chars(cr) =~= seq!['k', 'q']);
        assert(castling_chars(cr)[0] == 'k');
        assert(text[i + 0] == 'k');
        assert(castling_chars(cr)[1] == 'q');
        assert(text[i + 1] == 'q');
        assert(text[i + 2] == ' ');
        assert(parse_castling(text, i, cr0, false) == Some((cr, i + 2 + 1)));
    }
    if !cr.white_king && cr.white_queen && !cr.black_king && !cr.black_queen {
        assert(castling_chars(cr) =~= seq!['Q']);
        assert(castling_chars(cr)[0] == 'Q');
        assert(text[i + 0] == 'Q');
        assert(text[i + 1] == ' ');
        assert(parse_castling(text, i, cr0, false) == Some((cr, i + 1 + 1)));
    }
    if !cr.white_king && cr.white_queen && !cr.black_king && cr.black_queen {
        assert(castling_chars(cr) =~= seq!['Q', 'q']);
        assert(castling_chars(cr)[0] == 'Q');
        assert(text[i + 0] == 'Q');
        assert(castling_chars(cr)[1] == 'q');
        assert(text[i + 1] == 'q');
        assert(text[i + 2] == ' ');
        assert(parse_castling(text, i, cr0, false) == Some((cr, i + 2 + 1)));
    }
    if !cr.white_king && cr.white_queen && cr.black_king && !cr.black_queen {
        assert(castling_chars(cr) =~= seq!['Q', 'k']);
        assert(castling_chars(cr)[0] == 'Q');
        assert(text[i + 0] == 'Q');
        assert(castling_chars(cr)[1] == 'k');
        assert(text[i + 1] == 'k');
        assert(text[i + 2] == ' ');
        assert(parse_castling(text, i, cr0, false) == Some((cr, i + 2 + 1)));
    }
    if !cr.white_king && cr.white_queen && cr.black_king && cr.black_queen {
        assert(castling_chars(cr) =~= seq!['Q', 'k', 'q']);
        assert(castling_chars(cr)[0] == 'Q');
        assert(text[i + 0] == 'Q');
        assert(castling_chars(cr)[1] == 'k');
        assert(text[i + 1] == 'k');
        assert(castling_chars(cr)[2] == 'q');
        assert(text[i + 2] == 'q');
        assert(text[i + 3] == ' ');
        assert(parse_castling(text, i, cr0, false) == Some((cr, i + 3 + 1)));
    }
    if cr.white_king && !cr.white_queen && !cr.black_king && !cr.black_queen {
        assert(castling_chars(cr) =~= seq!['K']);
        assert(castling_chars(cr)[0] == 'K');
        assert(text[i + 0] == 'K');
        assert(text[i + 1] == ' ');
        assert(parse_castling(text, i, cr0, false) == Some((cr, i + 1 + 1)));
    }
    if cr.white_king && !cr.white_queen && !cr.black_king && cr.black_queen {
        assert(castling_chars(cr) =~= seq!['K', 'q']);
        assert(castling_chars(cr)[0] == 'K');
        assert(text[i + 0] == 'K');
        assert(castling_chars(cr)[1] == 'q');
        assert(text[i + 1] == 'q');
        assert(text[i + 2] == ' ');
        assert(parse_castling(text, i, cr0, false) == Some((cr, i + 2 + 1)));
    }
    if cr.white_king && !cr.white_queen && cr.black_king && !cr.black_queen {
        assert(castling_chars(cr) =~= seq!['K', 'k']);
        assert(castling_chars(cr)[0] == 'K');
        assert(text[i + 0] == 'K');
        assert(castling_chars(cr)[1] == 'k');
        assert(text[i + 1] == 'k');
        assert(text[i + 2] == ' ');
        assert(parse_castling(text, i, cr0, false) == Some((cr, i + 2 + 1)));
    }
    if cr.white_king && !cr.white_queen && cr.black_king && cr.black_queen {
        assert(castling_chars(cr) =~= seq!['K', 'k', 'q']);
        assert(castling_chars(cr)[0] == 'K');
        assert(text[i + 0] == 'K');
        assert(castling_chars(cr)[1] == 'k');
        assert(text[i + 1] == 'k');
        assert(castling_chars(cr)[2] == 'q');
        assert(text[i + 2] == 'q');
        assert(text[i + 3] == ' ');
        assert(parse_castling(text, i, cr0, false) == Some((cr, i + 3 + 1)));
    }
    if cr.white_king && cr.white_queen && !cr.black_king && !cr.black_queen {
        assert(castling_chars(cr) =~= seq!['K', 'Q']);
        assert(castling_chars(cr)[0] == 'K');
        assert(text[i + 0] == 'K');
        assert(castling_chars(cr)[1] == 'Q');
        assert(text[i + 1] == 'Q');
        assert(text[i + 2] == ' ');
        assert(parse_castling(text, i, cr0, false) == Some((cr, i + 2 + 1)));
    }
    if cr.white_king && cr.white_queen && !cr.black_king && cr.black_queen {
        assert(castling_chars(cr) =~= seq!['K', 'Q', 'q']);
        assert(castling_chars(cr)[0] == 'K');
        assert(text[i + 0] == 'K');
        assert(castling_chars(cr)[1] == 'Q');
        assert(text[i + 1] == 'Q');
        assert(castling_chars(cr)[2] == 'q');
        assert(text[i + 2] == 'q');
        assert(text[i + 3] == ' ');
        assert(parse_castling(text, i, cr0, false) == Some((cr, i + 3 + 1)));
    }
    if cr.white_king && cr.white_queen && cr.black_king && !cr.black_queen {
        assert(castling_chars(cr) =~= seq!['K', 'Q', 'k']);
        assert(castling_chars(cr)[0] == 'K');
        assert(text[i + 0] == 'K');
        assert(castling_chars(cr)[1] == 'Q');
        assert(text[i + 1] == 'Q');
        assert(castling_chars(cr)[2] == 'k');
        assert(text[i + 2] == 'k');
        assert(text[i + 3] == ' ');
        assert(parse_castling(text, i, cr0, false) == Some((cr, i + 3 + 1)));
    }
    if cr.white_king && cr.white_queen && cr.black_king && cr.black_queen {
        assert(castling_chars(cr) =~= seq!['K', 'Q', 'k', 'q']);
        assert(castling_chars(cr)[0] == 'K');
        assert(text[i + 0] == 'K');
        assert(castling_chars(cr)[1] == 'Q');
        assert(text[i + 1] == 'Q');
        assert(castling_chars(cr)[2] == 'k');
        assert(text[i + 2] == 'k');
        assert(castling_chars(cr)[3] == 'q');
        assert(text[i + 3] == 'q');
        assert(text[i + 4] == ' ');
        assert(parse_castling(text, i, cr0, false) == Some((cr, i + 4 + 1)));
    }
}

/// Reading back the printed side to move yields the side.
pub proof fn lemma_parse_side_round(text: Seq<char>, i: int, c: Colour)
    requires
        0 <= i,
        i + 2 <= text.len(),
        text[i] == (match c {
            Colour::White => 'w',
            Colour::Black => 'b',
        }),
        text[i + 1] == ' ',
    ensures
        parse_side(text, i) == Some((c, i + 2)),
{
}

/// Reading back the printed en-passant field yields the square.
pub proof fn lemma_parse_ep_round(text: Seq<char>, i: int, b: Board)
    requires
        0 <= i,
        b.ep <= EP_NONE,
        i + ep_chars(b).len() <= text.len(),
        forall|k: int| 0 <= k < ep_chars(b).len() ==> text[i + k] == ep_chars(b)[k],
    ensures
        parse_ep(text, i) == Some((b.ep, i + ep_chars(b).len())),
{
    if b.ep >= 64 {
        assert(ep_chars(b)[0] == '-');
        assert(text[i + 0] == '-');
    } else {
        let f = crate::square::spec_file_char(b.ep as int);
        let r = crate::square::spec_rank_char(b.ep as int);
        assert(ep_chars(b)[0] == f);
        assert(ep_chars(b)[1] == r);
        assert(text[i + 0] == f);
        assert(text[i + 1] == r);
        assert(f as int == 97 + (b.ep as int) % 8);
        assert(r as int == 49 + (b.ep as int) / 8);
        assert(f != '-');
        assert(crate::square::spec_sq_from_chars(f, r) == Some(b.ep as i32));
    }
}


/// Reading back a printed clock yields the clock.
pub proof fn lemma_parse_clock_round(text: Seq<char>, i: int, n: u32)
    requires
        0 <= i,
        i + dec_chars(n as int).len() <= text.len(),
        forall|k: int| 0 <= k < dec_chars(n as int).len() ==> text[i + k] == dec_chars(n as int)[k],
        i + dec_chars(n as int).len() == text.len() || !('0' <= text[i + dec_chars(n as int).len()]
            && text[i + dec_chars(n as int).len()] <= '9'),
    ensures
        spec_parse_number(text, i, 0, false) == Some((n, i + dec_chars(n as int).len())),
{
    lemma_digits_val_dec(n as int);
    lemma_parse_digit_run(text, i, dec_chars(n as int), 0, false);
}


/// The destination carries exactly the source's pieces on the square.
pub open spec fn side_match_at(src: SidePieces, dst: SidePieces, sq: int) -> bool {
    &&& bb_has(dst.king, sq as u64) == bb_has(src.king, sq as u64)
    &&& bb_has(dst.queens, sq as u64) == bb_has(src.queens, sq as u64)
    &&& bb_has(dst.rooks, sq as u64) == bb_has(src.rooks, sq as u64)
    &&& bb_has(dst.bishops, sq as u64) == bb_has(src.bishops, sq as u64)
    &&& bb_has(dst.knights, sq as u64) == bb_has(src.knights, sq as u64)
    &&& bb_has(dst.pawns, sq as u64) == bb_has(src.pawns, sq as u64)
}

/// The side holds nothing on the square.
pub open spec fn side_clear_at(s: SidePieces, sq: int) -> bool {
    &&& !bb_has(s.king, sq as u64)
    &&& !bb_has(s.queens, sq as u64)
    &&& !bb_has(s.rooks, sq as u64)
    &&& !bb_has(s.bishops, sq as u64)
    &&& !bb_has(s.knights, sq as u64)
    &&& !bb_has(s.pawns, sq as u64)
}

/// The placement scan has passed the square: it lies above the current
/// rank, or before the current file on it.
pub open spec fn consumed_cell(rank: int, file: int, sq: int) -> bool {
    crate::square::sq_rank(sq) > rank || (crate::square::sq_rank(sq) == rank
        && crate::square::sq_file(sq) < file)
}

/// One square's state at a scan position: passed squares carry the
/// board's pieces, the rest are still empty.
pub open spec fn cell_ok(
    b: Board,
    w: SidePieces,
    bl: SidePieces,
    rank: int,
    file: int,
    sq: int,
) -> bool {
    if consumed_cell(rank, file, sq) {
        side_match_at(b.white, w, sq) && side_match_at(b.black, bl, sq)
    } else {
        side_clear_at(w, sq) && side_clear_at(bl, sq)
    }
}

/// The squares the placement scan has passed carry the board's pieces; the
/// rest are still empty.
pub open spec fn placed_agree(b: Board, w: SidePieces, bl: SidePieces, rank: int, file: int) -> bool {
    forall|sq: int| 0 <= sq < 64 ==> #[trigger] cell_ok(b, w, bl, rank, file, sq)
}

/// The length of the empty run starting at the file.
pub open spec fn run_len(b: Board, rank: int, file: int) -> int
    decreases 8 - file,
    when 0 <= file <= 8
{
    if file >= 8 || !sq_empty(b, rank * 8 + file) {
        0
    } else {
        1 + run_len(b, rank, file + 1)
    }
}

/// What follows a rank in the placement field: a separator and the ranks
/// below, or nothing after the last rank.
pub open spec fn rank_tail(b: Board, rank: int) -> Seq<char> {
    if rank > 0 {
        seq!['/'] + ranks_from(b, rank - 1)
    } else {
        Seq::<char>::empty()
    }
}

proof fn lemma_run_props(b: Board, rank: int, file: int)
    requires
        0 <= file <= 8,
    ensures
        0 <= run_len(b, rank, file) <= 8 - file,
        forall|t: int| file <= t < file + run_len(b, rank, file) ==> #[trigger] sq_empty(b, rank * 8 + t),
        file + run_len(b, rank, file) == 8 || !sq_empty(b, rank * 8 + file + run_len(b, rank, file)),
    decreases 8 - file,
{
    if file < 8 && sq_empty(b, rank * 8 + file) {
        lemma_run_props(b, rank, file + 1);
    }
}

/// An empty run serializes as one digit counting it plus the pending cells.
proof fn lemma_rank_fold_run(b: Board, rank: int, file: int, pending: int)
    requires
        0 <= file <= 8,
        1 <= pending,
        pending + run_len(b, rank, file) <= 8,
    ensures
        rank_fold(b, rank, file, pending) == seq![
            digit_char(pending + run_len(b, rank, file)),
        ] + rank_fold(b, rank, file + run_len(b, rank, file), 0),
    decreases 8 - file,
{
    if file == 8 {
        assert(rank_fold(b, rank, 8, pending) =~= seq![digit_char(pending)] + rank_fold(
            b,
            rank,
            8,
            0,
        ));
    } else if !sq_empty(b, rank * 8 + file) {
        assert(rank_fold(b, rank, file, pending) =~= seq![digit_char(pending)] + rank_fold(
            b,
            rank,
            file,
            0,
        ));
    } else {
        lemma_rank_fold_run(b, rank, file + 1, pending + 1);
    }
}

/// Once everything is consumed, the rebuilt sides are the board's sides.
proof fn lemma_sides_eq_from_match(b: Board, w: SidePieces, bl: SidePieces)
    requires
        forall|sq: int|
            0 <= sq < 64 ==> #[trigger] side_match_at(b.white, w, sq) && side_match_at(b.black, bl, sq),
    ensures
        w == b.white,
        bl == b.black,
{
    assert forall|j: u64| j < 64 implies bb_has(w.king, j) == bb_has(b.white.king, j) && bb_has(
        w.queens,
        j,
    ) == bb_has(b.white.queens, j) && bb_has(w.rooks, j) == bb_has(b.white.rooks, j) && bb_has(
        w.bishops,
        j,
    ) == bb_has(b.white.bishops, j) && bb_has(w.knights, j) == bb_has(b.white.knights, j)
        && bb_has(w.pawns, j) == bb_has(b.white.pawns, j) && bb_has(bl.king, j) == bb_has(
        b.black.king,
        j,
    ) && bb_has(bl.queens, j) == bb_has(b.black.queens, j) && bb_has(bl.rooks, j) == bb_has(
        b.black.rooks,
        j,
    ) && bb_has(bl.bishops, j) == bb_has(b.black.bishops, j) && bb_has(bl.knights, j) == bb_has(
        b.black.knights,
        j,
    ) && bb_has(bl.pawns, j) == bb_has(b.black.pawns, j) by {
        assert(side_match_at(b.white, w, j as int) && side_match_at(b.black, bl, j as int));
    }
    crate::board::lemma_bb_ext(w.king, b.white.king);
    crate::board::lemma_bb_ext(w.queens, b.white.queens);
    crate::board::lemma_bb_ext(w.rooks, b.white.rooks);
    crate::board::lemma_bb_ext(w.bishops, b.white.bishops);
    crate::board::lemma_bb_ext(w.knights, b.white.knights);
    crate::board::lemma_bb_ext(w.pawns, b.white.pawns);
    crate::board::lemma_bb_ext(bl.king, b.black.king);
    crate::board::lemma_bb_ext(bl.queens, b.black.queens);
    crate::board::lemma_bb_ext(bl.rooks, b.black.rooks);
    crate::board::lemma_bb_ext(bl.bishops, b.black.bishops);
    crate::board::lemma_bb_ext(bl.knights, b.black.knights);
    crate::board::lemma_bb_ext(bl.pawns, b.black.pawns);
}


proof fn placed_agree_inst(b: Board, w: SidePieces, bl: SidePieces, rank: int, file: int, sq: int)
    requires
        placed_agree(b, w, bl, rank, file),
        0 <= sq < 64,
    ensures
        consumed_cell(rank, file, sq) ==> side_match_at(b.white, w, sq) && side_match_at(
            b.black,
            bl,
            sq,
        ),
        !consumed_cell(rank, file, sq) ==> side_clear_at(w, sq) && side_clear_at(bl, sq),
{
    assert(cell_ok(b, w, bl, rank, file, sq));
}

/// Placing the printed letter of an occupied square advances the scan's
/// agreement by one file.
proof fn lemma_place_matches(b: Board, w: SidePieces, bl: SidePieces, rank: int, file: int)
    requires
        b.wf(),
        0 <= rank <= 7,
        0 <= file < 8,
        placed_agree(b, w, bl, rank, file),
        !sq_empty(b, rank * 8 + file),
    ensures
        spec_place(w, bl, piece_char(b, rank * 8 + file), rank * 8 + file) is Some,
        placed_agree(
            b,
            spec_place(w, bl, piece_char(b, rank * 8 + file), rank * 8 + file).unwrap().0,
            spec_place(w, bl, piece_char(b, rank * 8 + file), rank * 8 + file).unwrap().1,
            rank,
            file + 1,
        ),
        piece_char(b, rank * 8 + file) != ' ',
        piece_char(b, rank * 8 + file) != '/',
        !('1' <= piece_char(b, rank * 8 + file) && piece_char(b, rank * 8 + file) <= '9'),
{
    broadcast use crate::board::lemma_bb_with, crate::board::lemma_side_occupied_at;

    let sq = rank * 8 + file;
    assert(crate::square::sq_rank(sq) == rank && crate::square::sq_file(sq) == file) by {
        vstd::arithmetic::div_mod::lemma_fundamental_div_mod_converse(sq, 8, rank, file);
    }
    assert(!consumed_cell(rank, file, sq));
    assert(0 <= sq < 64);
    placed_agree_inst(b, w, bl, rank, file, sq);
    assert(side_clear_at(w, sq) && side_clear_at(bl, sq));
    assert(!w.has(sq as u64) && !bl.has(sq as u64));
    assert(b.white.count_at(sq as u64) + b.black.count_at(sq as u64) <= 1);
    let p = spec_place(w, bl, piece_char(b, sq), sq);
    assert(p is Some);
    let w2 = p.unwrap().0;
    let bl2 = p.unwrap().1;
    assert forall|sq2: int| 0 <= sq2 < 64 implies #[trigger] cell_ok(
        b,
        w2,
        bl2,
        rank,
        file + 1,
        sq2,
    ) by {
        vstd::arithmetic::div_mod::lemma_fundamental_div_mod(sq2, 8);
        vstd::arithmetic::div_mod::lemma_fundamental_div_mod_converse(sq, 8, rank, file);
        placed_agree_inst(b, w, bl, rank, file, sq2);
        if sq2 == sq {
            assert(side_match_at(b.white, w2, sq2) && side_match_at(b.black, bl2, sq2));
        } else {
            assert((sq2 as u64) != (sq as u64));
        }
    }


}

/// What remains of the placement field at a scan state, up to and
/// including the closing space.
pub open spec fn placement_window(b: Board, rank: int, file: int) -> Seq<char> {
    rank_fold(b, rank, file, 0) + rank_tail(b, rank) + seq![' ']
}

proof fn lemma_ranks_decomp(b: Board, r: int)
    requires
        0 <= r <= 7,
    ensures
        ranks_from(b, r) == rank_fold(b, r, 0, 0) + rank_tail(b, r),
{
    if r == 0 {
        assert(ranks_from(b, 0) =~= rank_fold(b, 0, 0, 0) + rank_tail(b, 0));
    } else {
        assert(ranks_from(b, r) =~= rank_fold(b, r, 0, 0) + rank_tail(b, r));
    }
}

/// The placement scanner, fed exactly the serialized placement, rebuilds
/// the board's two sides and stops after the closing space.
proof fn lemma_parse_placement_round(
    b: Board,
    text: Seq<char>,
    i: int,
    rank: int,
    file: int,
    w: SidePieces,
    bl: SidePieces,
)
    requires
        b.wf(),
        0 <= rank <= 7,
        0 <= file <= 8,
        0 <= i,
        i + placement_window(b, rank, file).len() <= text.len(),
        forall|k: int|
            0 <= k < placement_window(b, rank, file).len() ==> text[i + k]
                == #[trigger] placement_window(b, rank, file)[k],
        placed_agree(b, w, bl, rank, file),
    ensures
        parse_placement(text, i, rank, file, w, bl) == Some(
            (i + placement_window(b, rank, file).len(), b.white, b.black),
        ),
    decreases rank, 8 - file,
{
    let win = placement_window(b, rank, file);
    if file == 8 {
        assert(rank_fold(b, rank, 8, 0) =~= Seq::<char>::empty());
        if rank > 0 {
            lemma_ranks_decomp(b, rank - 1);
            let win2 = placement_window(b, rank - 1, 0);
            assert(win =~= seq!['/'] + win2);
            assert(win[0] == '/');
            assert(text[i + 0] == win[0]);
            assert forall|k: int|
                0 <= k < win2.len() implies text[i + 1 + k] == #[trigger] win2[k] by {
                assert(win[1 + k] == win2[k]);
                assert(text[i + (1 + k)] == win[1 + k]);
            }
            assert forall|sq: int|
                0 <= sq < 64 implies #[trigger] cell_ok(b, w, bl, rank - 1, 0, sq) by {
                placed_agree_inst(b, w, bl, rank, 8, sq);
                assert(consumed_cell(rank, 8, sq) == consumed_cell(rank - 1, 0, sq));
            }
            lemma_parse_placement_round(b, text, i + 1, rank - 1, 0, w, bl);
        } else {
            assert(win =~= seq![' ']);
            assert(win[0] == ' ');
            assert(text[i + 0] == win[0]);
            assert forall|sq: int|
                0 <= sq < 64 implies side_match_at(b.white, w, (#[trigger] (sq as u64)) as int)
                && side_match_at(b.black, bl, sq as int) by {
                assert(consumed_cell(0, 8, sq));
                placed_agree_inst(b, w, bl, 0, 8, sq);
                assert((sq as u64) as int == sq);
            }
            lemma_sides_eq_from_match(b, w, bl);
        }
    } else {
        let sq = rank * 8 + file;
        assert(crate::square::sq_rank(sq) == rank && crate::square::sq_file(sq) == file) by {
            vstd::arithmetic::div_mod::lemma_fundamental_div_mod_converse(sq, 8, rank, file);
        }
        if !sq_empty(b, sq) {
            lemma_place_matches(b, w, bl, rank, file);
            let pc = piece_char(b, sq);
            assert(rank_fold(b, rank, file, 0) =~= seq![pc] + rank_fold(b, rank, file + 1, 0));
            let win2 = placement_window(b, rank, file + 1);
            assert(win =~= seq![pc] + win2);
            assert(win[0] == pc);
            assert(text[i + 0] == win[0]);
            assert forall|k: int|
                0 <= k < win2.len() implies text[i + 1 + k] == #[trigger] win2[k] by {
                assert(win[1 + k] == win2[k]);
                assert(text[i + (1 + k)] == win[1 + k]);
            }
            let p = spec_place(w, bl, pc, sq);
            lemma_parse_placement_round(
                b,
                text,
                i + 1,
                rank,
                file + 1,
                p.unwrap().0,
                p.unwrap().1,
            );
        } else {
            lemma_run_props(b, rank, file);
            lemma_run_props(b, rank, file + 1);
            let run = run_len(b, rank, file);
            assert(run == 1 + run_len(b, rank, file + 1));
            assert(1 <= run <= 8 - file);
            lemma_rank_fold_run(b, rank, file + 1, 1);
            assert(rank_fold(b, rank, file, 0) == rank_fold(b, rank, file + 1, 1));
            assert(rank_fold(b, rank, file, 0) == seq![digit_char(run)] + rank_fold(
                b,
                rank,
                file + run,
                0,
            ));
            let win2 = placement_window(b, rank, file + run);
            assert(win =~= seq![digit_char(run)] + win2);
            assert(win[0] == digit_char(run));
            assert(text[i + 0] == win[0]);
            assert(digit_char(run) as int == 48 + run);
            assert('1' <= digit_char(run) && digit_char(run) <= '8');
            assert(digit_char(run) != ' ' && digit_char(run) != '/');
            assert forall|k: int|
                0 <= k < win2.len() implies text[i + 1 + k] == #[trigger] win2[k] by {
                assert(win[1 + k] == win2[k]);
                assert(text[i + (1 + k)] == win[1 + k]);
            }
            assert forall|sq2: int|
                0 <= sq2 < 64 implies #[trigger] cell_ok(b, w, bl, rank, file + run, sq2) by {
                vstd::arithmetic::div_mod::lemma_fundamental_div_mod(sq2, 8);
                placed_agree_inst(b, w, bl, rank, file, sq2);
                if consumed_cell(rank, file + run, sq2) && !consumed_cell(rank, file, sq2) {
                    // a freshly skipped cell: empty on the board and in the scan
                    assert(file <= crate::square::sq_file(sq2) < file + run);
                    assert(sq2 == rank * 8 + crate::square::sq_file(sq2));
                    assert(sq_empty(b, rank * 8 + crate::square::sq_file(sq2)));
                }
            }
            lemma_parse_placement_round(b, text, i + 1, rank, file + run, w, bl);
        }
    }
}


/// The round-trip law: parsing a serialized position yields the position.
/// Together with `into_fen` and `from_fen` being pinned to `fen_chars` and
/// `spec_from_fen`, parsing the text `into_fen` writes returns exactly the
/// board it was written from.
#[verifier::rlimit(100)]
pub proof fn lemma_fen_round_trip(b: Board)
    requires
        b.wf(),
    ensures
        spec_from_fen(fen_chars(b)) == Some(b),
{
    let text = fen_chars(b);
    let win = placement_window(b, 7, 0);
    let side_part = seq![
        match b.side_to_move {
            Colour::White => 'w',
            Colour::Black => 'b',
        },
        ' ',
    ];
    let cast_part = castling_chars(b.castling) + seq![' '];
    let ep_part = ep_chars(b);
    let half_part = seq![' '] + dec_chars(b.halfmove as int);
    let full_part = seq![' '] + dec_chars(b.fullmove as int);
    let rest1 = side_part + cast_part + ep_part + half_part + full_part;
    lemma_ranks_decomp(b, 7);
    assert(text =~= win + rest1);
    let i1 = win.len() as int;

    // the empty scan state: nothing consumed, nothing placed
    assert forall|sq: int|
        0 <= sq < 64 implies #[trigger] cell_ok(
        b,
        SidePieces::spec_empty(),
        SidePieces::spec_empty(),
        7,
        0,
        sq,
    ) by {
        assert(!consumed_cell(7, 0, sq)) by {
            vstd::arithmetic::div_mod::lemma_fundamental_div_mod(sq, 8);
        }
        let squ = sq as u64;
        assert(!bb_has(0u64, squ)) by (bit_vector);
    }
    assert forall|k: int| 0 <= k < win.len() implies text[0 + k] == #[trigger] win[k] by {
        assert(text[k] == (win + rest1)[k]);
    }
    lemma_parse_placement_round(
        b,
        text,
        0,
        7,
        0,
        SidePieces::spec_empty(),
        SidePieces::spec_empty(),
    );

    // each trailer field sits right after the one before it
    assert forall|k: int| 0 <= k < rest1.len() implies text[i1 + k] == #[trigger] rest1[k] by {
        assert(text[i1 + k] == (win + rest1)[win.len() + k]);
    }
    let rest2 = cast_part + ep_part + half_part + full_part;
    assert(rest1 =~= side_part + rest2);
    let i2 = i1 + 2;
    assert(side_part[0] == rest1[0] && side_part[1] == rest1[1]);
    assert(text[i1 + 0] == side_part[0]);
    assert(text[i1 + 1] == side_part[1]);
    lemma_parse_side_round(text, i1, b.side_to_move);

    assert forall|k: int| 0 <= k < rest2.len() implies text[i2 + k] == #[trigger] rest2[k] by {
        assert(rest1[2 + k] == rest2[k]);
        assert(text[i1 + (2 + k)] == rest1[2 + k]);
    }
    let clen = castling_chars(b.castling).len() as int;
    assert forall|k: int|
        0 <= k < clen implies text[i2 + k] == #[trigger] castling_chars(b.castling)[k] by {
        assert(cast_part[k] == castling_chars(b.castling)[k]);
        assert(text[i2 + k] == rest2[k]);
    }
    assert(cast_part[clen] == ' ');
    assert(text[i2 + clen] == rest2[clen]);
    lemma_parse_castling_round(text, i2, b.castling);

    let i3 = i2 + clen + 1;
    let rest3 = ep_part + half_part + full_part;
    assert(rest2 =~= cast_part + rest3);
    assert forall|k: int| 0 <= k < rest3.len() implies text[i3 + k] == #[trigger] rest3[k] by {
        assert(rest2[clen + 1 + k] == rest3[k]);
        assert(text[i2 + (clen + 1 + k)] == rest2[clen + 1 + k]);
    }
    let elen = ep_part.len() as int;
    assert forall|k: int| 0 <= k < elen implies text[i3 + k] == #[trigger] ep_chars(b)[k] by {
        assert(rest3[k] == ep_part[k]);
        assert(text[i3 + k] == rest3[k]);
    }
    assert(b.ep <= EP_NONE);
    lemma_parse_ep_round(text, i3, b);

    let i4 = i3 + elen;
    let rest4 = half_part + full_part;
    assert(rest3 =~= ep_part + rest4);
    assert forall|k: int| 0 <= k < rest4.len() implies text[i4 + k] == #[trigger] rest4[k] by {
        assert(rest3[elen + k] == rest4[k]);
        assert(text[i3 + (elen + k)] == rest3[elen + k]);
    }
    assert(rest4[0] == ' ');
    assert(text[i4 + 0] == rest4[0]);
    let hlen = dec_chars(b.halfmove as int).len() as int;
    lemma_digits_val_dec(b.halfmove as int);
    lemma_digits_val_dec(b.fullmove as int);
    assert forall|k: int|
        0 <= k < hlen implies text[i4 + 1 + k] == #[trigger] dec_chars(b.halfmove as int)[k] by {
        assert(rest4[1 + k] == half_part[1 + k]);
        assert(half_part[1 + k] == dec_chars(b.halfmove as int)[k]);
        assert(text[i4 + (1 + k)] == rest4[1 + k]);
    }
    let i5 = i4 + 1 + hlen;
    let rest5 = full_part;
    assert(rest4 =~= half_part + rest5);
    assert forall|k: int| 0 <= k < rest5.len() implies text[i5 + k] == #[trigger] rest5[k] by {
        assert(rest4[half_part.len() + k] == rest5[k]);
        assert(text[i4 + (half_part.len() + k)] == rest4[half_part.len() + k]);
    }
    // the halfmove run ends at the following space
    assert(text[i4 + 1 + hlen] == ' ');
    assert(!('0' <= text[i4 + 1 + hlen] && text[i4 + 1 + hlen] <= '9'));
    lemma_parse_clock_round(text, i4 + 1, b.halfmove);

    assert(rest5[0] == ' ');
    let flen = dec_chars(b.fullmove as int).len() as int;
    assert forall|k: int|
        0 <= k < flen implies text[i5 + 1 + k] == #[trigger] dec_chars(b.fullmove as int)[k] by {
        assert(rest5[1 + k] == full_part[1 + k]);
        assert(full_part[1 + k] == dec_chars(b.fullmove as int)[k]);
        assert(text[i5 + (1 + k)] == rest5[1 + k]);
    }
    // the fullmove run ends with the text
    assert(i5 + 1 + flen == text.len());
    lemma_parse_clock_round(text, i5 + 1, b.fullmove);

    assert(spec_from_fen(text) == Some(
        Board {
            white: b.white,
            black: b.black,
            side_to_move: b.side_to_move,
            castling: b.castling,
            ep: b.ep,
            halfmove: b.halfmove,
            fullmove: b.fullmove,
        },
    ));
    assert(b == (Board {
        white: b.white,
        black: b.black,
        side_to_move: b.side_to_move,
        castling: b.castling,
        ep: b.ep,
        halfmove: b.halfmove,
        fullmove: b.fullmove,
    }));
}

} // verus!
