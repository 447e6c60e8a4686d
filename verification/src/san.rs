//! Standard algebraic notation: a move's name, the name of a legal move
//! of a position, and making a move named by its notation.
use vstd::prelude::*;

use crate::board::{bb_test, Board, Colour, Piece};
use crate::error::ChessError;
use crate::movegen::{legal_moves, ChessMove, FinishedState, GameState, MoveType, ReasonWin};
use crate::square::{spec_file_char, spec_rank_char, valid_sq};

verus! {

/// A move in standard algebraic notation, decomposed.
#[derive(Debug, Clone, Copy, PartialEq, Eq, Structural)]
pub struct SanMove {
    pub piece: Piece,
    pub capture: bool,
    pub check: bool,
    pub checkmate: bool,
    pub origin: i32,
    pub dis_file: bool,
    pub dis_rank: bool,
    pub dest: i32,
    pub promotion: Option<Piece>,
    pub castle_kingside: bool,
    pub castle_queenside: bool,
}

impl SanMove {
    /// A notation record from its parts.
    pub fn new(
        piece: Piece,
        capture: bool,
        check: bool,
        checkmate: bool,
        origin: i32,
        disambiguation: (bool, bool),
        dest: i32,
        promotion: Option<Piece>,
        castling: Option<(bool, bool)>,
    ) -> (r: SanMove)
        ensures
            r == (SanMove {
                piece,
                capture,
                check,
                checkmate,
                origin,
                dis_file: disambiguation.0,
                dis_rank: disambiguation.1,
                dest,
                promotion,
                castle_kingside: castling == Some((true, false)),
                castle_queenside: castling == Some((false, true)),
            }),
    {
        SanMove {
            piece,
            capture,
            check,
            checkmate,
            origin,
            dis_file: disambiguation.0,
            dis_rank: disambiguation.1,
            dest,
            promotion,
            castle_kingside: match castling {
                Some(c) => c.0 && !c.1,
                None => false,
            },
            castle_queenside: match castling {
                Some(c) => !c.0 && c.1,
                None => false,
            },
        }
    }

    /// The kingside castling move of the colour.
    pub fn kingside_castle(colour: Colour) -> (r: SanMove)
        ensures
            r == (SanMove {
                piece: Piece::King(colour),
                capture: false,
                check: false,
                checkmate: false,
                origin: match colour {
                    Colour::White => 4,
                    Colour::Black => 60,
                },
                dis_file: false,
                dis_rank: false,
                dest: match colour {
                    Colour::White => 6,
                    Colour::Black => 62,
                },
                promotion: None,
                castle_kingside: true,
                castle_queenside: false,
            }),
    {
        let (origin, dest): (i32, i32) = if colour == Colour::White {
            (4, 6)
        } else {
            (60, 62)
        };
        SanMove {
            piece: Piece::King(colour),
            capture: false,
            check: false,
            checkmate: false,
            origin,
            dis_file: false,
            dis_rank: false,
            dest,
            promotion: None,
            castle_kingside: true,
            castle_queenside: false,
        }
    }

    /// The queenside castling move of the colour.
    pub fn queenside_castle(colour: Colour) -> (r: SanMove)
        ensures
            r == (SanMove {
                piece: Piece::King(colour),
                capture: false,
                check: false,
                checkmate: false,
                origin: match colour {
                    Colour::White => 4,
                    Colour::Black => 60,
                },
                dis_file: false,
                dis_rank: false,
                dest: match colour {
                    Colour::White => 2,
                    Colour::Black => 58,
                },
                promotion: None,
                castle_kingside: false,
                castle_queenside: true,
            }),
    {
        let (origin, dest): (i32, i32) = if colour == Colour::White {
            (4, 2)
        } else {
            (60, 58)
        };
        SanMove {
            piece: Piece::King(colour),
            capture: false,
            check: false,
            checkmate: false,
            origin,
            dis_file: false,
            dis_rank: false,
            dest,
            promotion: None,
            castle_kingside: false,
            castle_queenside: true,
        }
    }

    /// The notation text of a record that is not a castling move: piece
    /// letter, any disambiguation, 'x' on captures, the target square, any
    /// promotion piece, and the check or mate mark.
    pub open spec fn spec_plain_text(self) -> Seq<char> {
        let t0 = self.piece.spec_letter();
        let t1 = if self.dis_file {
            t0.push(spec_file_char(self.origin as int))
        } else {
            t0
        };
        let t2 = if self.dis_rank {
            t1.push(spec_rank_char(self.origin as int))
        } else {
            t1
        };
        let t3 = if self.capture {
            t2.push('x')
        } else {
            t2
        };
        let t4 = t3.push(spec_file_char(self.dest as int)).push(spec_rank_char(self.dest as int));
        let t5 = match self.promotion {
            Some(p) => t4.push('=') + p.spec_letter(),
            None => t4,
        };
        if self.check {
            t5.push('+')
        } else if self.checkmate {
            t5.push('#')
        } else {
            t5
        }
    }

    /// The notation text of the record.
    pub open spec fn spec_text(self) -> Seq<char> {
        if self.castle_kingside {
            seq!['O', '-', 'O']
        } else if self.castle_queenside {
            seq!['O', '-', 'O', '-', 'O']
        } else {
            self.spec_plain_text()
        }
    }

    fn plain_text(&self) -> (r: String)
        requires
            valid_sq(self.origin as int),
            valid_sq(self.dest as int),
            !self.castle_kingside,
            !self.castle_queenside,
        ensures
            r@ == self.spec_plain_text(),
    {
        let mut s = String::new();
        s.append(self.piece.letter());
        proof {
            assert(s@ =~= self.piece.spec_letter());
        }
        if self.dis_file {
            push_san_char(&mut s, crate::square::file_char(self.origin));
        }
        if self.dis_rank {
            push_san_char(&mut s, crate::square::rank_char(self.origin));
        }
        if self.capture {
            push_san_char(&mut s, 'x');
        }
        push_san_char(&mut s, crate::square::file_char(self.dest));
        push_san_char(&mut s, crate::square::rank_char(self.dest));
        if let Some(res_piece) = self.promotion {
            push_san_char(&mut s, '=');
            s.append(res_piece.letter());
        }
        if self.check {
            push_san_char(&mut s, '+');
        } else if self.checkmate {
            push_san_char(&mut s, '#');
        }
        s
    }

    /// Writes the record as notation text, exactly as `spec_text` lays it
    /// out.
    pub fn to_text(&self) -> (r: String)
        requires
            valid_sq(self.origin as int),
            valid_sq(self.dest as int),
        ensures
            r@ == self.spec_text(),
    {
        if self.castle_kingside {
            let mut s = String::new();
            push_san_char(&mut s, 'O');
            push_san_char(&mut s, '-');
            push_san_char(&mut s, 'O');
            proof {
                assert(s@ =~= seq!['O', '-', 'O']);
            }
            return s;
        }
        if self.castle_queenside {
            let mut s = String::new();
            push_san_char(&mut s, 'O');
            push_san_char(&mut s, '-');
            push_san_char(&mut s, 'O');
            push_san_char(&mut s, '-');
            push_san_char(&mut s, 'O');
            proof {
                assert(s@ =~= seq!['O', '-', 'O', '-', 'O']);
            }
            return s;
        }
        self.plain_text()
    }
}

/// A character standard algebraic notation uses.
pub open spec fn san_char(c: char) -> bool {
    ||| ('1' <= c <= '8')
    ||| ('a' <= c <= 'h')
    ||| c == 'K' || c == 'Q' || c == 'R' || c == 'B' || c == 'N'
    ||| c == 'O' || c == 'x' || c == '=' || c == '+' || c == '#' || c == '-'
}

/// Appends one notation character to the string.
fn push_san_char(s: &mut String, c: char)
    requires
        san_char(c),
    ensures
        final(s)@ == old(s)@.push(c),
{
    match c {
        'K' => {
            proof {
                reveal_strlit("K");
                assert("K"@ =~= seq!['K']);
            }
            s.append("K");
        },
        'Q' => {
            proof {
                reveal_strlit("Q");
                assert("Q"@ =~= seq!['Q']);
            }
            s.append("Q");
        },
        'R' => {
            proof {
                reveal_strlit("R");
                assert("R"@ =~= seq!['R']);
            }
            s.append("R");
        },
        'B' => {
            proof {
                reveal_strlit("B");
                assert("B"@ =~= seq!['B']);
            }
            s.append("B");
        },
        'N' => {
            proof {
                reveal_strlit("N");
                assert("N"@ =~= seq!['N']);
            }
            s.append("N");
        },
        'O' => {
            proof {
                reveal_strlit("O");
                assert("O"@ =~= seq!['O']);
            }
            s.append("O");
        },
        'a' => {
            proof {
                reveal_strlit("a");
                assert("a"@ =~= seq!['a']);
            }
            s.append("a");
        },
        'b' => {
            proof {
                reveal_strlit("b");
                assert("b"@ =~= seq!['b']);
            }
            s.append("b");
        },
        'c' => {
            proof {
                reveal_strlit("c");
                assert("c"@ =~= seq!['c']);
            }
            s.append("c");
        },
        'd' => {
            proof {
                reveal_strlit("d");
                assert("d"@ =~= seq!['d']);
            }
            s.append("d");
        },
        'e' => {
            proof {
                reveal_strlit("e");
                assert("e"@ =~= seq!['e']);
            }
            s.append("e");
        },
        'f' => {
            proof {
                reveal_strlit("f");
                assert("f"@ =~= seq!['f']);
            }
            s.append("f");
        },
        'g' => {
            proof {
                reveal_strlit("g");
                assert("g"@ =~= seq!['g']);
            }
            s.append("g");
        },
        'h' => {
            proof {
                reveal_strlit("h");
                assert("h"@ =~= seq!['h']);
            }
            s.append("h");
        },
        '1' => {
            proof {
                reveal_strlit("1");
                assert("1"@ =~= seq!['1']);
            }
            s.append("1");
        },
        '2' => {
            proof {
                reveal_strlit("2");
                assert("2"@ =~= seq!['2']);
            }
            s.append("2");
        },
        '3' => {
            proof {
                reveal_strlit("3");
                assert("3"@ =~= seq!['3']);
            }
            s.append("3");
        },
        '4' => {
            proof {
                reveal_strlit("4");
                assert("4"@ =~= seq!['4']);
            }
            s.append("4");
        },
        '5' => {
            proof {
                reveal_strlit("5");
                assert("5"@ =~= seq!['5']);
            }
            s.append("5");
        },
        '6' => {
            proof {
                reveal_strlit("6");
                assert("6"@ =~= seq!['6']);
            }
            s.append("6");
        },
        '7' => {
            proof {
                reveal_strlit("7");
                assert("7"@ =~= seq!['7']);
            }
            s.append("7");
        },
        '8' => {
            proof {
                reveal_strlit("8");
                assert("8"@ =~= seq!['8']);
            }
            s.append("8");
        },
        'x' => {
            proof {
                reveal_strlit("x");
                assert("x"@ =~= seq!['x']);
            }
            s.append("x");
        },
        '=' => {
            proof {
                reveal_strlit("=");
                assert("="@ =~= seq!['=']);
            }
            s.append("=");
        },
        '+' => {
            proof {
                reveal_strlit("+");
                assert("+"@ =~= seq!['+']);
            }
            s.append("+");
        },
        '#' => {
            proof {
                reveal_strlit("#");
                assert("#"@ =~= seq!['#']);
            }
            s.append("#");
        },
        '-' => {
            proof {
                reveal_strlit("-");
                assert("-"@ =~= seq!['-']);
            }
            s.append("-");
        },
        _ => {},
    }
    proof {
        assert(old(s)@ + seq![c] =~= old(s)@.push(c));
    }
}


/// Compares two pieces of text character by character.
fn text_eq(a: &str, b: &str) -> (r: bool)
    ensures
        r == (a@ == b@),
{
    let na = a.unicode_len();
    let nb = b.unicode_len();
    if na != nb {
        proof {
            assert(a@ != b@);
        }
        return false;
    }
    let mut i: usize = 0;
    while i < na
        invariant
            0 <= i <= na,
            na == a@.len(),
            na == b@.len(),
            forall|j: int| 0 <= j < i ==> a@[j] == b@[j],
        decreases na - i,
    {
        if a.get_char(i) != b.get_char(i) {
            return false;
        }
        i += 1;
    }
    proof {
        assert(a@ =~= b@);
    }
    true
}


/// The index of the first legal move whose resulting position is `res`,
/// or the move count when none matches.
pub open spec fn first_board_match(ms: Seq<ChessMove>, res: Board, i: int) -> int
    decreases ms.len() - i,
    when 0 <= i <= ms.len()
{
    if i >= ms.len() {
        ms.len() as int
    } else if ms[i].board == res {
        i
    } else {
        first_board_match(ms, res, i + 1)
    }
}

/// What the other legal moves of the same piece type to the same square
/// demand of the move at `idx`, scanning the first `n` moves: whether one
/// exists, whether one shares the origin's file, whether one shares its
/// rank.
pub open spec fn dis_counts(ms: Seq<ChessMove>, idx: int, n: int) -> (bool, bool, bool)
    decreases n,
{
    if n <= 0 {
        (false, false, false)
    } else {
        let acc = dis_counts(ms, idx, n - 1);
        let m2 = ms[n - 1];
        let mv = ms[idx];
        if n - 1 != idx && m2.piece == mv.piece && m2.dest == mv.dest && m2.origin != mv.origin {
            (
                true,
                acc.1 || crate::square::sq_file(m2.origin as int) == crate::square::sq_file(
                    mv.origin as int,
                ),
                acc.2 || crate::square::sq_rank(m2.origin as int) == crate::square::sq_rank(
                    mv.origin as int,
                ),
            )
        } else {
            acc
        }
    }
}

/// The notation record of the legal move at index `idx` of the position.
pub open spec fn spec_san_at(b: Board, idx: int) -> SanMove {
    let ms = legal_moves(b);
    let mv = ms[idx];
    let colour = b.side_to_move;
    if mv.kind is CastleKingside {
        SanMove {
            piece: Piece::King(colour),
            capture: false,
            check: false,
            checkmate: false,
            origin: match colour {
                Colour::White => 4,
                Colour::Black => 60,
            },
            dis_file: false,
            dis_rank: false,
            dest: match colour {
                Colour::White => 6,
                Colour::Black => 62,
            },
            promotion: None,
            castle_kingside: true,
            castle_queenside: false,
        }
    } else if mv.kind is CastleQueenside {
        SanMove {
            piece: Piece::King(colour),
            capture: false,
            check: false,
            checkmate: false,
            origin: match colour {
                Colour::White => 4,
                Colour::Black => 60,
            },
            dis_file: false,
            dis_rank: false,
            dest: match colour {
                Colour::White => 2,
                Colour::Black => 58,
            },
            promotion: None,
            castle_kingside: false,
            castle_queenside: true,
        }
    } else {
        let them = b.side(colour.spec_other());
        let capture = them.has(mv.dest as u64) || mv.kind is EnPassant;
        let d = dis_counts(ms, idx, ms.len() as int);
        let df0 = d.0 && !d.1;
        let dr0 = d.0 && d.1 && !d.2;
        let both = d.0 && d.1 && d.2;
        let df1 = if both {
            true
        } else {
            df0
        };
        let dr1 = if both {
            true
        } else {
            dr0
        };
        let df2 = if mv.promotion is Some && !capture {
            false
        } else {
            df1
        };
        let dr2 = if mv.promotion is Some && !capture {
            false
        } else {
            dr1
        };
        let df3 = if mv.piece is Pawn && capture {
            true
        } else {
            df2
        };
        let checkmate = crate::movegen::spec_game_state(
            mv.board,
            legal_moves(mv.board).len() as int,
        ) == GameState::Finished(FinishedState::Win(colour, ReasonWin::Checkmate));
        let check = !checkmate && crate::movegen::in_check_spec(mv.board, mv.board.side_to_move);
        SanMove {
            piece: mv.piece,
            capture,
            check,
            checkmate,
            origin: mv.origin,
            dis_file: df3,
            dis_rank: dr2,
            dest: mv.dest,
            promotion: mv.promotion,
            castle_kingside: false,
            castle_queenside: false,
        }
    }
}

/// The notation of the move that leads from `b` to `res`: the record of
/// the first legal move whose resulting position is `res`.
pub open spec fn spec_san(b: Board, res: Board) -> SanMove {
    spec_san_at(b, first_board_match(legal_moves(b), res, 0))
}

/// The index of the first legal move whose notation record is `m`, or the
/// move count when none matches.
pub open spec fn first_san_match(b: Board, m: SanMove, i: int) -> int
    decreases legal_moves(b).len() - i,
    when 0 <= i <= legal_moves(b).len()
{
    let ms = legal_moves(b);
    if i >= ms.len() {
        ms.len() as int
    } else if spec_san(b, ms[i].board) == m {
        i
    } else {
        first_san_match(b, m, i + 1)
    }
}

/// The index of the first legal move whose notation text is `value`, or
/// the move count when none matches.
pub open spec fn first_text_match(b: Board, value: Seq<char>, i: int) -> int
    decreases legal_moves(b).len() - i,
    when 0 <= i <= legal_moves(b).len()
{
    let ms = legal_moves(b);
    if i >= ms.len() {
        ms.len() as int
    } else if spec_san(b, ms[i].board).spec_text() == value {
        i
    } else {
        first_text_match(b, value, i + 1)
    }
}

impl Board {
    /// The notation of a legal move of this position, identified by the
    /// position it leads to.
    pub fn get_san(&self, res_board: &Board) -> (r: SanMove)
        requires
            self.playable(),
            exists|i: int|
                0 <= i < legal_moves(*self).len() && (#[trigger] legal_moves(*self)[i]).board
                    == *res_board,
        ensures
            r == spec_san(*self, *res_board),
            valid_sq(r.origin as int),
            valid_sq(r.dest as int),
    {
        let ghost ms = legal_moves(*self);
        let moves = self.generate_legal_moves();
        let mut idx: usize = 0;
        let mut found = false;
        let mut i: usize = 0;
        while i < moves.len()
            invariant
                0 <= i <= moves@.len(),
                moves@ == ms,
                ms == legal_moves(*self),
                found ==> idx < moves@.len() && moves@[idx as int].board == *res_board && idx
                    == first_board_match(ms, *res_board, 0),
                !found ==> forall|j: int| 0 <= j < i ==> (#[trigger] moves@[j]).board != *res_board,
                !found ==> first_board_match(ms, *res_board, 0) == first_board_match(
                    ms,
                    *res_board,
                    i as int,
                ),
            decreases moves@.len() - i,
        {
            if !found && moves[i].board == *res_board {
                idx = i;
                found = true;
            }
            i += 1;
        }
        if !found {
            proof {
                assert(false);
            }
        }
        proof {
            assert(idx == first_board_match(ms, *res_board, 0));
        }
        let mv = moves[idx];
        let colour = self.side_to_move();
        if matches!(mv.kind, MoveType::CastleKingside) {
            let r = SanMove::kingside_castle(colour);
            proof {
                assert(r == spec_san_at(*self, idx as int));
            }
            return r;
        }
        if matches!(mv.kind, MoveType::CastleQueenside) {
            let r = SanMove::queenside_castle(colour);
            proof {
                assert(r == spec_san_at(*self, idx as int));
            }
            return r;
        }
        let them = self.get_side(colour.other());
        let capture = bb_test(them.occupied(), mv.dest as u64) || matches!(
            mv.kind,
            MoveType::EnPassant,
        );
        // disambiguation: another legal move of the same piece type to the
        // same square forces the origin's file, rank, or both into the text
        let mut any_other = false;
        let mut other_same_file = false;
        let mut other_same_rank = false;
        let mut j: usize = 0;
        while j < moves.len()
            invariant
                0 <= j <= moves@.len(),
                moves@ == ms,
                ms == legal_moves(*self),
                idx < moves@.len(),
                mv == ms[idx as int],
                valid_sq(mv.origin as int),
                forall|k: int|
                    0 <= k < moves@.len() ==> crate::square::valid_sq(
                        (#[trigger] moves@[k]).origin as int,
                    ),
                (any_other, other_same_file, other_same_rank) == dis_counts(
                    ms,
                    idx as int,
                    j as int,
                ),
            decreases moves@.len() - j,
        {
            let m2 = moves[j];
            if j != idx && m2.piece == mv.piece && m2.dest == mv.dest && m2.origin != mv.origin {
                any_other = true;
                if m2.origin % 8 == mv.origin % 8 {
                    other_same_file = true;
                }
                if m2.origin / 8 == mv.origin / 8 {
                    other_same_rank = true;
                }
            }
            j += 1;
        }
        let mut dis_file = any_other && !other_same_file;
        let mut dis_rank = any_other && other_same_file && !other_same_rank;
        let mut both = any_other && other_same_file && other_same_rank;
        if both {
            dis_file = true;
            dis_rank = true;
        }
        if mv.promotion.is_some() && !capture {
            dis_file = false;
            dis_rank = false;
        }
        if matches!(mv.piece, Piece::Pawn(_)) && capture {
            dis_file = true;
        }
        let gs = mv.board.get_game_state();
        let checkmate = gs == GameState::Finished(
            FinishedState::Win(colour, ReasonWin::Checkmate),
        );
        let check = if checkmate {
            false
        } else {
            mv.board.in_check(mv.board.side_to_move())
        };
        let r = SanMove {
            piece: mv.piece,
            capture,
            check,
            checkmate,
            origin: mv.origin,
            dis_file,
            dis_rank,
            dest: mv.dest,
            promotion: mv.promotion,
            castle_kingside: false,
            castle_queenside: false,
        };
        proof {
            assert(r == spec_san_at(*self, idx as int));
        }
        r
    }

    /// Makes the legal move whose notation record matches `m`: the first
    /// such move in generator order. A name no legal move carries is
    /// rejected and the position left unchanged.
    pub fn make_san_move(&mut self, m: SanMove) -> (r: Result<(), ChessError>)
        requires
            old(self).playable(),
        ensures
            r is Ok <==> first_san_match(*old(self), m, 0) < legal_moves(*old(self)).len(),
            r is Ok ==> *final(self) == legal_moves(*old(self))[first_san_match(
                *old(self),
                m,
                0,
            )].board,
            r is Err ==> *final(self) == *old(self),
    {
        let ghost b0 = *old(self);
        let ghost ms = legal_moves(*old(self));
        let moves = self.generate_legal_moves();
        let mut i: usize = 0;
        while i < moves.len()
            invariant
                0 <= i <= moves@.len(),
                *self == b0,
                b0 == *old(self),
                moves@ == ms,
                ms == legal_moves(b0),
                self.playable(),
                first_san_match(b0, m, 0) == first_san_match(b0, m, i as int),
            decreases moves@.len() - i,
        {
            proof {
                assert(legal_moves(*self)[i as int].board == moves@[i as int].board);
            }
            let found_san = self.get_san(&moves[i].board);
            proof {
                assert(found_san == spec_san(b0, ms[i as int].board));
            }
            if found_san == m {
                let chosen = moves[i].board;
                proof {
                    assert(first_san_match(b0, m, i as int) == i);
                    assert(legal_moves(b0)[i as int].board == chosen);
                }
                *self = chosen;
                return Ok(());
            }
            i += 1;
        }
        proof {
            assert(first_san_match(b0, m, 0) == ms.len());
        }
        Err(ChessError::InputError)
    }
}

impl SanMove {
    /// The record of the first legal move whose notation text matches;
    /// rejects a name no legal move of the position writes.
    pub fn from_string(value: &str, origin_board: &Board) -> (r: Result<SanMove, ChessError>)
        requires
            origin_board.playable(),
        ensures
            r is Ok <==> first_text_match(*origin_board, value@, 0) < legal_moves(
                *origin_board,
            ).len(),
            r is Ok ==> r.unwrap() == spec_san(
                *origin_board,
                legal_moves(*origin_board)[first_text_match(*origin_board, value@, 0)].board,
            ) && r.unwrap().spec_text() == value@,
    {
        let ghost b0 = *origin_board;
        let ghost ms = legal_moves(b0);
        let moves = origin_board.generate_legal_moves();
        let mut i: usize = 0;
        while i < moves.len()
            invariant
                0 <= i <= moves@.len(),
                moves@ == ms,
                ms == legal_moves(b0),
                b0 == *origin_board,
                origin_board.playable(),
                first_text_match(b0, value@, 0) == first_text_match(b0, value@, i as int),
            decreases moves@.len() - i,
        {
            proof {
                assert(legal_moves(*origin_board)[i as int].board == moves@[i as int].board);
            }
            let san = origin_board.get_san(&moves[i].board);
            let text = san.to_text();
            if text_eq(text.as_str(), value) {
                proof {
                    assert(san.spec_text() == value@);
                    assert(first_text_match(b0, value@, i as int) == i);
                }
                return Ok(san);
            }
            i += 1;
        }
        proof {
            assert(first_text_match(b0, value@, 0) == ms.len());
        }
        Err(ChessError::InputError)
    }
}

} // verus!
