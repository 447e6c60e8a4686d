//! The position model: one bitboard per piece type and side, plus the
//! side to move, castling rights, en-passant square and move clocks.
//!
//! Bit `sq` of a bitboard is set when that piece stands on square `sq`
//! (a1 = 0 .. h8 = 63, see `square`).
use vstd::prelude::*;

verus! {

#[derive(Debug, Clone, Copy, PartialEq, Eq, Structural, Hash)]
pub enum Colour {
    White,
    Black,
}

impl Colour {
    pub open spec fn spec_other(self) -> Colour {
        match self {
            Colour::White => Colour::Black,
            Colour::Black => Colour::White,
        }
    }

    pub fn other(self) -> (r: Colour)
        ensures
            r == self.spec_other(),
    {
        match self {
            Colour::White => Colour::Black,
            Colour::Black => Colour::White,
        }
    }
}

#[derive(Debug, Clone, Copy, PartialEq, Eq, Structural, Hash)]
pub enum Piece {
    King(Colour),
    Queen(Colour),
    Rook(Colour),
    Bishop(Colour),
    Knight(Colour),
    Pawn(Colour),
}

impl Piece {
    pub open spec fn spec_colour(self) -> Colour {
        match self {
            Piece::King(c) => c,
            Piece::Queen(c) => c,
            Piece::Rook(c) => c,
            Piece::Bishop(c) => c,
            Piece::Knight(c) => c,
            Piece::Pawn(c) => c,
        }
    }

    pub fn colour(self) -> (r: Colour)
        ensures
            r == self.spec_colour(),
    {
        match self {
            Piece::King(c) => c,
            Piece::Queen(c) => c,
            Piece::Rook(c) => c,
            Piece::Bishop(c) => c,
            Piece::Knight(c) => c,
            Piece::Pawn(c) => c,
        }
    }

    /// The SAN letter of the piece; pawns have none.
    pub open spec fn spec_letter(self) -> Seq<char> {
        match self {
            Piece::King(_) => seq!['K'],
            Piece::Queen(_) => seq!['Q'],
            Piece::Rook(_) => seq!['R'],
            Piece::Bishop(_) => seq!['B'],
            Piece::Knight(_) => seq!['N'],
            Piece::Pawn(_) => Seq::<char>::empty(),
        }
    }

    pub fn letter(self) -> (r: &'static str)
        ensures
            r@ == self.spec_letter(),
    {
        match self {
            Piece::King(_) => {
                proof {
                    reveal_strlit("K");
                    assert("K"@ =~= seq!['K']);
                }
                "K"
            },
            Piece::Queen(_) => {
                proof {
                    reveal_strlit("Q");
                    assert("Q"@ =~= seq!['Q']);
                }
                "Q"
            },
            Piece::Rook(_) => {
                proof {
                    reveal_strlit("R");
                    assert("R"@ =~= seq!['R']);
                }
                "R"
            },
            Piece::Bishop(_) => {
                proof {
                    reveal_strlit("B");
                    assert("B"@ =~= seq!['B']);
                }
                "B"
            },
            Piece::Knight(_) => {
                proof {
                    reveal_strlit("N");
                    assert("N"@ =~= seq!['N']);
                }
                "N"
            },
            Piece::Pawn(_) => {
                proof {
                    reveal_strlit("");
                    assert(""@ =~= Seq::<char>::empty());
                }
                ""
            },
        }
    }
}

/// True when bit `sq` of the bitboard is set.
pub open spec fn bb_has(bb: u64, sq: u64) -> bool {
    (bb >> sq) & 1u64 == 1u64
}

pub fn bb_test(bb: u64, sq: u64) -> (r: bool)
    requires
        sq < 64,
    ensures
        r == bb_has(bb, sq),
{
    (bb >> sq) & 1u64 == 1u64
}

pub open spec fn bb_with(bb: u64, sq: u64) -> u64 {
    bb | (1u64 << sq)
}

pub open spec fn bb_without(bb: u64, sq: u64) -> u64 {
    bb & !(1u64 << sq)
}

proof fn lemma_bb_with_bv(bb: u64, sq: u64, j: u64)
    by (bit_vector)
    requires
        sq < 64,
        j < 64,
    ensures
        bb_has(bb_with(bb, sq), j) == (j == sq || bb_has(bb, j)),
{
}

pub broadcast proof fn lemma_bb_with(bb: u64, sq: u64, j: u64)
    requires
        sq < 64,
        j < 64,
    ensures
        #[trigger] bb_has(bb_with(bb, sq), j) == (j == sq || bb_has(bb, j)),
{
    lemma_bb_with_bv(bb, sq, j);
}

proof fn lemma_bb_without_bv(bb: u64, sq: u64, j: u64)
    by (bit_vector)
    requires
        sq < 64,
        j < 64,
    ensures
        bb_has(bb_without(bb, sq), j) == (j != sq && bb_has(bb, j)),
{
}

pub broadcast proof fn lemma_bb_without(bb: u64, sq: u64, j: u64)
    requires
        sq < 64,
        j < 64,
    ensures
        #[trigger] bb_has(bb_without(bb, sq), j) == (j != sq && bb_has(bb, j)),
{
    lemma_bb_without_bv(bb, sq, j);
}

/// Union of bitboards, square by square.
proof fn lemma_bb_or_bv(a: u64, b: u64, sq: u64)
    by (bit_vector)
    requires
        sq < 64,
    ensures
        bb_has(a | b, sq) == (bb_has(a, sq) || bb_has(b, sq)),
{
}

pub broadcast proof fn lemma_bb_or(a: u64, b: u64, sq: u64)
    requires
        sq < 64,
    ensures
        #[trigger] bb_has(a | b, sq) == (bb_has(a, sq) || bb_has(b, sq)),
{
    lemma_bb_or_bv(a, b, sq);
}

proof fn lemma_mask_step_bv(x: u64, n: u64)
    by (bit_vector)
    requires
        0 < n <= 63,
    ensures
        bb_has(x, (n - 1) as u64) ==> x & (((1u64 << n) - 1) as u64) == (x & (((1u64 << (n - 1) as u64) - 1) as u64))
            | (1u64 << (n - 1) as u64),
        !bb_has(x, (n - 1) as u64) ==> x & (((1u64 << n) - 1) as u64) == x & (((1u64 << (n - 1) as u64) - 1) as u64),
{
}

proof fn lemma_bb_ext_rec(a: u64, b: u64, n: u64)
    requires
        n <= 63,
        forall|sq: u64| sq < n ==> bb_has(a, sq) == bb_has(b, sq),
    ensures
        a & (((1u64 << n) - 1) as u64) == b & (((1u64 << n) - 1) as u64),
    decreases n,
{
    if n == 0 {
        assert(a & (((1u64 << 0) - 1) as u64) == b & (((1u64 << 0) - 1) as u64)) by (bit_vector);
    } else {
        lemma_bb_ext_rec(a, b, (n - 1) as u64);
        lemma_mask_step_bv(a, n);
        lemma_mask_step_bv(b, n);
    }
}

/// Two bitboards whose bits below 64 agree are the same board.
pub proof fn lemma_bb_ext(a: u64, b: u64)
    requires
        forall|sq: u64| sq < 64 ==> bb_has(a, sq) == bb_has(b, sq),
    ensures
        a == b,
{
    lemma_bb_ext_rec(a, b, 63);
    assert(bb_has(a, 63) == bb_has(b, 63));
    assert(a == b) by (bit_vector)
        requires
            a & (((1u64 << 63) - 1) as u64) == b & (((1u64 << 63) - 1) as u64),
            bb_has(a, 63) == bb_has(b, 63),
    ;
}

pub fn bb_set(bb: u64, sq: u64) -> (r: u64)
    requires
        sq < 64,
    ensures
        r == bb_with(bb, sq),
{
    bb | (1u64 << sq)
}

pub fn bb_clear(bb: u64, sq: u64) -> (r: u64)
    requires
        sq < 64,
    ensures
        r == bb_without(bb, sq),
{
    bb & !(1u64 << sq)
}

/// The number of set bits among bits `0 .. n` of the bitboard.
pub open spec fn bb_count_upto(bb: u64, n: int) -> int
    decreases n,
{
    if n <= 0 {
        0
    } else {
        bb_count_upto(bb, n - 1) + if bb_has(bb, (n - 1) as u64) {
            1int
        } else {
            0int
        }
    }
}

/// The number of squares a bitboard occupies.
pub open spec fn bb_count(bb: u64) -> int {
    bb_count_upto(bb, 64)
}

pub fn bb_popcount(bb: u64) -> (r: usize)
    ensures
        r == bb_count(bb),
        r <= 64,
{
    let mut count: usize = 0;
    let mut sq: u64 = 0;
    while sq < 64
        invariant
            sq <= 64,
            count == bb_count_upto(bb, sq as int),
            count <= sq,
        decreases 64 - sq,
    {
        if bb_test(bb, sq) {
            count += 1;
        }
        sq += 1;
    }
    count
}

pub open spec fn bb_first_from(bb: u64, sq: u64) -> u64
    decreases 64 - sq,
{
    if sq >= 64 {
        64u64
    } else if bb_has(bb, sq) {
        sq
    } else {
        bb_first_from(bb, (sq + 1) as u64)
    }
}

/// The lowest set square of a bitboard, or 64 when it is empty.
pub open spec fn bb_first(bb: u64) -> u64 {
    bb_first_from(bb, 0)
}

/// A bitboard holding a square is not empty below that index.
pub proof fn lemma_bb_count_pos(bb: u64, n: int)
    requires
        0 < n <= 64,
        bb_count_upto(bb, n) > 0,
    ensures
        exists|j: u64| j < n && bb_has(bb, j),
    decreases n,
{
    if bb_has(bb, (n - 1) as u64) {
        assert(bb_has(bb, (n - 1) as u64));
    } else {
        assert(bb_count_upto(bb, n - 1) > 0);
        lemma_bb_count_pos(bb, n - 1);
    }
}

pub proof fn lemma_bb_first_from(bb: u64, sq: u64)
    requires
        sq <= 64,
    ensures
        bb_first_from(bb, sq) <= 64,
        bb_first_from(bb, sq) < 64 ==> bb_has(bb, bb_first_from(bb, sq)),
        forall|j: u64| sq <= j < bb_first_from(bb, sq) ==> !bb_has(bb, j),
        (exists|j: u64| sq <= j < 64 && bb_has(bb, j)) <==> bb_first_from(bb, sq) < 64,
    decreases 64 - sq,
{
    if sq < 64 && !bb_has(bb, sq) {
        lemma_bb_first_from(bb, (sq + 1) as u64);
    }
}

/// The lowest set square, or 64 when the bitboard is empty.
pub fn bb_lowest(bb: u64) -> (r: u64)
    ensures
        r == bb_first(bb),
        r <= 64,
        r < 64 ==> bb_has(bb, r),
{
    let mut sq: u64 = 0;
    while sq < 64
        invariant
            sq <= 64,
            forall|j: u64| j < sq ==> !bb_has(bb, j),
            bb_first_from(bb, 0) == bb_first_from(bb, sq),
        decreases 64 - sq,
    {
        if bb_test(bb, sq) {
            return sq;
        }
        sq += 1;
    }
    64
}

/// One side's pieces, one bitboard per piece type.
#[derive(Debug, Clone, Copy, PartialEq, Eq, Structural, Hash)]
pub struct SidePieces {
    pub king: u64,
    pub queens: u64,
    pub rooks: u64,
    pub bishops: u64,
    pub knights: u64,
    pub pawns: u64,
}

impl SidePieces {
    pub open spec fn spec_empty() -> SidePieces {
        SidePieces { king: 0, queens: 0, rooks: 0, bishops: 0, knights: 0, pawns: 0 }
    }

    pub fn empty() -> (r: SidePieces)
        ensures
            r == SidePieces::spec_empty(),
    {
        SidePieces { king: 0, queens: 0, rooks: 0, bishops: 0, knights: 0, pawns: 0 }
    }

    /// How many of this side's bitboards hold the square; 0 or 1 on a
    /// well-formed board.
    pub open spec fn count_at(self, sq: u64) -> int {
        (if bb_has(self.king, sq) {
            1int
        } else {
            0int
        }) + (if bb_has(self.queens, sq) {
            1int
        } else {
            0int
        }) + (if bb_has(self.rooks, sq) {
            1int
        } else {
            0int
        }) + (if bb_has(self.bishops, sq) {
            1int
        } else {
            0int
        }) + (if bb_has(self.knights, sq) {
            1int
        } else {
            0int
        }) + (if bb_has(self.pawns, sq) {
            1int
        } else {
            0int
        })
    }

    pub open spec fn spec_occupied(self) -> u64 {
        self.king | self.queens | self.rooks | self.bishops | self.knights | self.pawns
    }

    pub fn occupied(self) -> (r: u64)
        ensures
            r == self.spec_occupied(),
    {
        self.king | self.queens | self.rooks | self.bishops | self.knights | self.pawns
    }

    /// Whether any piece of this side stands on the square.
    pub open spec fn has(self, sq: u64) -> bool {
        bb_has(self.spec_occupied(), sq)
    }
}

pub broadcast proof fn lemma_side_occupied_at(s: SidePieces, sq: u64)
    requires
        sq < 64,
    ensures
        #[trigger] s.has(sq) == (bb_has(s.king, sq) || bb_has(s.queens, sq) || bb_has(
            s.rooks,
            sq,
        ) || bb_has(s.bishops, sq) || bb_has(s.knights, sq) || bb_has(s.pawns, sq)),
{
    lemma_bb_or(s.king | s.queens | s.rooks | s.bishops | s.knights, s.pawns, sq);
    lemma_bb_or(s.king | s.queens | s.rooks | s.bishops, s.knights, sq);
    lemma_bb_or(s.king | s.queens | s.rooks, s.bishops, sq);
    lemma_bb_or(s.king | s.queens, s.rooks, sq);
    lemma_bb_or(s.king, s.queens, sq);
}

#[derive(Debug, Clone, Copy, PartialEq, Eq, Structural, Hash)]
pub struct CastlingRights {
    pub white_king: bool,
    pub white_queen: bool,
    pub black_king: bool,
    pub black_queen: bool,
}

/// En-passant target square: `EP_NONE` when there is none.
pub const EP_NONE: u8 = 64;

#[derive(Debug, Clone, Copy, PartialEq, Eq, Structural, Hash)]
pub struct Board {
    pub white: SidePieces,
    pub black: SidePieces,
    pub side_to_move: Colour,
    pub castling: CastlingRights,
    /// En-passant target square, or `EP_NONE`.
    pub ep: u8,
    pub halfmove: u32,
    pub fullmove: u32,
}

impl Board {
    pub open spec fn side(self, c: Colour) -> SidePieces {
        match c {
            Colour::White => self.white,
            Colour::Black => self.black,
        }
    }

    pub fn get_side(&self, c: Colour) -> (r: SidePieces)
        ensures
            r == self.side(c),
    {
        match c {
            Colour::White => self.white,
            Colour::Black => self.black,
        }
    }

    pub open spec fn spec_occupancy(self) -> u64 {
        self.white.spec_occupied() | self.black.spec_occupied()
    }

    pub fn occupancy(&self) -> (r: u64)
        ensures
            r == self.spec_occupancy(),
    {
        self.white.occupied() | self.black.occupied()
    }

    /// No square carries two pieces, and the en-passant field is a square
    /// or `EP_NONE`.
    pub open spec fn wf(self) -> bool {
        &&& forall|sq: u64| sq < 64 ==> self.white.count_at(sq) + self.black.count_at(sq) <= 1
        &&& self.ep <= EP_NONE
    }

    /// A position the search can work on: well-formed with one king a side.
    pub open spec fn playable(self) -> bool {
        &&& self.wf()
        &&& bb_count(self.white.king) == 1
        &&& bb_count(self.black.king) == 1
    }

    pub fn side_to_move(&self) -> (r: Colour)
        ensures
            r == self.side_to_move,
    {
        self.side_to_move
    }
}

pub broadcast proof fn lemma_occupancy_at(b: Board, sq: u64)
    requires
        sq < 64,
    ensures
        #[trigger] bb_has(b.spec_occupancy(), sq) == (b.white.has(sq) || b.black.has(sq)),
{
    lemma_bb_or(b.white.spec_occupied(), b.black.spec_occupied(), sq);
}


fn side_count_at_exec(s: &SidePieces, sq: u64) -> (r: u32)
    requires
        sq < 64,
    ensures
        r as int == s.count_at(sq),
{
    let mut c: u32 = 0;
    if bb_test(s.king, sq) {
        c += 1;
    }
    if bb_test(s.queens, sq) {
        c += 1;
    }
    if bb_test(s.rooks, sq) {
        c += 1;
    }
    if bb_test(s.bishops, sq) {
        c += 1;
    }
    if bb_test(s.knights, sq) {
        c += 1;
    }
    if bb_test(s.pawns, sq) {
        c += 1;
    }
    c
}

impl Board {
    /// Whether the position is one the search can work on: well-formed with
    /// one king a side.
    pub fn is_playable(&self) -> (r: bool)
        ensures
            r == self.playable(),
    {
        if bb_popcount(self.white.king) != 1 || bb_popcount(self.black.king) != 1 {
            return false;
        }
        if self.ep > EP_NONE {
            return false;
        }
        let mut sq: u64 = 0;
        while sq < 64
            invariant
                sq <= 64,
                forall|j: u64|
                    j < sq ==> #[trigger] self.white.count_at(j) + self.black.count_at(j) <= 1,
            decreases 64 - sq,
        {
            if side_count_at_exec(&self.white, sq) + side_count_at_exec(&self.black, sq) > 1 {
                return false;
            }
            sq += 1;
        }
        true
    }
}

} // verus!
