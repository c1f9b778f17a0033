//! Piece identities, colours, the 120-cell square numbering and the move value.
use vstd::prelude::*;

verus! {

/// Cell contents and piece identities.
pub const EMPTY: u8 = 0;
pub const WP: u8 = 1;
pub const WN: u8 = 2;
pub const WB: u8 = 3;
pub const WR: u8 = 4;
pub const WQ: u8 = 5;
pub const WK: u8 = 6;
pub const BP: u8 = 7;
pub const BN: u8 = 8;
pub const BB: u8 = 9;
pub const BR: u8 = 10;
pub const BQ: u8 = 11;
pub const BK: u8 = 12;

/// Sentinel held by the guard cells around the playing area.
pub const OFFBOARD: u8 = 100;
/// Sentinel for "no square" (no en-passant target, no king).
pub const NO_SQ: u8 = 99;

pub const WHITE: u8 = 0;
pub const BLACK: u8 = 1;
pub const BOTH: u8 = 2;

/// Number of cells in the guarded grid: 10 columns by 12 rows.
pub const BOARD_N_SQUARES: usize = 120;

pub open spec fn is_piece(p: u8) -> bool {
    WP <= p <= BK
}

pub open spec fn is_side(c: u8) -> bool {
    c == WHITE || c == BLACK
}

/// The side a piece belongs to; `BOTH` for anything that is not a piece.
pub open spec fn colour_of(p: u8) -> u8 {
    if WP <= p <= WK {
        WHITE
    } else if BP <= p <= BK {
        BLACK
    } else {
        BOTH
    }
}

pub open spec fn is_pawn(p: u8) -> bool {
    p == WP || p == BP
}

pub open spec fn is_knight(p: u8) -> bool {
    p == WN || p == BN
}

pub open spec fn is_king(p: u8) -> bool {
    p == WK || p == BK
}

/// Rooks and queens (the major pieces).
pub open spec fn is_rook_or_queen(p: u8) -> bool {
    p == WR || p == BR || p == WQ || p == BQ
}

pub open spec fn is_bishop_or_queen(p: u8) -> bool {
    p == WB || p == BB || p == WQ || p == BQ
}

/// Big pieces: every piece but a pawn.
pub open spec fn is_big(p: u8) -> bool {
    is_piece(p) && !is_pawn(p)
}

/// Minor pieces: knights and bishops.
pub open spec fn is_minor(p: u8) -> bool {
    p == WN || p == BN || p == WB || p == BB
}

pub open spec fn value_of(p: u8) -> int {
    if p == WP || p == BP {
        1000
    } else if p == WN || p == BN {
        3250
    } else if p == WB || p == BB {
        3330
    } else if p == WR || p == BR {
        5500
    } else if p == WQ || p == BQ {
        10000
    } else if p == WK || p == BK {
        500000
    } else {
        0
    }
}

/// The pawn of a side.
pub open spec fn pawn_of(c: u8) -> u8 {
    if c == WHITE { WP } else { BP }
}

pub fn piece_colour(p: u8) -> (r: u8)
    ensures
        r == colour_of(p),
{
    if WP <= p && p <= WK {
        WHITE
    } else if BP <= p && p <= BK {
        BLACK
    } else {
        BOTH
    }
}

pub fn piece_value(p: u8) -> (r: i32)
    ensures
        r as int == value_of(p),
{
    if p == WP || p == BP {
        1000
    } else if p == WN || p == BN {
        3250
    } else if p == WB || p == BB {
        3330
    } else if p == WR || p == BR {
        5500
    } else if p == WQ || p == BQ {
        10000
    } else if p == WK || p == BK {
        500000
    } else {
        0
    }
}

/// A cell of the 120-cell grid that lies on the 8x8 playing area.
pub open spec fn on_board(sq: int) -> bool {
    21 <= sq <= 98 && 1 <= sq % 10 <= 8
}

/// Rank of a playing square, 0 for the first rank up to 7 for the eighth.
pub open spec fn rank_of(sq: int) -> int {
    sq / 10 - 2
}

/// File of a playing square, 0 for file a up to 7 for file h.
pub open spec fn file_of(sq: int) -> int {
    sq % 10 - 1
}

/// Index of a playing square in the 64-square numbering (a1 = 0, h8 = 63).
pub open spec fn sq64_of(sq: int) -> int {
    rank_of(sq) * 8 + file_of(sq)
}

/// The grid cell of a file and rank, both counted from 0.
pub open spec fn square_of(file: int, rank: int) -> int {
    21 + file + 10 * rank
}

pub fn square_on_board(sq: u8) -> (r: bool)
    ensures
        r == on_board(sq as int),
{
    21 <= sq && sq <= 98 && 1 <= sq % 10 && sq % 10 <= 8
}

pub fn filerank_to_square(file: u8, rank: u8) -> (r: u8)
    requires
        file < 8,
        rank < 8,
    ensures
        r as int == square_of(file as int, rank as int),
        on_board(r as int),
{
    21 + file + 10 * rank
}

pub fn square_rank(sq: u8) -> (r: u8)
    requires
        on_board(sq as int),
    ensures
        r as int == rank_of(sq as int),
        r < 8,
{
    sq / 10 - 2
}

/// The special kind of a move; the kinds exclude one another.
#[derive(Clone, Copy, PartialEq, Eq, Structural, Debug)]
pub enum MoveKind {
    Normal,
    EnPassant,
    PawnStart,
    Castle,
}

/// A move: origin and destination cells, the piece it captures (`EMPTY` for
/// none), the piece it promotes to (`EMPTY` for none) and its special kind.
/// The all-zero value is the null move.
#[derive(Clone, Copy, PartialEq, Eq, Structural, Debug)]
pub struct Move {
    pub from: u8,
    pub to: u8,
    pub capture: u8,
    pub promotion: u8,
    pub kind: MoveKind,
}

impl Move {
    pub open spec fn spec_null() -> Move {
        Move { from: 0, to: 0, capture: EMPTY, promotion: EMPTY, kind: MoveKind::Normal }
    }

    pub fn new(from: u8, to: u8, capture: u8, promotion: u8, kind: MoveKind) -> (r: Move)
        ensures
            r == (Move { from, to, capture, promotion, kind }),
    {
        Move { from, to, capture, promotion, kind }
    }

    /// The null move, which stands for "no move".
    pub fn null() -> (r: Move)
        ensures
            r == Move::spec_null(),
    {
        Move { from: 0, to: 0, capture: EMPTY, promotion: EMPTY, kind: MoveKind::Normal }
    }

    pub fn is_null(&self) -> (r: bool)
        ensures
            r == (*self == Move::spec_null()),
    {
        self.from == 0 && self.to == 0 && self.capture == EMPTY && self.promotion == EMPTY
            && self.kind == MoveKind::Normal
    }

    pub fn from(&self) -> (r: u8)
        ensures
            r == self.from,
    {
        self.from
    }

    pub fn to(&self) -> (r: u8)
        ensures
            r == self.to,
    {
        self.to
    }

    pub fn capture(&self) -> (r: u8)
        ensures
            r == self.capture,
    {
        self.capture
    }

    pub fn promotion(&self) -> (r: u8)
        ensures
            r == self.promotion,
    {
        self.promotion
    }

    pub fn is_ep(&self) -> (r: bool)
        ensures
            r == (self.kind == MoveKind::EnPassant),
    {
        self.kind == MoveKind::EnPassant
    }

    pub fn is_pawn_start(&self) -> (r: bool)
        ensures
            r == (self.kind == MoveKind::PawnStart),
    {
        self.kind == MoveKind::PawnStart
    }

    pub fn is_castle(&self) -> (r: bool)
        ensures
            r == (self.kind == MoveKind::Castle),
    {
        self.kind == MoveKind::Castle
    }
}

} // verus!
