//! Move-ordering tables keyed by piece identity and destination square.
use vstd::prelude::*;
use crate::types::{Move, is_piece, BOARD_N_SQUARES};

verus! {

/// Number of piece slots in a table: the twelve piece identities are kept apart.
pub const PIECE_SLOTS: usize = 12;

/// Cells of a table keyed by one (piece, square) pair.
pub const SINGLE_CELLS: usize = 1440;

/// Cells of a table keyed by two (piece, square) pairs.
pub const DOUBLE_CELLS: usize = 2073600;

pub fn pslots() -> (r: usize)
    ensures
        r == PIECE_SLOTS,
{
    PIECE_SLOTS
}

/// The slot of a piece when colours share slots.
pub fn uncoloured_piece_index(piece: u8) -> (r: u8)
    requires
        is_piece(piece),
    ensures
        r == (piece - 1) % 6,
{
    (piece - 1) % 6
}

/// The slot of a piece when each colour has slots of its own.
pub fn coloured_piece_index(piece: u8) -> (r: u8)
    requires
        is_piece(piece),
    ensures
        r == piece - 1,
{
    piece - 1
}

/// The slot that the tables use for a piece.
pub fn piece_index(piece: u8) -> (r: u8)
    requires
        is_piece(piece),
    ensures
        r == piece - 1,
        r < PIECE_SLOTS,
{
    coloured_piece_index(piece)
}

/// Clamps an exact sum to the range of `i32`.
pub open spec fn saturate(x: int) -> i32 {
    if x > i32::MAX {
        i32::MAX
    } else if x < i32::MIN {
        i32::MIN
    } else {
        x as i32
    }
}

/// Adds two scores, saturating at the bounds of `i32`.
pub fn add_saturating(a: i32, b: i32) -> (r: i32)
    ensures
        r == saturate(a + b),
{
    let s: i64 = a as i64 + b as i64;
    if s > i32::MAX as i64 {
        i32::MAX
    } else if s < i32::MIN as i64 {
        i32::MIN
    } else {
        s as i32
    }
}

/// Cell of a (piece, square) key.
pub open spec fn single_index(piece: u8, sq: u8) -> int {
    (piece - 1) * 120 + sq
}

/// Cell of a (piece, square, piece, square) key.
pub open spec fn double_index(piece_1: u8, sq1: u8, piece_2: u8, sq2: u8) -> int {
    (((piece_1 - 1) * 120 + sq1) * 12 + (piece_2 - 1)) * 120 + sq2
}

pub open spec fn valid_key(piece: u8, sq: u8) -> bool {
    is_piece(piece) && (sq as int) < BOARD_N_SQUARES
}

fn single_cell(piece: u8, sq: u8) -> (r: usize)
    requires
        valid_key(piece, sq),
    ensures
        r as int == single_index(piece, sq),
        r < SINGLE_CELLS,
{
    let pt = piece_index(piece) as usize;
    pt * BOARD_N_SQUARES + sq as usize
}

fn double_cell(piece_1: u8, sq1: u8, piece_2: u8, sq2: u8) -> (r: usize)
    requires
        valid_key(piece_1, sq1),
        valid_key(piece_2, sq2),
    ensures
        r as int == double_index(piece_1, sq1, piece_2, sq2),
        r < DOUBLE_CELLS,
{
    let pt_1 = piece_index(piece_1) as usize;
    let pt_2 = piece_index(piece_2) as usize;
    let s1 = sq1 as usize;
    let s2 = sq2 as usize;
    assert(((pt_1 * 120 + s1) * 12 + pt_2) * 120 + s2 < 2073600) by (nonlinear_arith)
        requires
            pt_1 < 12,
            pt_2 < 12,
            s1 < 120,
            s2 < 120,
    ;
    ((pt_1 * BOARD_N_SQUARES + s1) * PIECE_SLOTS + pt_2) * BOARD_N_SQUARES + s2
}

fn zeroed(n: usize) -> (r: Vec<i32>)
    ensures
        r@ == Seq::new(n as nat, |_i: int| 0i32),
{
    let mut v: Vec<i32> = Vec::with_capacity(n);
    let mut i: usize = 0;
    while i < n
        invariant
            i <= n,
            v@ == Seq::new(i as nat, |_i: int| 0i32),
        decreases n - i,
    {
        v.push(0);
        i += 1;
    }
    v
}

/// Plain history: a score per (piece, destination square).
pub struct HistoryTable {
    table: Vec<i32>,
}

impl View for HistoryTable {
    type V = Seq<i32>;

    closed spec fn view(&self) -> Seq<i32> {
        self.table@
    }
}

impl HistoryTable {
    /// Whether the table has its cells (after the first `clear`).
    pub open spec fn ready(&self) -> bool {
        self@.len() == SINGLE_CELLS
    }

    /// The score kept for a key.
    pub open spec fn score(&self, piece: u8, sq: u8) -> i32 {
        self@[single_index(piece, sq)]
    }

    /// A table without cells; `clear` gives it its cells.
    pub fn new() -> (r: Self)
        ensures
            r@.len() == 0,
    {
        HistoryTable { table: Vec::new() }
    }

    /// Sets every score to zero.
    pub fn clear(&mut self)
        ensures
            final(self)@ == Seq::new(SINGLE_CELLS as nat, |_i: int| 0i32),
    {
        self.table = zeroed(SINGLE_CELLS);
    }

    /// Adds `score` to the key's score, saturating at the bounds of `i32`.
    pub fn add(&mut self, piece: u8, sq: u8, score: i32)
        requires
            old(self).ready(),
            valid_key(piece, sq),
        ensures
            final(self)@ == old(self)@.update(
                single_index(piece, sq),
                saturate(old(self).score(piece, sq) + score),
            ),
    {
        let i = single_cell(piece, sq);
        let cur = self.table[i];
        self.table.set(i, add_saturating(cur, score));
    }

    pub fn get(&self, piece: u8, sq: u8) -> (r: i32)
        requires
            self.ready(),
            valid_key(piece, sq),
        ensures
            r == self.score(piece, sq),
    {
        self.table[single_cell(piece, sq)]
    }

    /// Every score, cell by cell.
    pub fn cells(&self) -> (r: Vec<i32>)
        ensures
            r@ == self@,
    {
        self.table.clone()
    }
}

/// Follow-up history: a score per pair of (piece, square) keys.
pub struct DoubleHistoryTable {
    table: Vec<i32>,
}

impl View for DoubleHistoryTable {
    type V = Seq<i32>;

    closed spec fn view(&self) -> Seq<i32> {
        self.table@
    }
}

impl DoubleHistoryTable {
    pub open spec fn ready(&self) -> bool {
        self@.len() == DOUBLE_CELLS
    }

    pub open spec fn score(&self, piece_1: u8, sq1: u8, piece_2: u8, sq2: u8) -> i32 {
        self@[double_index(piece_1, sq1, piece_2, sq2)]
    }

    pub fn new() -> (r: Self)
        ensures
            r@.len() == 0,
    {
        DoubleHistoryTable { table: Vec::new() }
    }

    pub fn clear(&mut self)
        ensures
            final(self)@ == Seq::new(DOUBLE_CELLS as nat, |_i: int| 0i32),
    {
        self.table = zeroed(DOUBLE_CELLS);
    }

    pub fn add(&mut self, piece_1: u8, sq1: u8, piece_2: u8, sq2: u8, score: i32)
        requires
            old(self).ready(),
            valid_key(piece_1, sq1),
            valid_key(piece_2, sq2),
        ensures
            final(self)@ == old(self)@.update(
                double_index(piece_1, sq1, piece_2, sq2),
                saturate(old(self).score(piece_1, sq1, piece_2, sq2) + score),
            ),
    {
        let i = double_cell(piece_1, sq1, piece_2, sq2);
        let cur = self.table[i];
        self.table.set(i, add_saturating(cur, score));
    }

    pub fn get(&self, piece_1: u8, sq1: u8, piece_2: u8, sq2: u8) -> (r: i32)
        requires
            self.ready(),
            valid_key(piece_1, sq1),
            valid_key(piece_2, sq2),
        ensures
            r == self.score(piece_1, sq1, piece_2, sq2),
    {
        self.table[double_cell(piece_1, sq1, piece_2, sq2)]
    }

    /// Every score, cell by cell.
    pub fn cells(&self) -> (r: Vec<i32>)
        ensures
            r@ == self@,
    {
        self.table.clone()
    }
}

/// A move per (piece, square) key; the null move where none was recorded.
pub struct MoveTable {
    table: Vec<Move>,
}

impl View for MoveTable {
    type V = Seq<Move>;

    closed spec fn view(&self) -> Seq<Move> {
        self.table@
    }
}

impl MoveTable {
    pub open spec fn ready(&self) -> bool {
        self@.len() == SINGLE_CELLS
    }

    pub open spec fn entry(&self, piece: u8, sq: u8) -> Move {
        self@[single_index(piece, sq)]
    }

    pub fn new() -> (r: Self)
        ensures
            r@.len() == 0,
    {
        MoveTable { table: Vec::new() }
    }

    /// Sets every entry to the null move.
    pub fn clear(&mut self)
        ensures
            final(self)@ == Seq::new(SINGLE_CELLS as nat, |_i: int| Move::spec_null()),
    {
        let mut v: Vec<Move> = Vec::with_capacity(SINGLE_CELLS);
        let mut i: usize = 0;
        while i < SINGLE_CELLS
            invariant
                i <= SINGLE_CELLS,
                v@ == Seq::new(i as nat, |_i: int| Move::spec_null()),
            decreases SINGLE_CELLS - i,
        {
            v.push(Move::null());
            i += 1;
        }
        self.table = v;
    }

    pub fn add(&mut self, piece: u8, sq: u8, move_: Move)
        requires
            old(self).ready(),
            valid_key(piece, sq),
        ensures
            final(self)@ == old(self)@.update(single_index(piece, sq), move_),
    {
        let i = single_cell(piece, sq);
        self.table.set(i, move_);
    }

    pub fn get(&self, piece: u8, sq: u8) -> (r: Move)
        requires
            self.ready(),
            valid_key(piece, sq),
        ensures
            r == self.entry(piece, sq),
    {
        self.table[single_cell(piece, sq)]
    }
}

} // verus!
