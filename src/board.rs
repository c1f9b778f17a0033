//! Position state: the guarded 120-cell grid, the indexes derived from it
//! (piece lists, piece counts, material, pawn masks, king squares) and the
//! position key, with the predicate that ties them together.
use vstd::prelude::*;
use crate::types::{
    Move, is_piece, is_side, is_big, is_rook_or_queen, is_minor, colour_of, value_of, on_board,
    rank_of, sq64_of, EMPTY, OFFBOARD, NO_SQ, WHITE, BLACK, BOTH, WP, WK, BP, BK,
    BOARD_N_SQUARES, piece_colour, piece_value,
};
use crate::keys::{
    piece_key, side_key, castle_key, cell_key, cell_key_of, piece_key_of, side_key_of,
    castle_key_of,
};
use crate::historytable::{HistoryTable, DoubleHistoryTable, MoveTable};

pub mod attack;
pub mod fen;
pub mod history;
pub mod makemove;
pub mod scan;
pub mod promotion;
pub mod movegen;

verus! {

/// Castling-rights bits.
pub const WKCA: u8 = 1;
pub const WQCA: u8 = 2;
pub const BKCA: u8 = 4;
pub const BQCA: u8 = 8;

/// Plies of search depth that the killer table covers.
pub const MAX_DEPTH_PLY: usize = 128;

/// Counters derived from the grid in one pass: big, major and minor piece
/// counts, material and king square per side, and the pawn masks of white,
/// black and both (bit `n` stands for square `n` of the 64-square numbering).
#[derive(Clone, Copy, PartialEq, Eq, Structural, Debug)]
pub struct Tally {
    pub big_w: u8,
    pub big_b: u8,
    pub major_w: u8,
    pub major_b: u8,
    pub minor_w: u8,
    pub minor_b: u8,
    pub material_w: i32,
    pub material_b: i32,
    pub pawns_w: u64,
    pub pawns_b: u64,
    pub pawns_all: u64,
    pub king_w: u8,
    pub king_b: u8,
}

/// What undoing a move needs: the move and the state it overwrote.
#[derive(Clone, Copy, PartialEq, Eq, Structural, Debug)]
pub struct Undo {
    pub m: Move,
    /// The piece the move took off the board (`EMPTY` for none).
    pub captured: u8,
    pub castle_perm: u8,
    pub ep_sq: u8,
    pub fifty_move_counter: u8,
    pub key: u64,
}

/// The grid of an empty board: empty playing squares inside guard cells.
pub open spec fn empty_grid() -> Seq<u8> {
    Seq::new(120, |i: int| if on_board(i) { EMPTY } else { OFFBOARD })
}

/// A grid of 120 cells whose guard cells hold the guard sentinel and whose
/// playing squares are empty or hold a piece.
pub open spec fn grid_ok(g: Seq<u8>) -> bool {
    &&& g.len() == 120
    &&& forall|i: int| 0 <= i < 120 && !on_board(i) ==> #[trigger] g[i] == OFFBOARD
    &&& forall|i: int| 0 <= i < 120 && on_board(i) ==> #[trigger] g[i] <= BK
}

/// Cells below `n` that hold `p`, in increasing order.
pub open spec fn squares_upto(g: Seq<u8>, p: u8, n: int) -> Seq<u8>
    decreases n,
{
    if n <= 0 {
        Seq::empty()
    } else if g[n - 1] == p {
        squares_upto(g, p, n - 1).push((n - 1) as u8)
    } else {
        squares_upto(g, p, n - 1)
    }
}

/// The piece list of slot `p`: the squares that hold `p`; slot 0 stays empty.
pub open spec fn piece_squares(g: Seq<u8>, p: u8) -> Seq<u8> {
    if is_piece(p) {
        squares_upto(g, p, 120)
    } else {
        Seq::empty()
    }
}

pub open spec fn empty_tally() -> Tally {
    Tally {
        big_w: 0,
        big_b: 0,
        major_w: 0,
        major_b: 0,
        minor_w: 0,
        minor_b: 0,
        material_w: 0,
        material_b: 0,
        pawns_w: 0,
        pawns_b: 0,
        pawns_all: 0,
        king_w: NO_SQ,
        king_b: NO_SQ,
    }
}

pub open spec fn sq_bit(sq: int) -> u64 {
    1u64 << (sq64_of(sq) as u64)
}

/// The tally after one more cell, holding `p`, is counted.
pub open spec fn tally_step(t: Tally, p: u8, sq: int) -> Tally {
    let white = colour_of(p) == WHITE;
    let black = colour_of(p) == BLACK;
    Tally {
        big_w: if is_big(p) && white { (t.big_w + 1) as u8 } else { t.big_w },
        big_b: if is_big(p) && black { (t.big_b + 1) as u8 } else { t.big_b },
        major_w: if is_rook_or_queen(p) && white { (t.major_w + 1) as u8 } else { t.major_w },
        major_b: if is_rook_or_queen(p) && black { (t.major_b + 1) as u8 } else { t.major_b },
        minor_w: if is_minor(p) && white { (t.minor_w + 1) as u8 } else { t.minor_w },
        minor_b: if is_minor(p) && black { (t.minor_b + 1) as u8 } else { t.minor_b },
        material_w: if white { (t.material_w + value_of(p)) as i32 } else { t.material_w },
        material_b: if black { (t.material_b + value_of(p)) as i32 } else { t.material_b },
        pawns_w: if p == WP { t.pawns_w | sq_bit(sq) } else { t.pawns_w },
        pawns_b: if p == BP { t.pawns_b | sq_bit(sq) } else { t.pawns_b },
        pawns_all: if p == WP || p == BP { t.pawns_all | sq_bit(sq) } else { t.pawns_all },
        king_w: if p == WK { sq as u8 } else { t.king_w },
        king_b: if p == BK { sq as u8 } else { t.king_b },
    }
}

/// The tally of the cells below `n`.
pub open spec fn tally_upto(g: Seq<u8>, n: int) -> Tally
    decreases n,
{
    if n <= 0 {
        empty_tally()
    } else {
        tally_step(tally_upto(g, n - 1), g[n - 1], n - 1)
    }
}

pub open spec fn tally_of(g: Seq<u8>) -> Tally {
    tally_upto(g, 120)
}

/// Exclusive-or of the constants of the pieces on the cells below `n`.
pub open spec fn grid_key(g: Seq<u8>, n: int) -> u64
    decreases n,
{
    if n <= 0 {
        0
    } else {
        grid_key(g, n - 1) ^ cell_key(g[n - 1], n - 1)
    }
}

/// The position key, derived from scratch.
pub open spec fn position_key(g: Seq<u8>, side: u8, ep: u8, castle: u8) -> u64 {
    let k0 = grid_key(g, 120);
    let k1 = if side == WHITE { k0 ^ side_key() } else { k0 };
    let k2 = if ep != NO_SQ { k1 ^ piece_key(EMPTY, ep as int) } else { k1 };
    k2 ^ castle_key(castle)
}

/// What the side to move, the en-passant target and the castling rights
/// add to the key.
pub open spec fn key_extras(side: u8, ep: u8, castle: u8) -> u64 {
    let s = if side == WHITE { side_key() } else { 0u64 };
    let e = if ep != NO_SQ { piece_key(EMPTY, ep as int) } else { 0u64 };
    s ^ e ^ castle_key(castle)
}

/// The key is the grid's part combined with the extras.
pub proof fn lemma_key_split(g: Seq<u8>, side: u8, ep: u8, castle: u8)
    ensures
        position_key(g, side, ep, castle) == grid_key(g, 120) ^ key_extras(side, ep, castle),
{
    let k0 = grid_key(g, 120);
    let s = if side == WHITE { side_key() } else { 0u64 };
    let e = if ep != NO_SQ { piece_key(EMPTY, ep as int) } else { 0u64 };
    let c = castle_key(castle);
    assert(((k0 ^ s) ^ e) ^ c == k0 ^ (s ^ e ^ c)) by (bit_vector);
    assert(k0 ^ 0u64 == k0) by (bit_vector);
    assert((k0 ^ s) ^ 0u64 == k0 ^ s) by (bit_vector);
}

/// Changing one cell changes the grid's part of the key by that cell's
/// old and new constants.
pub proof fn lemma_grid_key_update(g: Seq<u8>, i: int, v: u8, n: int)
    requires
        g.len() == 120,
        0 <= i < 120,
        0 <= n <= 120,
    ensures
        grid_key(g.update(i, v), n) == if n <= i {
            grid_key(g, n)
        } else {
            grid_key(g, n) ^ cell_key(g[i], i) ^ cell_key(v, i)
        },
    decreases n,
{
    if n > 0 {
        lemma_grid_key_update(g, i, v, n - 1);
        let a = grid_key(g, n - 1);
        let d1 = cell_key(g[i], i);
        let d2 = cell_key(v, i);
        let k = cell_key(g[n - 1], n - 1);
        if n - 1 == i {
            assert((a ^ d1) ^ d1 ^ d2 == a ^ d2) by (bit_vector);
        } else if n - 1 > i {
            assert(g.update(i, v)[n - 1] == g[n - 1]);
            assert(((a ^ d1) ^ d2) ^ k == ((a ^ k) ^ d1) ^ d2) by (bit_vector);
        }
    }
}

/// Each side's recorded king square holds that side's king.
pub open spec fn kings_present(g: Seq<u8>) -> bool {
    g[tally_of(g).king_w as int] == WK && g[tally_of(g).king_b as int] == BK
}

/// An en-passant target is none, or lies on the sixth rank when white is to
/// move and on the third when black is.
pub open spec fn ep_ok(ep: u8, side: u8) -> bool {
    ep == NO_SQ || (on_board(ep as int) && rank_of(ep as int) == (if side == WHITE {
        5int
    } else {
        2int
    }))
}

proof fn lemma_tally_bounds(g: Seq<u8>, n: int)
    requires
        0 <= n <= 120,
        grid_ok(g),
    ensures
        tally_upto(g, n).big_w <= n,
        tally_upto(g, n).big_b <= n,
        tally_upto(g, n).major_w <= n,
        tally_upto(g, n).major_b <= n,
        tally_upto(g, n).minor_w <= n,
        tally_upto(g, n).minor_b <= n,
        0 <= tally_upto(g, n).material_w <= 500000 * n,
        0 <= tally_upto(g, n).material_b <= 500000 * n,
    decreases n,
{
    if n > 0 {
        lemma_tally_bounds(g, n - 1);
    }
}

/// Each side's recorded king square holds that side's king, and a side
/// with a king on the board has a recorded king square.
pub proof fn lemma_king_squares(g: Seq<u8>, n: int)
    requires
        0 <= n <= 120,
        grid_ok(g),
    ensures
        tally_upto(g, n).king_w != NO_SQ ==> tally_upto(g, n).king_w < n && g[tally_upto(g, n).king_w as int] == WK,
        tally_upto(g, n).king_b != NO_SQ ==> tally_upto(g, n).king_b < n && g[tally_upto(g, n).king_b as int] == BK,
        (exists|i: int| 0 <= i < n && #[trigger] g[i] == WK) ==> tally_upto(g, n).king_w != NO_SQ,
        (exists|i: int| 0 <= i < n && #[trigger] g[i] == BK) ==> tally_upto(g, n).king_b != NO_SQ,
    decreases n,
{
    if n > 0 {
        lemma_king_squares(g, n - 1);
        if exists|i: int| 0 <= i < n && #[trigger] g[i] == WK {
            let i = choose|i: int| 0 <= i < n && #[trigger] g[i] == WK;
            if i < n - 1 {
                assert(exists|i: int| 0 <= i < n - 1 && #[trigger] g[i] == WK);
            }
        }
        if exists|i: int| 0 <= i < n && #[trigger] g[i] == BK {
            let i = choose|i: int| 0 <= i < n && #[trigger] g[i] == BK;
            if i < n - 1 {
                assert(exists|i: int| 0 <= i < n - 1 && #[trigger] g[i] == BK);
            }
        }
    }
}

/// The tally after one more cell, as `tally_step` states it.
fn tally_add(t: Tally, p: u8, sq: u8) -> (r: Tally)
    requires
        t.big_w < 255 && t.big_b < 255 && t.major_w < 255 && t.major_b < 255,
        t.minor_w < 255 && t.minor_b < 255,
        0 <= t.material_w <= 60000000,
        0 <= t.material_b <= 60000000,
        sq < 120,
        is_piece(p) ==> on_board(sq as int),
    ensures
        r == tally_step(t, p, sq as int),
{
    let c = piece_colour(p);
    let white = c == WHITE;
    let black = c == BLACK;
    let big = 1 <= p && p <= BK && p != WP && p != BP;
    let major = p == 4 || p == 10 || p == 5 || p == 11;
    let minor = p == 2 || p == 8 || p == 3 || p == 9;
    let v = piece_value(p);
    let bit: u64 = if p == WP || p == BP {
        let s64 = (sq / 10 - 2) * 8 + (sq % 10 - 1);
        assert(s64 as int == sq64_of(sq as int));
        1u64 << s64
    } else {
        0
    };
    Tally {
        big_w: if big && white { t.big_w + 1 } else { t.big_w },
        big_b: if big && black { t.big_b + 1 } else { t.big_b },
        major_w: if major && white { t.major_w + 1 } else { t.major_w },
        major_b: if major && black { t.major_b + 1 } else { t.major_b },
        minor_w: if minor && white { t.minor_w + 1 } else { t.minor_w },
        minor_b: if minor && black { t.minor_b + 1 } else { t.minor_b },
        material_w: if white { t.material_w + v } else { t.material_w },
        material_b: if black { t.material_b + v } else { t.material_b },
        pawns_w: if p == WP { t.pawns_w | bit } else { t.pawns_w },
        pawns_b: if p == BP { t.pawns_b | bit } else { t.pawns_b },
        pawns_all: if p == WP || p == BP { t.pawns_all | bit } else { t.pawns_all },
        king_w: if p == WK { sq } else { t.king_w },
        king_b: if p == BK { sq } else { t.king_b },
    }
}

/// The tally of a grid, counted in one pass.
fn tally_grid(g: &Vec<u8>) -> (r: Tally)
    requires
        grid_ok(g@),
    ensures
        r == tally_of(g@),
{
    let mut t = Tally {
        big_w: 0,
        big_b: 0,
        major_w: 0,
        major_b: 0,
        minor_w: 0,
        minor_b: 0,
        material_w: 0,
        material_b: 0,
        pawns_w: 0,
        pawns_b: 0,
        pawns_all: 0,
        king_w: NO_SQ,
        king_b: NO_SQ,
    };
    let mut i: usize = 0;
    while i < BOARD_N_SQUARES
        invariant
            i <= 120,
            grid_ok(g@),
            t == tally_upto(g@, i as int),
        decreases 120 - i,
    {
        proof {
            lemma_tally_bounds(g@, i as int);
        }
        t = tally_add(t, g[i], i as u8);
        i += 1;
    }
    t
}

/// The squares holding `p`, in increasing order.
fn squares_holding(g: &Vec<u8>, p: u8) -> (r: Vec<u8>)
    requires
        g@.len() == 120,
    ensures
        r@ == squares_upto(g@, p, 120),
{
    let mut l: Vec<u8> = Vec::new();
    let mut i: usize = 0;
    while i < BOARD_N_SQUARES
        invariant
            i <= 120,
            g@.len() == 120,
            l@ == squares_upto(g@, p, i as int),
        decreases 120 - i,
    {
        if g[i] == p {
            l.push(i as u8);
        }
        i += 1;
    }
    l
}

/// The piece lists of a grid, one per slot 0 to 12.
fn piece_lists(g: &Vec<u8>) -> (r: Vec<Vec<u8>>)
    requires
        g@.len() == 120,
    ensures
        r@.len() == 13,
        forall|p: int| 0 <= p < 13 ==> #[trigger] r@[p]@ == piece_squares(g@, p as u8),
{
    let mut lists: Vec<Vec<u8>> = Vec::new();
    lists.push(Vec::new());
    let mut p: u8 = 1;
    while p <= BK
        invariant
            1 <= p <= 13,
            g@.len() == 120,
            lists@.len() == p,
            forall|q: int| 0 <= q < p ==> #[trigger] lists@[q]@ == piece_squares(g@, q as u8),
        decreases 13 - p,
    {
        let l = squares_holding(g, p);
        lists.push(l);
        p += 1;
    }
    lists
}

/// Exclusive-or of the constants of the pieces on the grid.
fn grid_key_of(g: &Vec<u8>) -> (r: u64)
    requires
        g@.len() == 120,
    ensures
        r == grid_key(g@, 120),
{
    let mut key: u64 = 0;
    let mut i: usize = 0;
    while i < BOARD_N_SQUARES
        invariant
            i <= 120,
            g@.len() == 120,
            key == grid_key(g@, i as int),
        decreases 120 - i,
    {
        key = key ^ cell_key_of(g[i], i as u8);
        i += 1;
    }
    key
}

pub(crate) fn position_key_of(g: &Vec<u8>, side: u8, ep: u8, castle: u8) -> (r: u64)
    requires
        g@.len() == 120,
        ep == NO_SQ || ep < 120,
        castle < 16,
    ensures
        r == position_key(g@, side, ep, castle),
{
    let mut key = grid_key_of(g);
    if side == WHITE {
        key = key ^ side_key_of();
    }
    if ep != NO_SQ {
        key = key ^ piece_key_of(EMPTY, ep);
    }
    key ^ castle_key_of(castle)
}

/// What the side to move, the en-passant target and the castling rights
/// add to the key, as `key_extras` states it.
pub(crate) fn key_extras_of(side: u8, ep: u8, castle: u8) -> (r: u64)
    requires
        ep == NO_SQ || ep < 120,
        castle < 16,
    ensures
        r == key_extras(side, ep, castle),
{
    let s: u64 = if side == WHITE { side_key_of() } else { 0 };
    let e: u64 = if ep != NO_SQ { piece_key_of(EMPTY, ep) } else { 0 };
    s ^ e ^ castle_key_of(castle)
}

pub(crate) fn empty_grid_vec() -> (r: Vec<u8>)
    ensures
        r@ == empty_grid(),
        grid_ok(r@),
{
    let mut g: Vec<u8> = Vec::new();
    let mut i: usize = 0;
    while i < BOARD_N_SQUARES
        invariant
            i <= 120,
            g@ == empty_grid().subrange(0, i as int),
        decreases 120 - i,
    {
        let on = 21 <= i && i <= 98 && 1 <= i % 10 && i % 10 <= 8;
        g.push(if on { EMPTY } else { OFFBOARD });
        i += 1;
    }
    assert(g@ == empty_grid());
    g
}

fn same_bytes(a: &Vec<u8>, b: &Vec<u8>) -> (r: bool)
    ensures
        r == (a@ == b@),
{
    if a.len() != b.len() {
        return false;
    }
    let mut i: usize = 0;
    while i < a.len()
        invariant
            a@.len() == b@.len(),
            i <= a@.len(),
            forall|j: int| 0 <= j < i ==> a@[j] == b@[j],
        decreases a@.len() - i,
    {
        if a[i] != b[i] {
            return false;
        }
        i += 1;
    }
    assert(a@ == b@);
    true
}

/// The authoritative position, with the move history that undoes it and the
/// move-ordering tables that read that history.
pub struct Board {
    pieces: Vec<u8>,
    p_list: Vec<Vec<u8>>,
    tally: Tally,
    side: u8,
    ep_sq: u8,
    fifty_move_counter: u8,
    ply: u64,
    key: u64,
    castle_perm: u8,
    history: Vec<Undo>,
    height: usize,
    history_table: HistoryTable,
    counter_move_table: MoveTable,
    followup_history: DoubleHistoryTable,
    killer_move_table: Vec<(Move, Move)>,
}

impl Board {
    /// The grid: cell `i` holds `EMPTY`, `OFFBOARD` or a piece identity.
    pub closed spec fn grid(&self) -> Seq<u8> {
        self.pieces@
    }

    pub closed spec fn lists(&self) -> Seq<Seq<u8>> {
        self.p_list@.map_values(|l: Vec<u8>| l@)
    }

    pub closed spec fn tally_view(&self) -> Tally {
        self.tally
    }

    pub closed spec fn side_view(&self) -> u8 {
        self.side
    }

    pub closed spec fn ep_view(&self) -> u8 {
        self.ep_sq
    }

    pub closed spec fn castle_view(&self) -> u8 {
        self.castle_perm
    }

    pub closed spec fn fifty_view(&self) -> u8 {
        self.fifty_move_counter
    }

    pub closed spec fn ply_view(&self) -> u64 {
        self.ply
    }

    pub closed spec fn key_view(&self) -> u64 {
        self.key
    }

    pub closed spec fn history_view(&self) -> Seq<Undo> {
        self.history@
    }

    pub closed spec fn height_view(&self) -> usize {
        self.height
    }

    pub closed spec fn history_scores(&self) -> Seq<i32> {
        self.history_table@
    }

    pub closed spec fn countermoves(&self) -> Seq<Move> {
        self.counter_move_table@
    }

    pub closed spec fn followup_scores(&self) -> Seq<i32> {
        self.followup_history@
    }

    pub closed spec fn killers(&self) -> Seq<(Move, Move)> {
        self.killer_move_table@
    }

    /// The lists view, list by list.
    proof fn lemma_lists_view(&self)
        ensures
            self.lists().len() == self.p_list@.len(),
            forall|p: int| 0 <= p < self.p_list@.len() ==> #[trigger] self.lists()[p] == self.p_list@[p]@,
    {
    }

    /// Everything but the move-ordering tables.
    pub open spec fn same_position(&self, other: &Board) -> bool {
        &&& self.grid() == other.grid()
        &&& self.lists() == other.lists()
        &&& self.tally_view() == other.tally_view()
        &&& self.side_view() == other.side_view()
        &&& self.ep_view() == other.ep_view()
        &&& self.fifty_view() == other.fifty_view()
        &&& self.ply_view() == other.ply_view()
        &&& self.key_view() == other.key_view()
        &&& self.castle_view() == other.castle_view()
        &&& self.history_view() == other.history_view()
        &&& self.height_view() == other.height_view()
    }

    /// The move-ordering tables have their cells.
    pub open spec fn tables_ready(&self) -> bool {
        &&& self.history_scores().len() == 1440
        &&& self.countermoves().len() == 1440
        &&& self.followup_scores().len() == 2073600
        &&& self.killers().len() == MAX_DEPTH_PLY
    }

    /// The piece lists and the tally agree with the grid.
    pub open spec fn derived_ok(&self) -> bool {
        &&& self.lists().len() == 13
        &&& forall|p: int| 0 <= p < 13 ==> #[trigger] self.lists()[p] == piece_squares(self.grid(), p as u8)
        &&& self.tally_view() == tally_of(self.grid())
    }

    /// Equal to `o` but for the piece lists and the tally.
    pub open spec fn same_but_derived(&self, o: &Board) -> bool {
        &&& self.grid() == o.grid()
        &&& self.side_view() == o.side_view()
        &&& self.ep_view() == o.ep_view()
        &&& self.fifty_view() == o.fifty_view()
        &&& self.ply_view() == o.ply_view()
        &&& self.key_view() == o.key_view()
        &&& self.castle_view() == o.castle_view()
        &&& self.history_view() == o.history_view()
        &&& self.height_view() == o.height_view()
        &&& self.history_scores() == o.history_scores()
        &&& self.countermoves() == o.countermoves()
        &&& self.followup_scores() == o.followup_scores()
        &&& self.killers() == o.killers()
    }

    /// Every index agrees with the grid, the key with a fresh derivation,
    /// and the scalars are in range.
    pub open spec fn indexes_agree(&self) -> bool {
        &&& grid_ok(self.grid())
        &&& self.derived_ok()
        &&& is_side(self.side_view())
        &&& self.castle_view() < 16
        &&& (self.ep_view() == NO_SQ || on_board(self.ep_view() as int))
        &&& self.key_view() == position_key(
            self.grid(),
            self.side_view(),
            self.ep_view(),
            self.castle_view(),
        )
    }

    /// The nine consistency rules of a position: the indexes agree with the
    /// grid, each side's recorded king square holds its king, the
    /// en-passant target lies on the rank the side to move captures onto,
    /// and the half-move clock is below 100.
    pub open spec fn position_valid(&self) -> bool {
        &&& self.indexes_agree()
        &&& kings_present(self.grid())
        &&& ep_ok(self.ep_view(), self.side_view())
        &&& self.fifty_view() < 100
    }

    /// A position that generation, the attack query and the move-ordering
    /// tables work on, and whose every history record can be taken back.
    pub open spec fn wf(&self) -> bool {
        self.indexes_agree() && self.tables_ready() && crate::board::makemove::history_ok(*self)
    }

    /// An empty, cleared board, as `new` and `reset` leave it.
    pub open spec fn is_reset(&self) -> bool {
        &&& self.grid() == empty_grid()
        &&& self.lists().len() == 13
        &&& forall|p: int| 0 <= p < 13 ==> #[trigger] self.lists()[p].len() == 0
        &&& self.tally_view() == empty_tally()
        &&& self.side_view() == BOTH
        &&& self.ep_view() == NO_SQ
        &&& self.fifty_view() == 0
        &&& self.ply_view() == 0
        &&& self.castle_view() == 0
        &&& self.key_view() == 0
        &&& self.history_view().len() == 0
    }

    fn empty_lists() -> (r: Vec<Vec<u8>>)
        ensures
            r@.len() == 13,
            forall|p: int| 0 <= p < 13 ==> #[trigger] r@[p]@.len() == 0,
    {
        let mut lists: Vec<Vec<u8>> = Vec::new();
        let mut p: usize = 0;
        while p < 13
            invariant
                p <= 13,
                lists@.len() == p,
                forall|q: int| 0 <= q < p ==> #[trigger] lists@[q]@.len() == 0,
            decreases 13 - p,
        {
            lists.push(Vec::new());
            p += 1;
        }
        lists
    }

    /// An empty board with cleared move-ordering tables.
    pub fn new() -> (r: Self)
        ensures
            r.is_reset(),
            r.tables_ready(),
            r.height_view() == 0,
            r.history_scores() == Seq::new(1440, |_i: int| 0i32),
            r.countermoves() == Seq::new(1440, |_i: int| Move::spec_null()),
            r.followup_scores() == Seq::new(2073600, |_i: int| 0i32),
            r.killers() == Seq::new(
                MAX_DEPTH_PLY as nat,
                |_i: int| (Move::spec_null(), Move::spec_null()),
            ),
    {
        let mut history_table = HistoryTable::new();
        history_table.clear();
        let mut counter_move_table = MoveTable::new();
        counter_move_table.clear();
        let mut followup_history = DoubleHistoryTable::new();
        followup_history.clear();
        let mut killers: Vec<(Move, Move)> = Vec::new();
        let mut i: usize = 0;
        while i < MAX_DEPTH_PLY
            invariant
                i <= MAX_DEPTH_PLY,
                killers@ == Seq::new(i as nat, |_i: int| (Move::spec_null(), Move::spec_null())),
            decreases MAX_DEPTH_PLY - i,
        {
            killers.push((Move::null(), Move::null()));
            i += 1;
        }
        let mut out = Board {
            pieces: empty_grid_vec(),
            p_list: Self::empty_lists(),
            tally: Tally {
                big_w: 0,
                big_b: 0,
                major_w: 0,
                major_b: 0,
                minor_w: 0,
                minor_b: 0,
                material_w: 0,
                material_b: 0,
                pawns_w: 0,
                pawns_b: 0,
                pawns_all: 0,
                king_w: NO_SQ,
                king_b: NO_SQ,
            },
            side: BOTH,
            ep_sq: NO_SQ,
            fifty_move_counter: 0,
            ply: 0,
            key: 0,
            castle_perm: 0,
            history: Vec::new(),
            height: 0,
            history_table,
            counter_move_table,
            followup_history,
            killer_move_table: killers,
        };
        out.reset();
        out
    }

    /// Empties the board and its history; the move-ordering tables are kept.
    pub fn reset(&mut self)
        ensures
            final(self).is_reset(),
            final(self).tables_ready() == old(self).tables_ready(),
            final(self).height_view() == old(self).height_view(),
            final(self).history_scores() == old(self).history_scores(),
            final(self).countermoves() == old(self).countermoves(),
            final(self).followup_scores() == old(self).followup_scores(),
            final(self).killers() == old(self).killers(),
    {
        self.pieces = empty_grid_vec();
        self.p_list = Self::empty_lists();
        self.tally = Tally {
            big_w: 0,
            big_b: 0,
            major_w: 0,
            major_b: 0,
            minor_w: 0,
            minor_b: 0,
            material_w: 0,
            material_b: 0,
            pawns_w: 0,
            pawns_b: 0,
            pawns_all: 0,
            king_w: NO_SQ,
            king_b: NO_SQ,
        };
        self.side = BOTH;
        self.ep_sq = NO_SQ;
        self.fifty_move_counter = 0;
        self.ply = 0;
        self.castle_perm = 0;
        self.key = 0;
        self.history = Vec::new();
    }

    /// The position key derived from scratch from the grid, the side to move,
    /// the en-passant target and the castling rights.
    pub fn generate_pos_key(&self) -> (r: u64)
        requires
            self.grid().len() == 120,
            self.ep_view() == NO_SQ || self.ep_view() < 120,
            self.castle_view() < 16,
        ensures
            r == position_key(self.grid(), self.side_view(), self.ep_view(), self.castle_view()),
            self.indexes_agree() ==> r == self.key_view(),
    {
        position_key_of(&self.pieces, self.side, self.ep_sq, self.castle_perm)
    }

    /// Rebuilds the piece lists, counts, material, pawn masks and king
    /// squares from the grid in one full pass.
    pub(crate) fn update_list_material(&mut self)
        requires
            grid_ok(old(self).grid()),
        ensures
            final(self).derived_ok(),
            final(self).same_but_derived(old(self)),
    {
        self.p_list = piece_lists(&self.pieces);
        self.tally = tally_grid(&self.pieces);
    }

    /// Whether the nine consistency rules of a position hold: every index
    /// agrees with a fresh derivation from the grid, both kings stand on
    /// their recorded squares, the en-passant target is on the right rank,
    /// and the half-move clock is below 100.
    pub fn check_validity(&self) -> (r: bool)
        ensures
            r == self.position_valid(),
    {
        if self.pieces.len() != BOARD_N_SQUARES {
            return false;
        }
        let mut i: usize = 0;
        while i < BOARD_N_SQUARES
            invariant
                i <= 120,
                self.pieces@.len() == 120,
                forall|j: int| 0 <= j < i && !on_board(j) ==> #[trigger] self.pieces@[j] == OFFBOARD,
                forall|j: int| 0 <= j < i && on_board(j) ==> #[trigger] self.pieces@[j] <= BK,
            decreases 120 - i,
        {
            let on = 21 <= i && i <= 98 && 1 <= i % 10 && i % 10 <= 8;
            let c = self.pieces[i];
            if on {
                if c > BK {
                    return false;
                }
            } else if c != OFFBOARD {
                return false;
            }
            i += 1;
        }
        proof {
            self.lemma_lists_view();
        }
        if self.p_list.len() != 13 {
            return false;
        }
        let lists = piece_lists(&self.pieces);
        let mut p: usize = 0;
        while p < 13
            invariant
                p <= 13,
                self.p_list@.len() == 13,
                lists@.len() == 13,
                forall|q: int| 0 <= q < 13 ==> #[trigger] lists@[q]@ == piece_squares(self.pieces@, q as u8),
                forall|q: int| 0 <= q < p ==> #[trigger] self.p_list@[q]@ == piece_squares(self.pieces@, q as u8),
                forall|q: int| 0 <= q < 13 ==> #[trigger] self.lists()[q] == self.p_list@[q]@,
            decreases 13 - p,
        {
            if !same_bytes(&self.p_list[p], &lists[p]) {
                assert(self.lists()[p as int] != piece_squares(self.grid(), p as u8));
                return false;
            }
            p += 1;
        }
        let t = tally_grid(&self.pieces);
        if t != self.tally {
            return false;
        }
        if self.side != WHITE && self.side != BLACK {
            return false;
        }
        if self.castle_perm >= 16 {
            return false;
        }
        if self.ep_sq != NO_SQ {
            let e = self.ep_sq;
            let on = 21 <= e && e <= 98 && 1 <= e % 10 && e % 10 <= 8;
            if !on {
                return false;
            }
            let want: u8 = if self.side == WHITE { 5 } else { 2 };
            if e / 10 - 2 != want {
                return false;
            }
        }
        if self.fifty_move_counter >= 100 {
            return false;
        }
        proof {
            lemma_king_squares(self.pieces@, 120);
        }
        if self.pieces[t.king_w as usize] != WK || self.pieces[t.king_b as usize] != BK {
            return false;
        }
        position_key_of(&self.pieces, self.side, self.ep_sq, self.castle_perm) == self.key
    }

    /// The piece on a cell.
    pub fn piece_at(&self, sq: u8) -> (r: u8)
        requires
            self.indexes_agree(),
            sq < 120,
        ensures
            r == self.grid()[sq as int],
    {
        self.pieces[sq as usize]
    }

    /// The piece that a move moves, read from its origin before it is made.
    pub fn moved_piece(&self, m: Move) -> (r: u8)
        requires
            self.indexes_agree(),
            m.from < 120,
        ensures
            r == self.grid()[m.from as int],
    {
        self.pieces[m.from as usize]
    }

    pub fn side_to_move(&self) -> (r: u8)
        ensures
            r == self.side_view(),
    {
        self.side
    }

    pub fn ep_square(&self) -> (r: u8)
        ensures
            r == self.ep_view(),
    {
        self.ep_sq
    }

    pub fn castling_rights(&self) -> (r: u8)
        ensures
            r == self.castle_view(),
    {
        self.castle_perm
    }

    pub fn fifty_move_counter(&self) -> (r: u8)
        ensures
            r == self.fifty_view(),
    {
        self.fifty_move_counter
    }

    pub fn hash_key(&self) -> (r: u64)
        ensures
            r == self.key_view(),
    {
        self.key
    }

    pub fn ply(&self) -> (r: u64)
        ensures
            r == self.ply_view(),
    {
        self.ply
    }

    /// Per-side counters for an evaluator.
    pub fn tally(&self) -> (r: Tally)
        ensures
            r == self.tally_view(),
    {
        self.tally
    }

    /// The squares that piece `p` stands on, in increasing order.
    pub fn piece_list(&self, p: u8) -> (r: Vec<u8>)
        requires
            self.indexes_agree(),
            p < 13,
        ensures
            r@ == piece_squares(self.grid(), p),
    {
        proof {
            self.lemma_lists_view();
            assert(self.lists()[p as int] == self.p_list@[p as int]@);
        }
        self.p_list[p as usize].clone()
    }
}

} // verus!
