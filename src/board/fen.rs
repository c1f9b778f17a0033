//! Populating a position from a board description ("FEN"): piece placement,
//! then side to move, castling rights, en-passant target, half-move clock and
//! full-move number, separated by spaces.
use vstd::prelude::*;
use vstd::string::StringSliceAdditionalSpecFns;
use crate::types::{
    on_board, square_of, EMPTY, NO_SQ, WHITE, BLACK, WP, WN, WB, WR, WQ, WK,
    BP, BN, BB, BR, BQ, BK,
};
use crate::board::{
    Board, grid_ok, empty_grid, empty_grid_vec, position_key_of, ep_ok, kings_present,
    WKCA, WQCA, BKCA, BQCA,
};

verus! {

/// Why a board description was refused.
#[derive(Clone, Copy, PartialEq, Eq, Structural, Debug)]
pub enum FenError {
    /// No space separates the placement from the other fields.
    MissingSeparator,
    /// An unknown placement character, or a rank or file past the board.
    BadPlacement,
    /// Fewer than five fields follow the placement.
    MissingField,
    /// The side to move is not `w` or `b`.
    BadSide,
    /// The castling field is not `-` or a nonempty run of `K`, `Q`, `k`, `q`.
    BadCastling,
    /// The en-passant field is not `-` or a file `a`-`h` and a rank `1`-`8`.
    BadEnPassant,
    /// The half-move clock is not a number that fits in 8 bits.
    BadHalfmove,
    /// The full-move number is not a number that fits in 32 bits.
    BadFullmove,
}

/// A parsed board description.
pub struct FenData {
    pub grid: Seq<u8>,
    pub side: u8,
    pub castle: u8,
    pub ep: u8,
    pub fifty: u8,
    pub fullmove: u32,
}

/// The piece a placement letter stands for; `EMPTY` for any other byte.
pub open spec fn letter_piece(c: u8) -> u8 {
    if c == 80 { WP } else if c == 78 { WN } else if c == 66 { WB } else if c == 82 { WR }
    else if c == 81 { WQ } else if c == 75 { WK } else if c == 112 { BP } else if c == 110 { BN }
    else if c == 98 { BB } else if c == 114 { BR } else if c == 113 { BQ } else if c == 107 { BK }
    else { EMPTY }
}

/// One placement character applied to (grid, rank, file): a letter puts a
/// piece and moves one file on, a digit skips that many files, `/` goes to
/// the start of the next rank down.
pub open spec fn place_step(st: (Seq<u8>, int, int), c: u8) -> Result<(Seq<u8>, int, int), FenError> {
    let (g, rank, file) = st;
    if letter_piece(c) != EMPTY {
        if file > 7 {
            Err(FenError::BadPlacement)
        } else {
            Ok((g.update(square_of(file, rank), letter_piece(c)), rank, file + 1))
        }
    } else if 49 <= c <= 56 {
        if file + (c - 48) > 8 {
            Err(FenError::BadPlacement)
        } else {
            Ok((g, rank, file + (c - 48)))
        }
    } else if c == 47 {
        if rank == 0 {
            Err(FenError::BadPlacement)
        } else {
            Ok((g, rank - 1, 0))
        }
    } else {
        Err(FenError::BadPlacement)
    }
}

/// The placement after its first `n` characters.
pub open spec fn placement(s: Seq<u8>, n: int) -> Result<(Seq<u8>, int, int), FenError>
    decreases n,
{
    if n <= 0 {
        Ok((empty_grid(), 7, 0))
    } else {
        match placement(s, n - 1) {
            Ok(st) => place_step(st, s[n - 1]),
            Err(e) => Err(e),
        }
    }
}

/// The end of the space-separated token that starts at `i`.
pub open spec fn token_end(s: Seq<u8>, i: int) -> int
    decreases s.len() - i,
{
    if i >= s.len() || s[i] == 32 {
        i
    } else {
        token_end(s, i + 1)
    }
}

pub open spec fn castle_bit(c: u8) -> u8 {
    if c == 75 { WKCA } else if c == 81 { WQCA } else if c == 107 { BKCA } else if c == 113 { BQCA } else { 0 }
}

/// The rights named by the first `n` castling letters; `None` at a byte
/// that names none.
pub open spec fn castle_bits(t: Seq<u8>, n: int) -> Option<u8>
    decreases n,
{
    if n <= 0 {
        Some(0u8)
    } else {
        match castle_bits(t, n - 1) {
            Some(b) => if castle_bit(t[n - 1]) != 0 {
                Some(b | castle_bit(t[n - 1]))
            } else {
                None
            },
            None => None,
        }
    }
}

pub open spec fn parse_castling(t: Seq<u8>) -> Result<u8, FenError> {
    if t == seq![45u8] {
        Ok(0u8)
    } else if t.len() == 0 {
        Err(FenError::BadCastling)
    } else {
        match castle_bits(t, t.len() as int) {
            Some(b) => Ok(b),
            None => Err(FenError::BadCastling),
        }
    }
}

pub open spec fn parse_side(t: Seq<u8>) -> Result<u8, FenError> {
    if t == seq![119u8] {
        Ok(WHITE)
    } else if t == seq![98u8] {
        Ok(BLACK)
    } else {
        Err(FenError::BadSide)
    }
}

pub open spec fn parse_ep(t: Seq<u8>) -> Result<u8, FenError> {
    if t == seq![45u8] {
        Ok(NO_SQ)
    } else if t.len() == 2 && 97 <= t[0] <= 104 && 49 <= t[1] <= 56 {
        Ok(square_of(t[0] - 97, t[1] - 49) as u8)
    } else {
        Err(FenError::BadEnPassant)
    }
}

pub open spec fn all_digits(t: Seq<u8>) -> bool {
    forall|i: int| 0 <= i < t.len() ==> 48 <= #[trigger] t[i] <= 57
}

/// The decimal value of the first `n` digits.
pub open spec fn digits_value(t: Seq<u8>, n: int) -> int
    decreases n,
{
    if n <= 0 {
        0
    } else {
        digits_value(t, n - 1) * 10 + (t[n - 1] - 48)
    }
}

/// A token of digits and its value, when it is one and the value is below `limit`.
pub open spec fn parse_number(t: Seq<u8>, limit: int) -> Option<int> {
    if t.len() > 0 && all_digits(t) && digits_value(t, t.len() as int) < limit {
        Some(digits_value(t, t.len() as int))
    } else {
        None
    }
}

/// The description's fields, or the first thing wrong with it, in field order.
pub open spec fn parse_fen(s: Seq<u8>) -> Result<FenData, FenError> {
    let e0 = token_end(s, 0);
    let s1 = e0 + 1;
    let e1 = token_end(s, s1);
    let s2 = e1 + 1;
    let e2 = token_end(s, s2);
    let s3 = e2 + 1;
    let e3 = token_end(s, s3);
    let s4 = e3 + 1;
    let e4 = token_end(s, s4);
    let s5 = e4 + 1;
    let e5 = token_end(s, s5);
    if e0 >= s.len() {
        Err(FenError::MissingSeparator)
    } else {
        match placement(s, e0) {
            Err(e) => Err(e),
            Ok(st) => match parse_side(s.subrange(s1, e1)) {
                Err(e) => Err(e),
                Ok(side) => if e1 >= s.len() {
                    Err(FenError::MissingField)
                } else {
                    match parse_castling(s.subrange(s2, e2)) {
                        Err(e) => Err(e),
                        Ok(castle) => if e2 >= s.len() {
                            Err(FenError::MissingField)
                        } else {
                            match parse_ep(s.subrange(s3, e3)) {
                                Err(e) => Err(e),
                                Ok(ep) => if e3 >= s.len() {
                                    Err(FenError::MissingField)
                                } else {
                                    match parse_number(s.subrange(s4, e4), 256) {
                                        None => Err(FenError::BadHalfmove),
                                        Some(fifty) => if e4 >= s.len() {
                                            Err(FenError::MissingField)
                                        } else {
                                            match parse_number(s.subrange(s5, e5), 0x1_0000_0000) {
                                                None => Err(FenError::BadFullmove),
                                                Some(full) => Ok(
                                                    FenData {
                                                        grid: st.0,
                                                        side,
                                                        castle,
                                                        ep,
                                                        fifty: fifty as u8,
                                                        fullmove: full as u32,
                                                    },
                                                ),
                                            }
                                        },
                                    }
                                },
                            }
                        },
                    }
                },
            },
        }
    }
}

proof fn lemma_placement_err(s: Seq<u8>, i: int, n: int)
    requires
        0 <= i <= n,
        placement(s, i) is Err,
    ensures
        placement(s, n) == placement(s, i),
    decreases n - i,
{
    if n > i {
        lemma_placement_err(s, i, n - 1);
    }
}

proof fn lemma_placement_ok(s: Seq<u8>, n: int)
    requires
        0 <= n,
        placement(s, n) is Ok,
    ensures
        ({
            let (g, rank, file) = placement(s, n)->Ok_0;
            &&& grid_ok(g)
            &&& 0 <= rank <= 7
            &&& 0 <= file <= 8
        }),
    decreases n,
{
    if n > 0 {
        lemma_placement_ok(s, n - 1);
        let (g, rank, file) = placement(s, n - 1)->Ok_0;
        let c = s[n - 1];
        if letter_piece(c) != EMPTY && file <= 7 {
            let sq = square_of(file, rank);
            assert(on_board(sq));
            assert forall|i: int| 0 <= i < 120 && !on_board(i) implies #[trigger] g.update(sq, letter_piece(c))[i] == crate::types::OFFBOARD by {
                assert(i != sq);
            }
        }
    } else {
        assert(grid_ok(empty_grid()));
    }
}

fn letter_piece_of(c: u8) -> (r: u8)
    ensures
        r == letter_piece(c),
{
    if c == 80 { WP } else if c == 78 { WN } else if c == 66 { WB } else if c == 82 { WR }
    else if c == 81 { WQ } else if c == 75 { WK } else if c == 112 { BP } else if c == 110 { BN }
    else if c == 98 { BB } else if c == 114 { BR } else if c == 113 { BQ } else if c == 107 { BK }
    else { EMPTY }
}

fn token_end_of(s: &[u8], i: usize) -> (r: usize)
    requires
        i <= s@.len(),
    ensures
        r as int == token_end(s@, i as int),
        i <= r <= s@.len(),
{
    let mut j = i;
    while j < s.len() && s[j] != 32
        invariant
            i <= j <= s@.len(),
            token_end(s@, j as int) == token_end(s@, i as int),
        decreases s@.len() - j,
    {
        j += 1;
    }
    j
}

/// The grid that the placement field `s[0..end]` describes.
fn read_placement(s: &[u8], end: usize) -> (r: Result<Vec<u8>, FenError>)
    requires
        end <= s@.len(),
    ensures
        match placement(s@, end as int) {
            Ok(st) => r matches Ok(g) && g@ == st.0,
            Err(e) => r == Err::<Vec<u8>, FenError>(e),
        },
{
    let mut g = empty_grid_vec();
    let mut rank: u8 = 7;
    let mut file: u8 = 0;
    let mut i: usize = 0;
    while i < end
        invariant
            i <= end <= s@.len(),
            placement(s@, i as int) == Ok::<(Seq<u8>, int, int), FenError>((g@, rank as int, file as int)),
            rank <= 7,
            file <= 8,
            g@.len() == 120,
        decreases end - i,
    {
        let c = s[i];
        let p = letter_piece_of(c);
        if p != EMPTY {
            if file > 7 {
                proof { lemma_placement_err(s@, i + 1, end as int); }
                return Err(FenError::BadPlacement);
            }
            g.set((21 + file + 10 * rank) as usize, p);
            file += 1;
        } else if 49 <= c && c <= 56 {
            if file + (c - 48) > 8 {
                proof { lemma_placement_err(s@, i + 1, end as int); }
                return Err(FenError::BadPlacement);
            }
            file = file + (c - 48);
        } else if c == 47 {
            if rank == 0 {
                proof { lemma_placement_err(s@, i + 1, end as int); }
                return Err(FenError::BadPlacement);
            }
            rank -= 1;
            file = 0;
        } else {
            proof { lemma_placement_err(s@, i + 1, end as int); }
            return Err(FenError::BadPlacement);
        }
        i += 1;
    }
    Ok(g)
}

fn read_side(s: &[u8], start: usize, end: usize) -> (r: Result<u8, FenError>)
    requires
        start <= end <= s@.len(),
    ensures
        r == parse_side(s@.subrange(start as int, end as int)),
{
    let ghost t = s@.subrange(start as int, end as int);
    if end - start == 1 && s[start] == 119 {
        assert(t =~= seq![119u8]);
        Ok(WHITE)
    } else if end - start == 1 && s[start] == 98 {
        assert(t =~= seq![98u8]);
        assert(t[0] != seq![119u8][0]);
        Ok(BLACK)
    } else {
        proof {
            if t == seq![119u8] || t == seq![98u8] {
                assert(t.len() == 1);
                assert(t[0] == s@[start as int]);
            }
        }
        Err(FenError::BadSide)
    }
}

fn read_castling(s: &[u8], start: usize, end: usize) -> (r: Result<u8, FenError>)
    requires
        start <= end <= s@.len(),
    ensures
        r == parse_castling(s@.subrange(start as int, end as int)),
{
    let ghost t = s@.subrange(start as int, end as int);
    if end - start == 1 && s[start] == 45 {
        assert(t =~= seq![45u8]);
        return Ok(0);
    }
    proof {
        if t == seq![45u8] {
            assert(t.len() == 1);
            assert(t[0] == s@[start as int]);
        }
    }
    if end == start {
        return Err(FenError::BadCastling);
    }
    let mut bits: u8 = 0;
    let mut i = start;
    while i < end
        invariant
            start <= i <= end <= s@.len(),
            t == s@.subrange(start as int, end as int),
            t != seq![45u8],
            t.len() > 0,
            castle_bits(t, (i - start) as int) == Some(bits),
            bits < 16,
        decreases end - i,
    {
        let c = s[i];
        assert(t[(i - start) as int] == c);
        let b: u8 = if c == 75 { WKCA } else if c == 81 { WQCA } else if c == 107 { BKCA } else if c == 113 { BQCA } else { 0 };
        if b == 0 {
            proof {
                assert(castle_bits(t, (i - start + 1) as int) is None);
                lemma_castle_none(t, (i - start + 1) as int, t.len() as int);
            }
            return Err(FenError::BadCastling);
        }
        assert(bits | b < 16) by (bit_vector)
            requires
                bits < 16,
                b == 1 || b == 2 || b == 4 || b == 8,
        ;
        bits = bits | b;
        i += 1;
    }
    Ok(bits)
}

fn read_ep(s: &[u8], start: usize, end: usize) -> (r: Result<u8, FenError>)
    requires
        start <= end <= s@.len(),
    ensures
        r == parse_ep(s@.subrange(start as int, end as int)),
{
    let ghost t = s@.subrange(start as int, end as int);
    if end - start == 1 && s[start] == 45 {
        assert(t =~= seq![45u8]);
        return Ok(NO_SQ);
    }
    proof {
        if t == seq![45u8] {
            assert(t.len() == 1);
            assert(t[0] == s@[start as int]);
        }
    }
    if end - start == 2 {
        let f = s[start];
        let rk = s[start + 1];
        assert(t[0] == f && t[1] == rk);
        if 97 <= f && f <= 104 && 49 <= rk && rk <= 56 {
            return Ok(21 + (f - 97) + 10 * (rk - 49));
        }
    }
    Err(FenError::BadEnPassant)
}

/// The value of a token of digits when it is below `limit` (at most 2^32).
fn read_number(s: &[u8], start: usize, end: usize, limit: u64) -> (r: Option<u64>)
    requires
        start <= end <= s@.len(),
        limit <= 0x1_0000_0000,
    ensures
        r is Some <==> parse_number(s@.subrange(start as int, end as int), limit as int) is Some,
        r is Some ==> r->Some_0 as int == parse_number(
            s@.subrange(start as int, end as int),
            limit as int,
        )->Some_0,
        r matches Some(v) ==> v < limit,
{
    let ghost t = s@.subrange(start as int, end as int);
    if end == start {
        return None;
    }
    let mut v: u64 = 0;
    let mut i = start;
    while i < end
        invariant
            start <= i <= end <= s@.len(),
            t == s@.subrange(start as int, end as int),
            forall|j: int| 0 <= j < i - start ==> 48 <= #[trigger] t[j] <= 57,
            v as int == if digits_value(t, (i - start) as int) < 0x1_0000_0000 {
                digits_value(t, (i - start) as int)
            } else {
                0x1_0000_0000
            },
            digits_value(t, (i - start) as int) >= 0,
        decreases end - i,
    {
        let c = s[i];
        assert(t[(i - start) as int] == c);
        if c < 48 || c > 57 {
            return None;
        }
        let ghost prev = digits_value(t, (i - start) as int);
        let ghost next = digits_value(t, (i - start + 1) as int);
        assert(next == prev * 10 + (c - 48));
        if v >= 0x1_0000_0000 {
            assert(next >= 0x1_0000_0000) by (nonlinear_arith)
                requires
                    prev >= 0x1_0000_0000,
                    next == prev * 10 + (c - 48),
                    c >= 48,
            ;
        } else {
            let w = v * 10 + (c - 48) as u64;
            v = if w >= 0x1_0000_0000 { 0x1_0000_0000 } else { w };
        }
        i += 1;
    }
    assert(all_digits(t));
    if v < limit {
        Some(v)
    } else {
        None
    }
}

impl Board {
    /// Replaces the position with the one a board description gives; the
    /// move history is emptied and the move-ordering tables are kept. On an
    /// error the board is left as it was. A description that parses may
    /// still break a consistency rule (no king, an en-passant target on the
    /// wrong rank, a clock of 100 or more): `check_validity` tells.
    pub fn set_from_fen(&mut self, fen: &str) -> (r: Result<(), FenError>)
        requires
            old(self).tables_ready(),
        ensures
            match parse_fen(fen.spec_bytes()) {
                Ok(d) => {
                    &&& r is Ok
                    &&& final(self).wf()
                    &&& final(self).position_valid() == (kings_present(d.grid) && ep_ok(d.ep, d.side)
                        && d.fifty < 100)
                    &&& final(self).grid() == d.grid
                    &&& final(self).side_view() == d.side
                    &&& final(self).castle_view() == d.castle
                    &&& final(self).ep_view() == d.ep
                    &&& final(self).fifty_view() == d.fifty
                    &&& final(self).ply_view() == 2 * d.fullmove + (if d.side == BLACK { 1int } else { 0 })
                    &&& final(self).history_view().len() == 0
                    &&& final(self).height_view() == old(self).height_view()
                    &&& final(self).history_scores() == old(self).history_scores()
                    &&& final(self).countermoves() == old(self).countermoves()
                    &&& final(self).followup_scores() == old(self).followup_scores()
                    &&& final(self).killers() == old(self).killers()
                },
                Err(e) => r == Err::<(), FenError>(e) && *final(self) == *old(self),
            },
    {
        let s = fen.as_bytes();
        let ghost b = s@;
        let e0 = token_end_of(s, 0);
        if e0 >= s.len() {
            return Err(FenError::MissingSeparator);
        }
        let grid = match read_placement(s, e0) {
            Ok(g) => g,
            Err(e) => return Err(e),
        };
        proof { lemma_placement_ok(b, e0 as int); }
        let s1 = e0 + 1;
        let e1 = token_end_of(s, s1);
        let side = match read_side(s, s1, e1) {
            Ok(v) => v,
            Err(e) => return Err(e),
        };
        if e1 >= s.len() {
            return Err(FenError::MissingField);
        }
        let s2 = e1 + 1;
        let e2 = token_end_of(s, s2);
        let castle = match read_castling(s, s2, e2) {
            Ok(v) => v,
            Err(e) => return Err(e),
        };
        if e2 >= s.len() {
            return Err(FenError::MissingField);
        }
        let s3 = e2 + 1;
        let e3 = token_end_of(s, s3);
        let ep = match read_ep(s, s3, e3) {
            Ok(v) => v,
            Err(e) => return Err(e),
        };
        if e3 >= s.len() {
            return Err(FenError::MissingField);
        }
        let s4 = e3 + 1;
        let e4 = token_end_of(s, s4);
        let fifty = match read_number(s, s4, e4, 256) {
            Some(v) => v,
            None => return Err(FenError::BadHalfmove),
        };
        if e4 >= s.len() {
            return Err(FenError::MissingField);
        }
        let s5 = e4 + 1;
        let e5 = token_end_of(s, s5);
        let full = match read_number(s, s5, e5, 0x1_0000_0000) {
            Some(v) => v,
            None => return Err(FenError::BadFullmove),
        };
        assert(castle < 16) by {
            let t = b.subrange(s2 as int, e2 as int);
            if t != seq![45u8] {
                lemma_castle_bits_small(t, t.len() as int);
            }
        }
        self.key = position_key_of(&grid, side, ep, castle);
        self.pieces = grid;
        self.side = side;
        self.castle_perm = castle;
        self.ep_sq = ep;
        self.fifty_move_counter = fifty as u8;
        self.ply = full * 2 + if side == BLACK { 1 } else { 0 };
        self.history = Vec::new();
        self.update_list_material();
        Ok(())
    }
}

proof fn lemma_castle_none(t: Seq<u8>, i: int, n: int)
    requires
        0 <= i <= n,
        castle_bits(t, i) is None,
    ensures
        castle_bits(t, n) is None,
    decreases n - i,
{
    if n > i {
        lemma_castle_none(t, i, n - 1);
    }
}

proof fn lemma_castle_bits_small(t: Seq<u8>, n: int)
    requires
        0 <= n <= t.len(),
        castle_bits(t, n) is Some,
    ensures
        castle_bits(t, n)->Some_0 < 16,
    decreases n,
{
    if n > 0 {
        lemma_castle_bits_small(t, n - 1);
        let b = castle_bits(t, n - 1)->Some_0;
        let c = castle_bit(t[n - 1]);
        assert(b | c < 16) by (bit_vector)
            requires
                b < 16,
                c == 1 || c == 2 || c == 4 || c == 8,
        ;
    }
}

} // verus!
