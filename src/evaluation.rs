//! Evaluation terms for tuning, and a mobility counter fed with moves.
use vstd::prelude::*;
use vstd::string::StringExecFns;
use crate::types::{Move, is_piece, WP, WN, WB, WR, WQ, BP, BN, BB, BR, BQ};
use crate::board::Board;

verus! {

pub const PAWN_VALUE: i32 = 1000;
pub const KNIGHT_VALUE: i32 = 3250;
pub const BISHOP_VALUE: i32 = 3330;
pub const ROOK_VALUE: i32 = 5500;
pub const QUEEN_VALUE: i32 = 10000;
pub const KING_VALUE: i32 = 500000;

pub const PAWN_MOBILITY_MULTIPLIER: i32 = 10;
pub const KNIGHT_MOBILITY_MULTIPLIER: i32 = 15;
pub const BISHOP_MOBILITY_MULTIPLIER: i32 = 10;
pub const ROOK_MOBILITY_MULTIPLIER: i32 = 10;
pub const QUEEN_MOBILITY_MULTIPLIER: i32 = 10;
pub const KING_MOBILITY_MULTIPLIER: i32 = 10;

/// The digit character of `d` (0 to 9).
pub open spec fn digit_char(d: int) -> char {
    if d == 0 { '0' } else if d == 1 { '1' } else if d == 2 { '2' } else if d == 3 { '3' }
    else if d == 4 { '4' } else if d == 5 { '5' } else if d == 6 { '6' } else if d == 7 { '7' }
    else if d == 8 { '8' } else { '9' }
}

/// The decimal digits of a natural number, without leading zeros.
pub open spec fn digits(n: nat) -> Seq<char>
    decreases n,
{
    if n < 10 {
        seq![digit_char(n as int)]
    } else {
        digits(n / 10).push(digit_char((n % 10) as int))
    }
}

/// The decimal text of an integer, with a leading `-` when negative.
pub open spec fn decimal(v: int) -> Seq<char> {
    if v < 0 {
        seq!['-'] + digits((-v) as nat)
    } else {
        digits(v as nat)
    }
}

/// The text of one digit.
fn digit_text(d: u32) -> (r: &'static str)
    requires
        d < 10,
    ensures
        r@ == seq![digit_char(d as int)],
{
    proof {
        reveal_strlit("0");
        reveal_strlit("1");
        reveal_strlit("2");
        reveal_strlit("3");
        reveal_strlit("4");
        reveal_strlit("5");
        reveal_strlit("6");
        reveal_strlit("7");
        reveal_strlit("8");
        reveal_strlit("9");
    }
    if d == 0 { "0" } else if d == 1 { "1" } else if d == 2 { "2" } else if d == 3 { "3" }
    else if d == 4 { "4" } else if d == 5 { "5" } else if d == 6 { "6" } else if d == 7 { "7" }
    else if d == 8 { "8" } else { "9" }
}

/// Appends the decimal digits of `n`.
fn push_digits(out: &mut String, n: u32)
    ensures
        final(out)@ == old(out)@ + digits(n as nat),
    decreases n,
{
    if n >= 10 {
        push_digits(out, n / 10);
    }
    out.append(digit_text(n % 10));
    proof {
        if n >= 10 {
            assert(digits(n as nat) == digits((n / 10) as nat).push(digit_char((n % 10) as int)));
        }
    }
    assert(out@ =~= old(out)@ + digits(n as nat));
}

/// The decimal text of a value.
fn decimal_text(v: i32) -> (r: String)
    ensures
        r@ == decimal(v as int),
{
    let mut out = String::new();
    if v < 0 {
        out.append("-");
        proof {
            reveal_strlit("-");
        }
        let a: u32 = (-(v as i64)) as u32;
        push_digits(&mut out, a);
    } else {
        push_digits(&mut out, v as u32);
    }
    assert(out@ =~= decimal(v as int));
    out
}

/// The first `n` values, in decimal and separated by commas.
pub open spec fn comma_joined(xs: Seq<i32>, n: int) -> Seq<char>
    decreases n,
{
    if n <= 0 {
        Seq::empty()
    } else if n == 1 {
        decimal(xs[0] as int)
    } else {
        comma_joined(xs, n - 1) + seq![','] + decimal(xs[n - 1] as int)
    }
}

/// All the terms in the evaluation function, for tuning it.
#[derive(Debug, Clone, Copy, PartialEq, Eq)]
pub struct EvalVector {
    /// Whether the position is fit for tuning (quiescent, among other things).
    pub valid: bool,
    pub pawns: i32,
    pub knights: i32,
    pub bishops: i32,
    pub rooks: i32,
    pub queens: i32,
    /// The bishop pair term: -1, 0 or 1.
    pub bishop_pair: i32,
    /// Relative passed-pawn counts by rank.
    pub passed_pawns_by_rank: [i32; 8],
    pub isolated_pawns: i32,
    pub doubled_pawns: i32,
    /// The relative piece-square score, before scaling.
    pub pst: i32,
    pub pawn_mobility: i32,
    pub knight_mobility: i32,
    pub bishop_mobility: i32,
    pub rook_mobility: i32,
    pub queen_mobility: i32,
    pub king_mobility: i32,
    pub pawn_shield: i32,
    /// The side to move: 1 or -1.
    pub turn: i32,
}

/// The terms of an evaluation vector in the order of `EvalVector::header`.
pub open spec fn eval_terms(e: EvalVector) -> Seq<i32> {
    seq![
        e.pawns, e.knights, e.bishops, e.rooks, e.queens, e.bishop_pair,
        e.passed_pawns_by_rank@[0], e.passed_pawns_by_rank@[1], e.passed_pawns_by_rank@[2],
        e.passed_pawns_by_rank@[3], e.passed_pawns_by_rank@[4], e.passed_pawns_by_rank@[5],
        e.passed_pawns_by_rank@[6], e.passed_pawns_by_rank@[7], e.isolated_pawns,
        e.doubled_pawns, e.pst, e.pawn_mobility, e.knight_mobility, e.bishop_mobility,
        e.rook_mobility, e.queen_mobility, e.king_mobility, e.pawn_shield, e.turn,
    ]
}

impl EvalVector {
    /// A valid vector with every term zero.
    pub fn new() -> (r: Self)
        ensures
            r.valid,
            eval_terms(r) == Seq::new(25, |_i: int| 0i32),
    {
        let r = EvalVector {
            valid: true,
            pawns: 0,
            knights: 0,
            bishops: 0,
            rooks: 0,
            queens: 0,
            bishop_pair: 0,
            passed_pawns_by_rank: [0; 8],
            isolated_pawns: 0,
            doubled_pawns: 0,
            pst: 0,
            pawn_mobility: 0,
            knight_mobility: 0,
            bishop_mobility: 0,
            rook_mobility: 0,
            queen_mobility: 0,
            king_mobility: 0,
            pawn_shield: 0,
            turn: 0,
        };
        assert(eval_terms(r) =~= Seq::new(25, |_i: int| 0i32));
        r
    }

    /// The terms as one line of comma-separated decimals, in header order.
    pub fn csvify(&self) -> (r: String)
        ensures
            r@ == comma_joined(eval_terms(*self), 25),
    {
        let p = &self.passed_pawns_by_rank;
        let terms: Vec<i32> = vec![
            self.pawns, self.knights, self.bishops, self.rooks, self.queens, self.bishop_pair,
            p[0], p[1], p[2], p[3], p[4], p[5], p[6], p[7], self.isolated_pawns,
            self.doubled_pawns, self.pst, self.pawn_mobility, self.knight_mobility,
            self.bishop_mobility, self.rook_mobility, self.queen_mobility, self.king_mobility,
            self.pawn_shield, self.turn,
        ];
        assert(terms@ =~= eval_terms(*self));
        let mut out = decimal_text(terms[0]);
        let mut i: usize = 1;
        while i < 25
            invariant
                1 <= i <= 25,
                terms@ == eval_terms(*self),
                out@ == comma_joined(terms@, i as int),
            decreases 25 - i,
        {
            out.append(",");
            proof {
                reveal_strlit(",");
            }
            let t = decimal_text(terms[i]);
            out.append(t.as_str());
            assert(out@ =~= comma_joined(terms@, i + 1));
            i += 1;
        }
        out
    }

    /// The names of the terms, in `csvify` order.
    pub fn header() -> (r: &'static str)
        ensures
            r@ == "p,n,b,r,q,bpair,ppr0,ppr1,ppr2,ppr3,ppr4,ppr5,ppr6,ppr7,isolated,doubled,pst,p_mob,n_mob,b_mob,r_mob,q_mob,k_mob,p_shield,turn"@,
    {
        "p,n,b,r,q,bpair,ppr0,ppr1,ppr2,ppr3,ppr4,ppr5,ppr6,ppr7,isolated,doubled,pst,p_mob,n_mob,b_mob,r_mob,q_mob,k_mob,p_shield,turn"
    }
}

/// Slot of a piece kind in the mobility counters: pawn 0 up to king 5.
pub open spec fn kind_slot(p: u8) -> int {
    (p - 1) % 6
}

/// The mobility score of counters: each kind's count times its multiplier.
pub open spec fn mobility_score(c: Seq<i32>) -> int {
    c[0] * PAWN_MOBILITY_MULTIPLIER + c[1] * KNIGHT_MOBILITY_MULTIPLIER + c[2]
        * BISHOP_MOBILITY_MULTIPLIER + c[3] * ROOK_MOBILITY_MULTIPLIER + c[4]
        * QUEEN_MOBILITY_MULTIPLIER + c[5] * KING_MOBILITY_MULTIPLIER
}

/// Counts the moves it is fed, per kind of the piece that moves.
pub struct MoveCounter<'a> {
    counters: [i32; 6],
    board: &'a Board,
}

impl<'a> MoveCounter<'a> {
    pub closed spec fn counts(&self) -> Seq<i32> {
        self.counters@
    }

    pub closed spec fn board_view(&self) -> Board {
        *self.board
    }

    pub fn new(board: &'a Board) -> (r: Self)
        ensures
            r.counts() == Seq::new(6, |_i: int| 0i32),
            r.board_view() == *board,
    {
        let r = MoveCounter { counters: [0; 6], board };
        assert(r.counts() =~= Seq::new(6, |_i: int| 0i32));
        r
    }

    /// The weighted mobility score; the score must fit in an `i32`.
    pub fn score(&self) -> (r: i32)
        requires
            i32::MIN <= mobility_score(self.counts()) <= i32::MAX,
        ensures
            r as int == mobility_score(self.counts()),
    {
        let pawns = self.counters[0] as i64 * PAWN_MOBILITY_MULTIPLIER as i64;
        let knights = self.counters[1] as i64 * KNIGHT_MOBILITY_MULTIPLIER as i64;
        let bishops = self.counters[2] as i64 * BISHOP_MOBILITY_MULTIPLIER as i64;
        let rooks = self.counters[3] as i64 * ROOK_MOBILITY_MULTIPLIER as i64;
        let queens = self.counters[4] as i64 * QUEEN_MOBILITY_MULTIPLIER as i64;
        let kings = self.counters[5] as i64 * KING_MOBILITY_MULTIPLIER as i64;
        (pawns + knights + bishops + rooks + queens + kings) as i32
    }

    /// The count kept for the kind of `piece`.
    pub fn get_mobility_of(&self, piece: u8) -> (r: i32)
        requires
            is_piece(piece),
        ensures
            r == self.counts()[kind_slot(piece)],
    {
        if piece == WP || piece == BP {
            self.counters[0]
        } else if piece == WN || piece == BN {
            self.counters[1]
        } else if piece == WB || piece == BB {
            self.counters[2]
        } else if piece == WR || piece == BR {
            self.counters[3]
        } else if piece == WQ || piece == BQ {
            self.counters[4]
        } else {
            self.counters[5]
        }
    }

    /// Counts move `m` for the kind of the piece it moves.
    pub fn push(&mut self, m: Move, score: i32)
        requires
            old(self).board_view().indexes_agree(),
            m.from < 120,
            is_piece(old(self).board_view().grid()[m.from as int]),
            forall|i: int| 0 <= i < 6 ==> #[trigger] old(self).counts()[i] < i32::MAX,
        ensures
            final(self).board_view() == old(self).board_view(),
            final(self).counts() == old(self).counts().update(
                kind_slot(old(self).board_view().grid()[m.from as int]),
                (old(self).counts()[kind_slot(old(self).board_view().grid()[m.from as int])] + 1) as i32,
            ),
    {
        let moved_piece = self.board.moved_piece(m);
        let idx = ((moved_piece - 1) % 6) as usize;
        let c = self.counters[idx];
        assert(c == old(self).counts()[idx as int]);
        self.counters.set(idx, c + 1);
    }
}

} // verus!
