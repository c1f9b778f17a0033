//! A pawn one step from the far rank: the generated moves onto a square it
//! can reach are exactly its four promotions.
use vstd::prelude::*;
use crate::types::{
    Move, MoveKind, EMPTY, OFFBOARD, WHITE, WP, WN, WB, WR, WQ, WK, BP, BN, BB, BR, BQ, BK,
    on_board, is_piece, colour_of, is_side, rank_of,
};
use crate::board::{grid_ok, squares_upto, WKCA, WQCA, BKCA, BQCA};
use crate::board::movegen::{
    opponent, forward, promo_rank, promo_piece, mv, pawn_step_moves, pawn_forward_moves,
    pawn_capture_at, pawn_ep_at, pawn_moves, pawn_capture_moves, pawn_ep_moves, left_diag,
    right_diag, target_moves, jump_moves_upto, jump_dir, ray_moves, slider_moves_upto, slider_dir,
    flat_moves, piece_moves, piece_fn, moves_of_piece, generated_moves, own, castle_moves,
    castle_one, start_rank, lemma_squares_hold,
};
use crate::board::scan::lemma_squares_member;

verus! {

/// Every move of `ms` leaves square `s`.
pub open spec fn all_from(ms: Seq<Move>, s: int) -> bool {
    forall|i: int| 0 <= i < ms.len() ==> (#[trigger] ms[i]).from as int == s
}

/// Every move of `ms` leaves a square holding `p`.
pub open spec fn all_from_piece(g: Seq<u8>, ms: Seq<Move>, p: u8) -> bool {
    forall|i: int| 0 <= i < ms.len() ==> g[(#[trigger] ms[i]).from as int] == p
}

proof fn lemma_all_from_concat(a: Seq<Move>, b: Seq<Move>, s: int)
    requires
        all_from(a, s),
        all_from(b, s),
    ensures
        all_from(a + b, s),
{
    assert forall|i: int| 0 <= i < (a + b).len() implies (#[trigger] (a + b)[i]).from as int == s by {
        if i < a.len() {
            assert((a + b)[i] == a[i]);
        } else {
            assert((a + b)[i] == b[i - a.len()]);
        }
    }
}

proof fn lemma_all_from_piece_concat(g: Seq<u8>, a: Seq<Move>, b: Seq<Move>, p: u8)
    requires
        all_from_piece(g, a, p),
        all_from_piece(g, b, p),
    ensures
        all_from_piece(g, a + b, p),
{
    assert forall|i: int| 0 <= i < (a + b).len() implies g[(#[trigger] (a + b)[i]).from as int] == p by {
        if i < a.len() {
            assert((a + b)[i] == a[i]);
        } else {
            assert((a + b)[i] == b[i - a.len()]);
        }
    }
}

proof fn lemma_ray_from(g: Seq<u8>, s: int, a: int, d: int, side: u8)
    requires
        0 <= s < 120,
    ensures
        all_from(ray_moves(g, s, a, d, side), s),
    decreases (if d > 0 { 120 - a } else { a + 1 }),
{
    let rm = ray_moves(g, s, a, d, side);
    if a < 0 || a >= 120 || d == 0 || g[a] == OFFBOARD {
    } else if g[a] != EMPTY {
    } else if a + d < 0 || a + d >= 120 {
    } else {
        let q = seq![mv(s, a, EMPTY, EMPTY, MoveKind::Normal)];
        lemma_ray_from(g, s, a + d, d, side);
        lemma_all_from_concat(q, ray_moves(g, s, a + d, d, side), s);
    }
}

proof fn lemma_slides_from(g: Seq<u8>, s: int, side: u8, kind: int, k: int)
    requires
        0 <= s < 120,
    ensures
        all_from(slider_moves_upto(g, s, side, kind, k), s),
    decreases k,
{
    if k > 0 {
        lemma_slides_from(g, s, side, kind, k - 1);
        let d = slider_dir(kind, k - 1);
        lemma_ray_from(g, s, s + d, d, side);
        lemma_all_from_concat(slider_moves_upto(g, s, side, kind, k - 1), ray_moves(g, s, s + d, d, side), s);
    }
}

proof fn lemma_jumps_from(g: Seq<u8>, s: int, side: u8, knight: bool, k: int)
    requires
        0 <= s < 120,
    ensures
        all_from(jump_moves_upto(g, s, side, knight, k), s),
    decreases k,
{
    if k > 0 {
        lemma_jumps_from(g, s, side, knight, k - 1);
        let tm = target_moves(g, s, s + jump_dir(knight, k - 1), side);
        assert(all_from(tm, s));
        lemma_all_from_concat(jump_moves_upto(g, s, side, knight, k - 1), tm, s);
    }
}

proof fn lemma_pawn_from(g: Seq<u8>, s: int, side: u8, ep: u8)
    requires
        0 <= s < 120,
    ensures
        all_from(pawn_moves(g, s, side, ep), s),
{
    let f = forward(side);
    let fw = pawn_forward_moves(g, s, side);
    assert(all_from(pawn_step_moves(s, s + f, EMPTY, side), s));
    let tail = if rank_of(s) == start_rank(side) && g[s + f + f] == EMPTY {
        seq![mv(s, s + f + f, EMPTY, EMPTY, MoveKind::PawnStart)]
    } else {
        Seq::empty()
    };
    assert(all_from(tail, s));
    lemma_all_from_concat(pawn_step_moves(s, s + f, EMPTY, side), tail, s);
    assert(all_from(fw, s));
    let cl = pawn_capture_at(g, s, s + left_diag(side), side);
    let cr = pawn_capture_at(g, s, s + right_diag(side), side);
    assert(all_from(cl, s));
    assert(all_from(cr, s));
    lemma_all_from_concat(cl, cr, s);
    let el = pawn_ep_at(g, s, s + left_diag(side), ep);
    let er = pawn_ep_at(g, s, s + right_diag(side), ep);
    assert(all_from(el, s));
    assert(all_from(er, s));
    lemma_all_from_concat(el, er, s);
    lemma_all_from_concat(fw, pawn_capture_moves(g, s, side), s);
    lemma_all_from_concat(fw + pawn_capture_moves(g, s, side), pawn_ep_moves(g, s, side, ep), s);
}

proof fn lemma_square_from(g: Seq<u8>, s: int, side: u8, ep: u8, p: u8)
    requires
        0 <= s < 120,
    ensures
        all_from(piece_moves(g, s, side, ep, p), s),
{
    if p == WP || p == BP {
        lemma_pawn_from(g, s, side, ep);
    } else if p == WN || p == BN {
        lemma_jumps_from(g, s, side, true, 8);
    } else if p == WK || p == BK {
        lemma_jumps_from(g, s, side, false, 8);
    } else if p == WB || p == BB {
        lemma_slides_from(g, s, side, 0, 4);
    } else if p == WR || p == BR {
        lemma_slides_from(g, s, side, 1, 4);
    } else {
        lemma_slides_from(g, s, side, 2, 8);
    }
}

proof fn lemma_flat_from_piece(g: Seq<u8>, side: u8, ep: u8, p: u8, n: int)
    requires
        g.len() == 120,
        0 <= n <= squares_upto(g, p, 120).len(),
    ensures
        all_from_piece(g, flat_moves(squares_upto(g, p, 120), n, piece_fn(g, side, ep, p)), p),
    decreases n,
{
    if n > 0 {
        let l = squares_upto(g, p, 120);
        let f = piece_fn(g, side, ep, p);
        lemma_flat_from_piece(g, side, ep, p, n - 1);
        lemma_squares_hold(g, p, 120);
        let s = l[n - 1] as int;
        lemma_square_from(g, s, side, ep, p);
        assert(f(s) == piece_moves(g, s, side, ep, p));
        assert(all_from_piece(g, f(s), p));
        lemma_all_from_piece_concat(g, flat_moves(l, n - 1, f), f(s), p);
    }
}

/// Every move of piece `p` leaves a square holding `p`.
proof fn lemma_piece_from(g: Seq<u8>, side: u8, ep: u8, p: u8)
    requires
        g.len() == 120,
        is_piece(p),
    ensures
        all_from_piece(g, moves_of_piece(g, side, ep, p), p),
{
    lemma_flat_from_piece(g, side, ep, p, squares_upto(g, p, 120).len() as int);
}

/// `m` promotes on its way from `from` to `to`, capturing `cap`.
pub open spec fn is_promotion(m: Move, from: int, to: int, cap: u8, side: u8) -> bool {
    &&& m.from as int == from
    &&& m.to as int == to
    &&& m.kind == MoveKind::Normal
    &&& m.capture == cap
    &&& (m.promotion == promo_piece(side, 0) || m.promotion == promo_piece(side, 1)
        || m.promotion == promo_piece(side, 2) || m.promotion == promo_piece(side, 3))
}

/// Every move of `ms` from `from` to `to` is a promotion capturing `cap`.
pub open spec fn only_promotions(ms: Seq<Move>, from: int, to: int, cap: u8, side: u8) -> bool {
    forall|i: int|
        0 <= i < ms.len() && (#[trigger] ms[i]).from as int == from && ms[i].to as int == to
            ==> is_promotion(ms[i], from, to, cap, side)
}

proof fn lemma_only_concat(a: Seq<Move>, b: Seq<Move>, from: int, to: int, cap: u8, side: u8)
    requires
        only_promotions(a, from, to, cap, side),
        only_promotions(b, from, to, cap, side),
    ensures
        only_promotions(a + b, from, to, cap, side),
{
    assert forall|i: int|
        0 <= i < (a + b).len() && (#[trigger] (a + b)[i]).from as int == from && (a + b)[i].to as int
            == to implies is_promotion((a + b)[i], from, to, cap, side) by {
        if i < a.len() {
            assert((a + b)[i] == a[i]);
        } else {
            assert((a + b)[i] == b[i - a.len()]);
        }
    }
}

/// The square a promoting pawn on `from` reaches, and what it captures.
pub open spec fn promotion_target(g: Seq<u8>, from: int, to: int, side: u8) -> bool {
    (to == from + forward(side) && g[to] == EMPTY) || ((to == from + left_diag(side) || to == from
        + right_diag(side)) && is_piece(g[to]) && colour_of(g[to]) == opponent(side))
}

proof fn lemma_pawn_only(g: Seq<u8>, from: int, to: int, side: u8, ep: u8)
    requires
        grid_ok(g),
        on_board(from),
        is_side(side),
        rank_of(from) == promo_rank(side),
        promotion_target(g, from, to, side),
    ensures
        only_promotions(pawn_moves(g, from, side, ep), from, to, g[to], side),
        forall|k: int| 0 <= k < 4 ==> pawn_moves(g, from, side, ep).contains(
            #[trigger] mv(from, to, g[to], promo_piece(side, k), MoveKind::Normal),
        ),
{
    let f = forward(side);
    let fw = pawn_forward_moves(g, from, side);
    let cl = pawn_capture_at(g, from, from + left_diag(side), side);
    let cr = pawn_capture_at(g, from, from + right_diag(side), side);
    let el = pawn_ep_at(g, from, from + left_diag(side), ep);
    let er = pawn_ep_at(g, from, from + right_diag(side), ep);
    let caps = pawn_capture_moves(g, from, side);
    let eps = pawn_ep_moves(g, from, side, ep);
    let all = pawn_moves(g, from, side, ep);
    assert(all == fw + caps + eps);
    assert(caps == cl + cr);
    assert(eps == el + er);
    if g[from + f] == EMPTY {
        assert(fw =~= pawn_step_moves(from, from + f, EMPTY, side));
    } else {
        assert(fw.len() == 0);
    }
    assert(only_promotions(fw, from, to, g[to], side));
    assert(only_promotions(cl, from, to, g[to], side));
    assert(only_promotions(cr, from, to, g[to], side));
    assert(only_promotions(el, from, to, g[to], side));
    assert(only_promotions(er, from, to, g[to], side));
    lemma_only_concat(cl, cr, from, to, g[to], side);
    lemma_only_concat(el, er, from, to, g[to], side);
    lemma_only_concat(fw, caps, from, to, g[to], side);
    lemma_only_concat(fw + caps, eps, from, to, g[to], side);
    assert forall|k: int| 0 <= k < 4 implies all.contains(
        #[trigger] mv(from, to, g[to], promo_piece(side, k), MoveKind::Normal),
    ) by {
        let x = mv(from, to, g[to], promo_piece(side, k), MoveKind::Normal);
        let part = if to == from + f {
            fw
        } else if to == from + left_diag(side) {
            cl
        } else {
            cr
        };
        assert(part[k] == x);
        let off = if to == from + f {
            0
        } else if to == from + left_diag(side) {
            fw.len() as int
        } else {
            (fw.len() + cl.len()) as int
        };
        assert(all[off + k] == x);
    }
}

proof fn lemma_pawn_flat_only(g: Seq<u8>, from: int, to: int, side: u8, ep: u8, n: int)
    requires
        grid_ok(g),
        on_board(from),
        is_side(side),
        g[from] == own(side, WP, BP),
        rank_of(from) == promo_rank(side),
        promotion_target(g, from, to, side),
        0 <= n <= squares_upto(g, own(side, WP, BP), 120).len(),
    ensures
        only_promotions(
            flat_moves(
                squares_upto(g, own(side, WP, BP), 120),
                n,
                piece_fn(g, side, ep, own(side, WP, BP)),
            ),
            from,
            to,
            g[to],
            side,
        ),
    decreases n,
{
    if n > 0 {
        let p = own(side, WP, BP);
        let l = squares_upto(g, p, 120);
        let f = piece_fn(g, side, ep, p);
        lemma_pawn_flat_only(g, from, to, side, ep, n - 1);
        lemma_squares_hold(g, p, 120);
        let s = l[n - 1] as int;
        assert(f(s) == pawn_moves(g, s, side, ep));
        if s == from {
            lemma_pawn_only(g, from, to, side, ep);
        } else {
            lemma_pawn_from(g, s, side, ep);
        }
        lemma_only_concat(flat_moves(l, n - 1, f), f(s), from, to, g[to], side);
    }
}

proof fn lemma_flat_contains(l: Seq<u8>, n: int, f: spec_fn(int) -> Seq<Move>, i: int, x: Move)
    requires
        0 <= i < n <= l.len(),
        f(l[i] as int).contains(x),
    ensures
        flat_moves(l, n, f).contains(x),
    decreases n,
{
    let a = flat_moves(l, n - 1, f);
    let b = f(l[n - 1] as int);
    if i < n - 1 {
        lemma_flat_contains(l, n - 1, f, i, x);
        let j = choose|j: int| 0 <= j < a.len() && a[j] == x;
        assert((a + b)[j] == x);
    } else {
        let j = choose|j: int| 0 <= j < b.len() && b[j] == x;
        assert((a + b)[a.len() + j] == x);
    }
}

proof fn lemma_other_kind_only(g: Seq<u8>, side: u8, ep: u8, p: u8, from: int, to: int, cap: u8)
    requires
        g.len() == 120,
        is_piece(p),
        g[from] != p,
    ensures
        only_promotions(moves_of_piece(g, side, ep, p), from, to, cap, side),
{
    lemma_piece_from(g, side, ep, p);
}

proof fn lemma_castles_only(g: Seq<u8>, side: u8, castle: u8, from: int, to: int, cap: u8)
    requires
        is_side(side),
        on_board(from),
        rank_of(from) == promo_rank(side),
    ensures
        only_promotions(castle_moves(g, side, castle), from, to, cap, side),
{
    let (a, b) = if side == WHITE {
        (
            castle_one(g, castle, WKCA, g[26] == EMPTY && g[27] == EMPTY, 25, 26, 27, side),
            castle_one(g, castle, WQCA, g[24] == EMPTY && g[23] == EMPTY && g[22] == EMPTY, 25, 24, 23, side),
        )
    } else {
        (
            castle_one(g, castle, BKCA, g[96] == EMPTY && g[97] == EMPTY, 95, 96, 97, side),
            castle_one(g, castle, BQCA, g[94] == EMPTY && g[93] == EMPTY && g[92] == EMPTY, 95, 94, 93, side),
        )
    };
    assert(castle_moves(g, side, castle) == a + b);
    assert(only_promotions(a, from, to, cap, side));
    assert(only_promotions(b, from, to, cap, side));
    lemma_only_concat(a, b, from, to, cap, side);
}

proof fn lemma_generated_only(g: Seq<u8>, side: u8, ep: u8, castle: u8, from: int, to: int)
    requires
        grid_ok(g),
        is_side(side),
        on_board(from),
        g[from] == own(side, WP, BP),
        rank_of(from) == promo_rank(side),
        promotion_target(g, from, to, side),
    ensures
        only_promotions(generated_moves(g, side, ep, castle), from, to, g[to], side),
{
    let pw = own(side, WP, BP);
    let mp = moves_of_piece(g, side, ep, pw);
    let mn = moves_of_piece(g, side, ep, own(side, WN, BN));
    let mk = moves_of_piece(g, side, ep, own(side, WK, BK));
    let mb = moves_of_piece(g, side, ep, own(side, WB, BB));
    let mr = moves_of_piece(g, side, ep, own(side, WR, BR));
    let mq = moves_of_piece(g, side, ep, own(side, WQ, BQ));
    let mc = castle_moves(g, side, castle);
    let cap = g[to];
    lemma_pawn_flat_only(g, from, to, side, ep, squares_upto(g, pw, 120).len() as int);
    assert(only_promotions(mp, from, to, cap, side));
    lemma_other_kind_only(g, side, ep, own(side, WN, BN), from, to, cap);
    lemma_other_kind_only(g, side, ep, own(side, WK, BK), from, to, cap);
    lemma_other_kind_only(g, side, ep, own(side, WB, BB), from, to, cap);
    lemma_other_kind_only(g, side, ep, own(side, WR, BR), from, to, cap);
    lemma_other_kind_only(g, side, ep, own(side, WQ, BQ), from, to, cap);
    lemma_castles_only(g, side, castle, from, to, cap);
    lemma_only_concat(mp, mn, from, to, cap, side);
    lemma_only_concat(mp + mn, mk, from, to, cap, side);
    lemma_only_concat(mp + mn + mk, mb, from, to, cap, side);
    lemma_only_concat(mp + mn + mk + mb, mr, from, to, cap, side);
    lemma_only_concat(mp + mn + mk + mb + mr, mq, from, to, cap, side);
    lemma_only_concat(mp + mn + mk + mb + mr + mq, mc, from, to, cap, side);
}

proof fn lemma_generated_contains(g: Seq<u8>, side: u8, ep: u8, castle: u8, from: int, to: int, k: int)
    requires
        grid_ok(g),
        is_side(side),
        on_board(from),
        g[from] == own(side, WP, BP),
        rank_of(from) == promo_rank(side),
        promotion_target(g, from, to, side),
        0 <= k < 4,
    ensures
        generated_moves(g, side, ep, castle).contains(
            mv(from, to, g[to], promo_piece(side, k), MoveKind::Normal),
        ),
{
    let pw = own(side, WP, BP);
    let mp = moves_of_piece(g, side, ep, pw);
    let x = mv(from, to, g[to], promo_piece(side, k), MoveKind::Normal);
    let l = squares_upto(g, pw, 120);
    lemma_squares_member(g, pw, 120, from);
    let i = choose|i: int| 0 <= i < l.len() && #[trigger] l[i] as int == from;
    lemma_pawn_only(g, from, to, side, ep);
    let f = piece_fn(g, side, ep, pw);
    assert(f(l[i] as int) == pawn_moves(g, from, side, ep));
    assert(pawn_moves(g, from, side, ep).contains(x));
    lemma_flat_contains(l, l.len() as int, f, i, x);
    let j = choose|j: int| 0 <= j < mp.len() && mp[j] == x;
    let gen = generated_moves(g, side, ep, castle);
    let rest = moves_of_piece(g, side, ep, own(side, WN, BN)) + moves_of_piece(g, side, ep, own(side, WK, BK))
        + moves_of_piece(g, side, ep, own(side, WB, BB)) + moves_of_piece(g, side, ep, own(side, WR, BR))
        + moves_of_piece(g, side, ep, own(side, WQ, BQ)) + castle_moves(g, side, castle);
    assert(gen =~= mp + rest);
    assert(gen[j] == x);
}

/// A pawn of the side to move one step from the far rank, and a square it
/// reaches (the empty square ahead, or a forward diagonal holding an
/// opposing piece): among the generated moves, those from the pawn's square
/// to that square are the four promotions (queen, knight, rook, bishop),
/// each capturing what stands there, and all four are generated.
pub proof fn lemma_generated_promotions(g: Seq<u8>, side: u8, ep: u8, castle: u8, from: int, to: int)
    requires
        grid_ok(g),
        is_side(side),
        on_board(from),
        g[from] == own(side, WP, BP),
        rank_of(from) == promo_rank(side),
        promotion_target(g, from, to, side),
    ensures
        only_promotions(generated_moves(g, side, ep, castle), from, to, g[to], side),
        forall|k: int| 0 <= k < 4 ==> generated_moves(g, side, ep, castle).contains(
            #[trigger] mv(from, to, g[to], promo_piece(side, k), MoveKind::Normal),
        ),
{
    lemma_generated_only(g, side, ep, castle, from, to);
    assert forall|k: int| 0 <= k < 4 implies generated_moves(g, side, ep, castle).contains(
        #[trigger] mv(from, to, g[to], promo_piece(side, k), MoveKind::Normal),
    ) by {
        lemma_generated_contains(g, side, ep, castle, from, to, k);
    }
}

/// How many moves of `ms` go from `from` to `to`.
pub open spec fn count_onto(ms: Seq<Move>, from: int, to: int) -> nat
    decreases ms.len(),
{
    if ms.len() == 0 {
        0
    } else {
        count_onto(ms.drop_last(), from, to) + if ms.last().from as int == from && ms.last().to as int
            == to {
            1nat
        } else {
            0nat
        }
    }
}

proof fn lemma_count_concat(a: Seq<Move>, b: Seq<Move>, from: int, to: int)
    ensures
        count_onto(a + b, from, to) == count_onto(a, from, to) + count_onto(b, from, to),
    decreases b.len(),
{
    if b.len() > 0 {
        assert((a + b).drop_last() =~= a + b.drop_last());
        assert((a + b).last() == b.last());
        lemma_count_concat(a, b.drop_last(), from, to);
    } else {
        assert(a + b =~= a);
    }
}

proof fn lemma_count_none(ms: Seq<Move>, from: int, to: int)
    requires
        forall|i: int| 0 <= i < ms.len() ==> !((#[trigger] ms[i]).from as int == from && ms[i].to as int == to),
    ensures
        count_onto(ms, from, to) == 0,
    decreases ms.len(),
{
    if ms.len() > 0 {
        assert forall|i: int| 0 <= i < ms.drop_last().len() implies !((#[trigger] ms.drop_last()[i]).from as int
            == from && ms.drop_last()[i].to as int == to) by {
            assert(ms.drop_last()[i] == ms[i]);
        }
        lemma_count_none(ms.drop_last(), from, to);
    }
}

proof fn lemma_count_all(ms: Seq<Move>, from: int, to: int)
    requires
        forall|i: int| 0 <= i < ms.len() ==> (#[trigger] ms[i]).from as int == from && ms[i].to as int == to,
    ensures
        count_onto(ms, from, to) == ms.len(),
    decreases ms.len(),
{
    if ms.len() > 0 {
        assert forall|i: int| 0 <= i < ms.drop_last().len() implies (#[trigger] ms.drop_last()[i]).from as int
            == from && ms.drop_last()[i].to as int == to by {
            assert(ms.drop_last()[i] == ms[i]);
        }
        lemma_count_all(ms.drop_last(), from, to);
    }
}

/// Moves all leaving `s` (other than `from`) count nothing.
proof fn lemma_count_other_square(ms: Seq<Move>, s: int, from: int, to: int)
    requires
        all_from(ms, s),
        s != from,
    ensures
        count_onto(ms, from, to) == 0,
{
    lemma_count_none(ms, from, to);
}

/// Squares of a piece list come in strictly increasing order.
proof fn lemma_squares_increasing(g: Seq<u8>, p: u8, n: int)
    requires
        0 <= n <= 120,
        g.len() == 120,
    ensures
        forall|i: int, j: int|
            0 <= i < j < squares_upto(g, p, n).len() ==> #[trigger] squares_upto(g, p, n)[i]
                < #[trigger] squares_upto(g, p, n)[j],
    decreases n,
{
    if n > 0 {
        lemma_squares_increasing(g, p, n - 1);
        lemma_squares_hold(g, p, n - 1);
        let prev = squares_upto(g, p, n - 1);
        if g[n - 1] == p {
            let cur = prev.push((n - 1) as u8);
            assert forall|i: int, j: int| 0 <= i < j < cur.len() implies #[trigger] cur[i] < #[trigger] cur[j] by {
                if j < prev.len() {
                    assert(cur[i] == prev[i] && cur[j] == prev[j]);
                } else {
                    assert(cur[i] == prev[i]);
                    assert((prev[i] as int) < n - 1);
                }
            }
        }
    }
}

proof fn lemma_pawn_count(g: Seq<u8>, from: int, to: int, side: u8, ep: u8)
    requires
        grid_ok(g),
        on_board(from),
        is_side(side),
        rank_of(from) == promo_rank(side),
        promotion_target(g, from, to, side),
    ensures
        count_onto(pawn_moves(g, from, side, ep), from, to) == 4,
{
    let f = forward(side);
    let fw = pawn_forward_moves(g, from, side);
    let cl = pawn_capture_at(g, from, from + left_diag(side), side);
    let cr = pawn_capture_at(g, from, from + right_diag(side), side);
    let el = pawn_ep_at(g, from, from + left_diag(side), ep);
    let er = pawn_ep_at(g, from, from + right_diag(side), ep);
    let caps = pawn_capture_moves(g, from, side);
    let eps = pawn_ep_moves(g, from, side, ep);
    assert(pawn_moves(g, from, side, ep) == fw + caps + eps);
    assert(caps == cl + cr);
    assert(eps == el + er);
    if g[from + f] == EMPTY {
        assert(fw =~= pawn_step_moves(from, from + f, EMPTY, side));
    } else {
        assert(fw.len() == 0);
    }
    let parts = seq![fw, cl, cr, el, er];
    assert forall|k: int| 0 <= k < 5 implies count_onto(#[trigger] parts[k], from, to) == (if (k == 0
        && to == from + f) || (k == 1 && to == from + left_diag(side)) || (k == 2 && to == from
        + right_diag(side)) {
        4nat
    } else {
        0nat
    }) by {
        let ms = parts[k];
        if (k == 0 && to == from + f) || (k == 1 && to == from + left_diag(side)) || (k == 2 && to
            == from + right_diag(side)) {
            assert(ms.len() == 4);
            lemma_count_all(ms, from, to);
        } else {
            lemma_count_none(ms, from, to);
        }
    }
    assert(parts[0] == fw && parts[1] == cl && parts[2] == cr && parts[3] == el && parts[4] == er);
    lemma_count_concat(cl, cr, from, to);
    lemma_count_concat(el, er, from, to);
    lemma_count_concat(fw, caps, from, to);
    lemma_count_concat(fw + caps, eps, from, to);
}

proof fn lemma_pawn_flat_count(g: Seq<u8>, from: int, to: int, side: u8, ep: u8, n: int)
    requires
        grid_ok(g),
        on_board(from),
        is_side(side),
        rank_of(from) == promo_rank(side),
        promotion_target(g, from, to, side),
        0 <= n <= squares_upto(g, own(side, WP, BP), 120).len(),
    ensures
        count_onto(
            flat_moves(
                squares_upto(g, own(side, WP, BP), 120),
                n,
                piece_fn(g, side, ep, own(side, WP, BP)),
            ),
            from,
            to,
        ) == if exists|i: int| 0 <= i < n && #[trigger] squares_upto(g, own(side, WP, BP), 120)[i]
            as int == from {
            4nat
        } else {
            0nat
        },
    decreases n,
{
    let p = own(side, WP, BP);
    let l = squares_upto(g, p, 120);
    if n > 0 {
        let f = piece_fn(g, side, ep, p);
        lemma_pawn_flat_count(g, from, to, side, ep, n - 1);
        lemma_squares_hold(g, p, 120);
        lemma_squares_increasing(g, p, 120);
        let s = l[n - 1] as int;
        assert(f(s) == pawn_moves(g, s, side, ep));
        lemma_count_concat(flat_moves(l, n - 1, f), f(s), from, to);
        if s == from {
            lemma_pawn_count(g, from, to, side, ep);
            assert(!exists|i: int| 0 <= i < n - 1 && #[trigger] l[i] as int == from);
            assert(exists|i: int| 0 <= i < n && #[trigger] l[i] as int == from);
        } else {
            lemma_pawn_from(g, s, side, ep);
            lemma_count_other_square(f(s), s, from, to);
            if exists|i: int| 0 <= i < n && #[trigger] l[i] as int == from {
                let i = choose|i: int| 0 <= i < n && #[trigger] l[i] as int == from;
                assert(i < n - 1);
            }
        }
    }
}

proof fn lemma_other_count(g: Seq<u8>, side: u8, ep: u8, p: u8, from: int, to: int)
    requires
        g.len() == 120,
        is_piece(p),
        g[from] != p,
    ensures
        count_onto(moves_of_piece(g, side, ep, p), from, to) == 0,
{
    lemma_piece_from(g, side, ep, p);
    lemma_count_none(moves_of_piece(g, side, ep, p), from, to);
}

/// Among the generated moves, exactly four go from a pawn one step from
/// the far rank to a square it reaches: its four promotions.
pub proof fn lemma_generated_promotion_count(g: Seq<u8>, side: u8, ep: u8, castle: u8, from: int, to: int)
    requires
        grid_ok(g),
        is_side(side),
        on_board(from),
        g[from] == own(side, WP, BP),
        rank_of(from) == promo_rank(side),
        promotion_target(g, from, to, side),
    ensures
        count_onto(generated_moves(g, side, ep, castle), from, to) == 4,
{
    let pw = own(side, WP, BP);
    let mp = moves_of_piece(g, side, ep, pw);
    let mn = moves_of_piece(g, side, ep, own(side, WN, BN));
    let mk = moves_of_piece(g, side, ep, own(side, WK, BK));
    let mb = moves_of_piece(g, side, ep, own(side, WB, BB));
    let mr = moves_of_piece(g, side, ep, own(side, WR, BR));
    let mq = moves_of_piece(g, side, ep, own(side, WQ, BQ));
    let mc = castle_moves(g, side, castle);
    let l = squares_upto(g, pw, 120);
    lemma_squares_member(g, pw, 120, from);
    let i = choose|i: int| 0 <= i < l.len() && #[trigger] l[i] as int == from;
    lemma_pawn_flat_count(g, from, to, side, ep, l.len() as int);
    lemma_other_count(g, side, ep, own(side, WN, BN), from, to);
    lemma_other_count(g, side, ep, own(side, WK, BK), from, to);
    lemma_other_count(g, side, ep, own(side, WB, BB), from, to);
    lemma_other_count(g, side, ep, own(side, WR, BR), from, to);
    lemma_other_count(g, side, ep, own(side, WQ, BQ), from, to);
    lemma_castles_only(g, side, castle, from, to, g[to]);
    assert forall|j: int| 0 <= j < mc.len() implies !((#[trigger] mc[j]).from as int == from && mc[j].to as int == to) by {
        if mc[j].from as int == from && mc[j].to as int == to {
            assert(is_promotion(mc[j], from, to, g[to], side));
        }
    }
    lemma_count_none(mc, from, to);
    lemma_count_concat(mp, mn, from, to);
    lemma_count_concat(mp + mn, mk, from, to);
    lemma_count_concat(mp + mn + mk, mb, from, to);
    lemma_count_concat(mp + mn + mk + mb, mr, from, to);
    lemma_count_concat(mp + mn + mk + mb + mr, mq, from, to);
    lemma_count_concat(mp + mn + mk + mb + mr + mq, mc, from, to);
}

} // verus!
