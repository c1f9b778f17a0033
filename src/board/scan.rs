//! The attack query agrees with the captures that move generation finds.
use vstd::prelude::*;
use crate::types::{
    Move, MoveKind, EMPTY, OFFBOARD, WHITE, WP, WN, WB, WR, WQ, WK, BP, BN, BB, BR, BQ, BK, on_board,
    is_piece, colour_of, is_side, is_knight, is_king,
};
use crate::board::{grid_ok, squares_upto, piece_squares};
use crate::board::attack::{
    attacked, first_on_ray, pawn_attack, knight_attack, king_attack, rook_attack, bishop_attack, knight_dir,
    king_dir, rook_dir, bishop_dir, };
use crate::board::movegen::{
    opponent, ray_moves, slider_moves_upto, slider_dir, jump_moves_upto, jump_dir, target_moves,
    pawn_moves, pawn_forward_moves, pawn_capture_at, pawn_ep_at, pawn_step_moves, left_diag,
    right_diag, forward, flat_moves, mv, pawn_capture_moves, pawn_ep_moves, moves_of_piece,
    piece_moves, piece_fn, own, jump_moves, slider_moves, slider_dir_count, generated_moves,
    castle_moves, castle_one,
};

verus! {

/// `n` steps of `d` from `a`.
pub open spec fn offset(a: int, d: int, n: nat) -> int
    decreases n,
{
    if n == 0 {
        a
    } else {
        offset(a, d, (n - 1) as nat) + d
    }
}

/// The `n` cells `a`, `a + d`, ... are empty.
pub open spec fn clear_path(g: Seq<u8>, a: int, d: int, n: nat) -> bool
    decreases n,
{
    if n == 0 {
        true
    } else {
        0 <= a < 120 && g[a] == EMPTY && clear_path(g, a + d, d, (n - 1) as nat)
    }
}

/// Where a walk from `t` in steps of `dir` stops: the first cell that is
/// not empty, or -1 when the walk leaves the grid.
pub open spec fn ray_end(g: Seq<u8>, t: int, dir: int) -> int
    decreases (if dir > 0 { 120 - t } else { t + 1 }),
{
    if t < 0 || t >= 120 || dir == 0 {
        -1
    } else if g[t] != EMPTY {
        t
    } else if t + dir < 0 || t + dir >= 120 {
        -1
    } else {
        ray_end(g, t + dir, dir)
    }
}

pub open spec fn ray_step(d: int) -> bool {
    d == -1 || d == 1 || d == -10 || d == 10 || d == -9 || d == 9 || d == -11 || d == 11
}

proof fn lemma_offset(a: int, d: int, n: nat)
    ensures
        offset(a, d, n) == a + n * d,
    decreases n,
{
    if n > 0 {
        let m = (n - 1) as nat;
        lemma_offset(a, d, m);
        assert(a + m * d + d == a + n * d) by (nonlinear_arith)
            requires
                m == n - 1,
        ;
        assert(offset(a, d, n) == offset(a, d, m) + d);
    } else {
        assert(n * d == 0) by (nonlinear_arith)
            requires
                n == 0,
        ;
    }
}

proof fn lemma_first_on_ray_end(g: Seq<u8>, t: int, d: int)
    ensures
        first_on_ray(g, t, d) == (if ray_end(g, t, d) >= 0 { g[ray_end(g, t, d)] } else { OFFBOARD }),
        ray_end(g, t, d) >= 0 ==> 0 <= ray_end(g, t, d) < 120 && g[ray_end(g, t, d)] != EMPTY,
    decreases (if d > 0 { 120 - t } else { t + 1 }),
{
    if !(t < 0 || t >= 120 || d == 0) && g[t] == EMPTY && !(t + d < 0 || t + d >= 120) {
        lemma_first_on_ray_end(g, t + d, d);
    }
}

/// A walk stops at `ray_end` after a clear path.
proof fn lemma_ray_end_path(g: Seq<u8>, a: int, d: int) -> (n: nat)
    requires
        ray_end(g, a, d) >= 0,
    ensures
        clear_path(g, a, d, n),
        ray_end(g, a, d) == offset(a, d, n),
    decreases (if d > 0 { 120 - a } else { a + 1 }),
{
    if g[a] != EMPTY {
        0
    } else {
        let m = lemma_ray_end_path(g, a + d, d);
        lemma_offset(a + d, d, m);
        lemma_offset(a, d, m + 1);
        assert(a + d + m * d == a + (m + 1) * d) by (nonlinear_arith);
        m + 1
    }
}

/// A clear path ending at an occupied cell is where the walk stops.
proof fn lemma_path_ray_end(g: Seq<u8>, a: int, d: int, n: nat)
    requires
        grid_ok(g),
        ray_step(d),
        clear_path(g, a, d, n),
        0 <= offset(a, d, n) < 120,
        g[offset(a, d, n)] != EMPTY,
    ensures
        ray_end(g, a, d) == offset(a, d, n),
    decreases n,
{
    if n > 0 {
        lemma_offset(a + d, d, (n - 1) as nat);
        lemma_offset(a, d, n);
        assert(a + d + (n - 1) * d == a + n * d) by (nonlinear_arith);
        assert(on_board(a));
        lemma_path_ray_end(g, a + d, d, (n - 1) as nat);
    }
}

/// The last cell of a clear path is empty, and so is the path before it.
proof fn lemma_clear_path_snoc(g: Seq<u8>, a: int, d: int, n: nat)
    ensures
        clear_path(g, a, d, n + 1) == (clear_path(g, a, d, n) && 0 <= offset(a, d, n) < 120
            && g[offset(a, d, n)] == EMPTY),
    decreases n,
{
    lemma_offset(a, d, n);
    if n > 0 {
        let m = (n - 1) as nat;
        lemma_clear_path_snoc(g, a + d, d, m);
        lemma_offset(a + d, d, m);
        assert(a + d + m * d == a + n * d) by (nonlinear_arith)
            requires
                m == n - 1,
        ;
        assert(clear_path(g, a, d, n + 1) == (0 <= a < 120 && g[a] == EMPTY && clear_path(g, a + d, d, n)));
        assert(clear_path(g, a, d, n) == (0 <= a < 120 && g[a] == EMPTY && clear_path(g, a + d, d, m)));
    } else {
        assert(clear_path(g, a, d, 1) == (0 <= a < 120 && g[a] == EMPTY && clear_path(g, a + d, d, 0)));
        assert(offset(a, d, 0) == a);
    }
}

/// A clear path walked backwards is clear.
proof fn lemma_clear_path_reverse(g: Seq<u8>, a: int, d: int, n: nat)
    requires
        clear_path(g, a, d, n),
    ensures
        clear_path(g, offset(a, d, n) - d, -d, n),
    decreases n,
{
    if n > 0 {
        let c = offset(a, d, n) - d;
        lemma_clear_path_reverse(g, a + d, d, (n - 1) as nat);
        lemma_offset(a + d, d, (n - 1) as nat);
        lemma_offset(a, d, n);
        lemma_offset(c, -d, (n - 1) as nat);
        assert(a + d + (n - 1) * d == a + n * d) by (nonlinear_arith);
        assert(c + (n - 1) * (-d) == a) by (nonlinear_arith)
            requires
                c == a + n * d - d,
        ;
        lemma_clear_path_snoc(g, c, -d, (n - 1) as nat);
    }
}

/// A walk from `s` in steps of `d` stops at `t` exactly when a walk from
/// `t` in steps of `-d` stops at `s`, both cells being occupied.
pub proof fn lemma_ray_symmetry(g: Seq<u8>, s: int, t: int, d: int)
    requires
        grid_ok(g),
        ray_step(d),
        on_board(s),
        on_board(t),
        g[s] != EMPTY,
        g[t] != EMPTY,
        ray_end(g, s + d, d) == t,
    ensures
        ray_end(g, t - d, -d) == s,
{
    let n = lemma_ray_end_path(g, s + d, d);
    lemma_clear_path_reverse(g, s + d, d, n);
    lemma_offset(s + d, d, n);
    lemma_offset(t - d, -d, n);
    assert(t - d + n * (-d) == s) by (nonlinear_arith)
        requires
            t == s + d + n * d,
    ;
    lemma_path_ray_end(g, t - d, -d, n);
}

/// Some move of `ms` captures on `t`.
pub open spec fn captures_onto(ms: Seq<Move>, t: int) -> bool {
    exists|i: int| 0 <= i < ms.len() && (#[trigger] ms[i]).to as int == t && ms[i].capture != EMPTY
}

proof fn lemma_captures_concat(a: Seq<Move>, b: Seq<Move>, t: int)
    ensures
        captures_onto(a + b, t) == (captures_onto(a, t) || captures_onto(b, t)),
{
    if captures_onto(a + b, t) {
        let i = choose|i: int| 0 <= i < (a + b).len() && (#[trigger] (a + b)[i]).to as int == t
            && (a + b)[i].capture != EMPTY;
        if i < a.len() {
            assert(a[i] == (a + b)[i]);
        } else {
            assert(b[i - a.len()] == (a + b)[i]);
        }
    }
    if captures_onto(a, t) {
        let i = choose|i: int| 0 <= i < a.len() && (#[trigger] a[i]).to as int == t && a[i].capture
            != EMPTY;
        assert((a + b)[i] == a[i]);
    }
    if captures_onto(b, t) {
        let i = choose|i: int| 0 <= i < b.len() && (#[trigger] b[i]).to as int == t && b[i].capture
            != EMPTY;
        assert((a + b)[a.len() + i] == b[i]);
    }
}

/// Every move of `ms` goes to `to` and captures `cap`.
pub open spec fn all_onto(ms: Seq<Move>, to: int, cap: u8) -> bool {
    ms.len() > 0 && forall|i: int| 0 <= i < ms.len() ==> (#[trigger] ms[i]).to as int == to
        && ms[i].capture == cap
}

proof fn lemma_all_onto(ms: Seq<Move>, to: int, cap: u8, t: int)
    requires
        all_onto(ms, to, cap),
    ensures
        captures_onto(ms, t) == (to == t && cap != EMPTY),
{
    if to == t && cap != EMPTY {
        assert(ms[0].to as int == t);
    }
}

proof fn lemma_ray_moves_capture(g: Seq<u8>, from: int, a: int, d: int, side: u8, t: int)
    requires
        grid_ok(g),
        ray_step(d),
        0 <= t < 120,
    ensures
        captures_onto(ray_moves(g, from, a, d, side), t) == (ray_end(g, a, d) == t && colour_of(
            g[t],
        ) == opponent(side)),
    decreases (if d > 0 { 120 - a } else { a + 1 }),
{
    let rm = ray_moves(g, from, a, d, side);
    if a < 0 || a >= 120 || d == 0 || g[a] == OFFBOARD {
        assert(rm.len() == 0);
    } else if g[a] != EMPTY {
        if colour_of(g[a]) == opponent(side) {
            lemma_all_onto(rm, a, g[a], t);
        } else {
            assert(rm.len() == 0);
        }
    } else if a + d < 0 || a + d >= 120 {
        lemma_all_onto(rm, a, EMPTY, t);
    } else {
        let q = seq![mv(from, a, EMPTY, EMPTY, MoveKind::Normal)];
        lemma_all_onto(q, a, EMPTY, t);
        lemma_captures_concat(q, ray_moves(g, from, a + d, d, side), t);
        lemma_ray_moves_capture(g, from, a + d, d, side, t);
    }
}

/// The ray of slider direction `j` from `s` stops at `t`.
pub open spec fn ray_hits(g: Seq<u8>, s: int, kind: int, j: int, t: int) -> bool {
    ray_end(g, s + slider_dir(kind, j), slider_dir(kind, j)) == t
}

/// Jump `j` from `s` lands on `t`.
pub open spec fn jump_hits(s: int, knight: bool, j: int, t: int) -> bool {
    s + jump_dir(knight, j) == t
}

proof fn lemma_slider_capture(g: Seq<u8>, s: int, side: u8, kind: int, k: int, t: int)
    requires
        grid_ok(g),
        0 <= kind <= 2,
        0 <= k <= 8,
        0 <= t < 120,
    ensures
        captures_onto(slider_moves_upto(g, s, side, kind, k), t) == ((exists|j: int|
            0 <= j < k && #[trigger] ray_hits(g, s, kind, j, t)) && colour_of(g[t]) == opponent(
            side,
        )),
    decreases k,
{
    if k > 0 {
        lemma_slider_capture(g, s, side, kind, k - 1, t);
        let d = slider_dir(kind, k - 1);
        assert(ray_step(d));
        lemma_ray_moves_capture(g, s, s + d, d, side, t);
        lemma_captures_concat(
            slider_moves_upto(g, s, side, kind, k - 1),
            ray_moves(g, s, s + d, d, side),
            t,
        );
        if exists|j: int| 0 <= j < k && #[trigger] ray_hits(g, s, kind, j, t) {
            let j = choose|j: int| 0 <= j < k && #[trigger] ray_hits(g, s, kind, j, t);
            if j < k - 1 {
                assert(exists|j: int| 0 <= j < k - 1 && #[trigger] ray_hits(g, s, kind, j, t));
            }
        }
        if ray_hits(g, s, kind, k - 1, t) {
            assert(exists|j: int| 0 <= j < k && #[trigger] ray_hits(g, s, kind, j, t));
        }
    }
}

proof fn lemma_jump_capture(g: Seq<u8>, s: int, side: u8, knight: bool, k: int, t: int)
    requires
        grid_ok(g),
        on_board(s),
        0 <= k <= 8,
        0 <= t < 120,
    ensures
        captures_onto(jump_moves_upto(g, s, side, knight, k), t) == ((exists|j: int|
            0 <= j < k && #[trigger] jump_hits(s, knight, j, t)) && colour_of(g[t]) == opponent(
            side,
        )),
    decreases k,
{
    if k > 0 {
        lemma_jump_capture(g, s, side, knight, k - 1, t);
        let to = s + jump_dir(knight, k - 1);
        let tm = target_moves(g, s, to, side);
        if g[to] == OFFBOARD {
            assert(tm.len() == 0);
        } else if g[to] == EMPTY {
            lemma_all_onto(tm, to, EMPTY, t);
        } else if colour_of(g[to]) == opponent(side) {
            lemma_all_onto(tm, to, g[to], t);
        } else {
            assert(tm.len() == 0);
        }
        lemma_captures_concat(jump_moves_upto(g, s, side, knight, k - 1), tm, t);
        if exists|j: int| 0 <= j < k && #[trigger] jump_hits(s, knight, j, t) {
            let j = choose|j: int| 0 <= j < k && #[trigger] jump_hits(s, knight, j, t);
            if j < k - 1 {
                assert(exists|j: int| 0 <= j < k - 1 && #[trigger] jump_hits(s, knight, j, t));
            }
        }
        if jump_hits(s, knight, k - 1, t) {
            assert(exists|j: int| 0 <= j < k && #[trigger] jump_hits(s, knight, j, t));
        }
    }
}

proof fn lemma_pawn_step_onto(from: int, to: int, cap: u8, side: u8)
    ensures
        all_onto(pawn_step_moves(from, to, cap, side), to, cap) || !(0 <= to < 256),
{
}

proof fn lemma_pawn_capture(g: Seq<u8>, s: int, side: u8, ep: u8, t: int)
    requires
        grid_ok(g),
        on_board(s),
        is_side(side),
        0 <= t < 120,
    ensures
        captures_onto(pawn_moves(g, s, side, ep), t) == ((t == s + left_diag(side) || t == s
            + right_diag(side)) && colour_of(g[t]) == opponent(side)),
{
    let f = forward(side);
    let fw = pawn_forward_moves(g, s, side);
    if g[s + f] == EMPTY {
        lemma_pawn_step_onto(s, s + f, EMPTY, side);
        lemma_all_onto(pawn_step_moves(s, s + f, EMPTY, side), s + f, EMPTY, t);
        let tail = if crate::types::rank_of(s) == crate::board::movegen::start_rank(side) && g[s + f + f] == EMPTY {
            seq![mv(s, s + f + f, EMPTY, EMPTY, MoveKind::PawnStart)]
        } else {
            Seq::empty()
        };
        if tail.len() > 0 {
            lemma_all_onto(tail, s + f + f, EMPTY, t);
        }
        lemma_captures_concat(pawn_step_moves(s, s + f, EMPTY, side), tail, t);
    }
    assert(!captures_onto(fw, t));
    let l = s + left_diag(side);
    let r = s + right_diag(side);
    let cl = pawn_capture_at(g, s, l, side);
    let cr = pawn_capture_at(g, s, r, side);
    if is_piece(g[l]) && colour_of(g[l]) == opponent(side) {
        lemma_pawn_step_onto(s, l, g[l], side);
        lemma_all_onto(cl, l, g[l], t);
    }
    if is_piece(g[r]) && colour_of(g[r]) == opponent(side) {
        lemma_pawn_step_onto(s, r, g[r], side);
        lemma_all_onto(cr, r, g[r], t);
    }
    lemma_captures_concat(cl, cr, t);
    let el = pawn_ep_at(g, s, l, ep);
    let er = pawn_ep_at(g, s, r, ep);
    if el.len() > 0 {
        lemma_all_onto(el, l, EMPTY, t);
    }
    if er.len() > 0 {
        lemma_all_onto(er, r, EMPTY, t);
    }
    lemma_captures_concat(el, er, t);
    lemma_captures_concat(fw, pawn_capture_moves(g, s, side), t);
    lemma_captures_concat(fw + pawn_capture_moves(g, s, side), pawn_ep_moves(g, s, side, ep), t);
}

proof fn lemma_flat_capture(l: Seq<u8>, n: int, f: spec_fn(int) -> Seq<Move>, t: int)
    requires
        0 <= n <= l.len(),
    ensures
        captures_onto(flat_moves(l, n, f), t) == exists|i: int|
            0 <= i < n && captures_onto(#[trigger] f(l[i] as int), t),
    decreases n,
{
    if n > 0 {
        lemma_flat_capture(l, n - 1, f, t);
        lemma_captures_concat(flat_moves(l, n - 1, f), f(l[n - 1] as int), t);
        if exists|i: int| 0 <= i < n && captures_onto(#[trigger] f(l[i] as int), t) {
            let i = choose|i: int| 0 <= i < n && captures_onto(#[trigger] f(l[i] as int), t);
            if i < n - 1 {
                assert(exists|i: int| 0 <= i < n - 1 && captures_onto(#[trigger] f(l[i] as int), t));
            }
        }
    }
}

/// Square `s` is among the squares of `l`.
pub open spec fn listed(l: Seq<u8>, s: int) -> bool {
    exists|i: int| 0 <= i < l.len() && #[trigger] l[i] as int == s
}

pub proof fn lemma_squares_member(g: Seq<u8>, p: u8, n: int, s: int)
    requires
        0 <= n <= 120,
        g.len() == 120,
    ensures
        listed(squares_upto(g, p, n), s) == (0 <= s < n && g[s] == p),
    decreases n,
{
    if n > 0 {
        lemma_squares_member(g, p, n - 1, s);
        let prev = squares_upto(g, p, n - 1);
        if g[n - 1] == p {
            let cur = prev.push((n - 1) as u8);
            assert(squares_upto(g, p, n) == cur);
            assert(cur[prev.len() as int] as int == n - 1);
            if listed(cur, s) {
                let i = choose|i: int| 0 <= i < cur.len() && #[trigger] cur[i] as int == s;
                if i < prev.len() {
                    assert(cur[i] == prev[i]);
                    assert(listed(prev, s));
                }
            }
            if 0 <= s < n && g[s] == p {
                if s == n - 1 {
                    assert(listed(cur, s));
                } else {
                    assert(listed(prev, s));
                    let i = choose|i: int| 0 <= i < prev.len() && #[trigger] prev[i] as int == s;
                    assert(cur[i] == prev[i]);
                    assert(listed(cur, s));
                }
            }
        } else {
            assert(squares_upto(g, p, n) == prev);
        }
    } else {
        assert(squares_upto(g, p, 0).len() == 0);
    }
}

/// Piece `p` on `s` has a capture onto `t`.
pub open spec fn piece_captures(g: Seq<u8>, s: int, side: u8, ep: u8, p: u8, t: int) -> bool {
    captures_onto(piece_moves(g, s, side, ep, p), t)
}

proof fn lemma_moves_of_piece_capture(g: Seq<u8>, side: u8, ep: u8, p: u8, t: int)
    requires
        grid_ok(g),
        is_piece(p),
    ensures
        captures_onto(moves_of_piece(g, side, ep, p), t) == exists|s: int|
            0 <= s < 120 && g[s] == p && #[trigger] piece_captures(g, s, side, ep, p, t),
{
    let l = piece_squares(g, p);
    let f = piece_fn(g, side, ep, p);
    lemma_flat_capture(l, l.len() as int, f, t);
    if captures_onto(moves_of_piece(g, side, ep, p), t) {
        let i = choose|i: int| 0 <= i < l.len() && captures_onto(#[trigger] f(l[i] as int), t);
        let s = l[i] as int;
        lemma_squares_member(g, p, 120, s);
        assert(listed(l, s));
        assert(piece_captures(g, s, side, ep, p, t));
    }
    if exists|s: int| 0 <= s < 120 && g[s] == p && #[trigger] piece_captures(g, s, side, ep, p, t) {
        let s = choose|s: int| 0 <= s < 120 && g[s] == p && #[trigger] piece_captures(g, s, side, ep, p, t);
        lemma_squares_member(g, p, 120, s);
        let i = choose|i: int| 0 <= i < l.len() && #[trigger] l[i] as int == s;
        assert(captures_onto(f(l[i] as int), t));
    }
}

/// A cell holding a piece lies on the board.
proof fn lemma_piece_on_board(g: Seq<u8>, s: int)
    requires
        grid_ok(g),
        0 <= s < 120,
        is_piece(g[s]),
    ensures
        on_board(s),
{
}

/// The target square of the attack question: on the board, holding a piece
/// of the side that is not attacking.
pub open spec fn target_ok(g: Seq<u8>, t: int, side: u8) -> bool {
    &&& grid_ok(g)
    &&& is_side(side)
    &&& on_board(t)
    &&& colour_of(g[t]) == opponent(side)
}

proof fn lemma_pawn_part(g: Seq<u8>, side: u8, ep: u8, t: int)
    requires
        target_ok(g, t, side),
    ensures
        captures_onto(moves_of_piece(g, side, ep, own(side, WP, BP)), t) == pawn_attack(g, t, side),
{
    let p = own(side, WP, BP);
    lemma_moves_of_piece_capture(g, side, ep, p, t);
    let a = t - left_diag(side);
    let b = t - right_diag(side);
    if captures_onto(moves_of_piece(g, side, ep, p), t) {
        let s = choose|s: int| 0 <= s < 120 && g[s] == p && #[trigger] piece_captures(g, s, side, ep, p, t);
        lemma_piece_on_board(g, s);
        lemma_pawn_capture(g, s, side, ep, t);
        assert(s == a || s == b);
    }
    if pawn_attack(g, t, side) {
        let s = if g[a] == p { a } else { b };
        assert(g[s] == p);
        lemma_piece_on_board(g, s);
        lemma_pawn_capture(g, s, side, ep, t);
        assert(piece_captures(g, s, side, ep, p, t));
    }
}

/// The jump opposite to jump `k`.
pub open spec fn opposite_jump(knight: bool, k: int) -> int {
    if knight {
        (k + 4) % 8
    } else if k == 0 { 2 } else if k == 1 { 3 } else if k == 2 { 0 } else if k == 3 { 1 }
    else if k == 4 { 7 } else if k == 5 { 6 } else if k == 6 { 5 } else { 4 }
}

proof fn lemma_jump_part(g: Seq<u8>, side: u8, ep: u8, t: int, knight: bool)
    requires
        target_ok(g, t, side),
    ensures
        captures_onto(moves_of_piece(g, side, ep, if knight { own(side, WN, BN) } else { own(side, WK, BK) }), t)
            == if knight { knight_attack(g, t, side) } else { king_attack(g, t, side) },
{
    let p = if knight { own(side, WN, BN) } else { own(side, WK, BK) };
    lemma_moves_of_piece_capture(g, side, ep, p, t);
    let lhs = captures_onto(moves_of_piece(g, side, ep, p), t);
    if lhs {
        let s = choose|s: int| 0 <= s < 120 && g[s] == p && #[trigger] piece_captures(g, s, side, ep, p, t);
        lemma_piece_on_board(g, s);
        lemma_jump_capture(g, s, side, knight, 8, t);
        assert(piece_moves(g, s, side, ep, p) == jump_moves(g, s, side, knight));
        let j = choose|j: int| 0 <= j < 8 && #[trigger] jump_hits(s, knight, j, t);
        let k = opposite_jump(knight, j);
        assert(jump_dir(knight, k) == -jump_dir(knight, j));
        if knight {
            assert(t + knight_dir(k) == s);
            assert(is_knight(g[t + knight_dir(k)]));
        } else {
            assert(t + king_dir(k) == s);
            assert(is_king(g[t + king_dir(k)]));
        }
    }
    let rhs = if knight { knight_attack(g, t, side) } else { king_attack(g, t, side) };
    if rhs {
        let k = if knight {
            choose|k: int| 0 <= k < 8 && is_knight(#[trigger] g[t + knight_dir(k)]) && colour_of(g[t + knight_dir(k)]) == side
        } else {
            choose|k: int| 0 <= k < 8 && is_king(#[trigger] g[t + king_dir(k)]) && colour_of(g[t + king_dir(k)]) == side
        };
        let s = t + jump_dir(knight, k);
        let j = opposite_jump(knight, k);
        assert(jump_dir(knight, j) == -jump_dir(knight, k));
        assert(g[s] == p);
        lemma_piece_on_board(g, s);
        lemma_jump_capture(g, s, side, knight, 8, t);
        assert(jump_hits(s, knight, j, t));
        assert(piece_moves(g, s, side, ep, p) == jump_moves(g, s, side, knight));
        assert(piece_captures(g, s, side, ep, p, t));
    }
}

/// Some piece `x` sends its ray in king direction `i` onto `t` first.
pub open spec fn ray_from_piece(g: Seq<u8>, x: u8, i: int, t: int) -> bool {
    exists|s: int| 0 <= s < 120 && g[s] == x && #[trigger] ray_end(g, s + king_dir(i), king_dir(i)) == t
}

/// What a walk from `t` in king direction `i` meets first.
pub open spec fn occupant(g: Seq<u8>, t: int, i: int) -> u8 {
    first_on_ray(g, t + king_dir(i), king_dir(i))
}

proof fn lemma_ray_from_piece(g: Seq<u8>, x: u8, i: int, t: int)
    requires
        grid_ok(g),
        on_board(t),
        is_piece(g[t]),
        is_piece(x),
        0 <= i < 8,
    ensures
        ray_from_piece(g, x, i, t) == (occupant(g, t, opposite_jump(false, i)) == x),
{
    let d = king_dir(i);
    let o = opposite_jump(false, i);
    assert(king_dir(o) == -d);
    assert(ray_step(d));
    lemma_first_on_ray_end(g, t - d, -d);
    let e = ray_end(g, t - d, -d);
    if ray_from_piece(g, x, i, t) {
        let s = choose|s: int| 0 <= s < 120 && g[s] == x && #[trigger] ray_end(g, s + king_dir(i), king_dir(i)) == t;
        lemma_piece_on_board(g, s);
        lemma_ray_symmetry(g, s, t, d);
    }
    if occupant(g, t, o) == x {
        assert(e >= 0);
        lemma_piece_on_board(g, e);
        assert(ray_end(g, t + (-d), -d) == e);
        lemma_ray_symmetry(g, t, e, -d);
        assert(ray_end(g, e + d, d) == t);
    }
}

/// The king-direction index of slider direction `j` of `kind`.
pub open spec fn slider_index(kind: int, j: int) -> int {
    if kind == 0 { j + 4 } else { j }
}

proof fn lemma_slider_side(g: Seq<u8>, side: u8, ep: u8, x: u8, kind: int, t: int)
    requires
        grid_ok(g),
        is_piece(x),
        0 <= kind <= 2,
        x == WB || x == BB ==> kind == 0,
        x == WR || x == BR ==> kind == 1,
        x == WQ || x == BQ ==> kind == 2,
        (x == WB || x == BB || x == WR || x == BR || x == WQ || x == BQ),
        on_board(t),
        colour_of(g[t]) == opponent(side),
    ensures
        captures_onto(moves_of_piece(g, side, ep, x), t) == exists|j: int|
            0 <= j < slider_dir_count(kind) && #[trigger] ray_from_piece(g, x, slider_index(kind, j), t),
{
    lemma_moves_of_piece_capture(g, side, ep, x, t);
    let n = slider_dir_count(kind);
    if captures_onto(moves_of_piece(g, side, ep, x), t) {
        let s = choose|s: int| 0 <= s < 120 && g[s] == x && #[trigger] piece_captures(g, s, side, ep, x, t);
        assert(piece_moves(g, s, side, ep, x) == slider_moves(g, s, side, kind));
        lemma_slider_capture(g, s, side, kind, n, t);
        let j = choose|j: int| 0 <= j < n && #[trigger] ray_hits(g, s, kind, j, t);
        assert(slider_dir(kind, j) == king_dir(slider_index(kind, j)));
        assert(ray_from_piece(g, x, slider_index(kind, j), t));
    }
    if exists|j: int| 0 <= j < n && #[trigger] ray_from_piece(g, x, slider_index(kind, j), t) {
        let j = choose|j: int| 0 <= j < n && #[trigger] ray_from_piece(g, x, slider_index(kind, j), t);
        let i = slider_index(kind, j);
        let s = choose|s: int| 0 <= s < 120 && g[s] == x && #[trigger] ray_end(g, s + king_dir(i), king_dir(i)) == t;
        assert(slider_dir(kind, j) == king_dir(i));
        assert(ray_hits(g, s, kind, j, t));
        lemma_slider_capture(g, s, side, kind, n, t);
        assert(piece_moves(g, s, side, ep, x) == slider_moves(g, s, side, kind));
        assert(piece_captures(g, s, side, ep, x, t));
    }
}

proof fn lemma_slider_part(g: Seq<u8>, side: u8, ep: u8, t: int)
    requires
        target_ok(g, t, side),
    ensures
        (captures_onto(moves_of_piece(g, side, ep, own(side, WB, BB)), t) || captures_onto(
            moves_of_piece(g, side, ep, own(side, WR, BR)),
            t,
        ) || captures_onto(moves_of_piece(g, side, ep, own(side, WQ, BQ)), t)) == (rook_attack(
            g,
            t,
            side,
        ) || bishop_attack(g, t, side)),
{
    let b = own(side, WB, BB);
    let r = own(side, WR, BR);
    let q = own(side, WQ, BQ);
    lemma_slider_side(g, side, ep, b, 0, t);
    lemma_slider_side(g, side, ep, r, 1, t);
    lemma_slider_side(g, side, ep, q, 2, t);
    assert forall|i: int| 0 <= i < 8 implies #[trigger] ray_from_piece(g, b, i, t) == (occupant(
        g,
        t,
        opposite_jump(false, i),
    ) == b) by {
        lemma_ray_from_piece(g, b, i, t);
    }
    assert forall|i: int| 0 <= i < 8 implies #[trigger] ray_from_piece(g, r, i, t) == (occupant(
        g,
        t,
        opposite_jump(false, i),
    ) == r) by {
        lemma_ray_from_piece(g, r, i, t);
    }
    assert forall|i: int| 0 <= i < 8 implies #[trigger] ray_from_piece(g, q, i, t) == (occupant(
        g,
        t,
        opposite_jump(false, i),
    ) == q) by {
        lemma_ray_from_piece(g, q, i, t);
    }
    let cb = captures_onto(moves_of_piece(g, side, ep, b), t);
    let cr = captures_onto(moves_of_piece(g, side, ep, r), t);
    let cq = captures_onto(moves_of_piece(g, side, ep, q), t);
    if cb {
        let j = choose|j: int| 0 <= j < 4 && #[trigger] ray_from_piece(g, b, slider_index(0, j), t);
        let k = opposite_jump(false, j + 4) - 4;
        assert(0 <= k < 4);
        assert(occupant(g, t, k + 4) == first_on_ray(g, t + bishop_dir(k), bishop_dir(k)));
        assert(bishop_attack(g, t, side));
    }
    if cr {
        let j = choose|j: int| 0 <= j < 4 && #[trigger] ray_from_piece(g, r, slider_index(1, j), t);
        let k = opposite_jump(false, j);
        assert(0 <= k < 4);
        assert(occupant(g, t, k) == first_on_ray(g, t + rook_dir(k), rook_dir(k)));
        assert(rook_attack(g, t, side));
    }
    if cq {
        let j = choose|j: int| 0 <= j < 8 && #[trigger] ray_from_piece(g, q, slider_index(2, j), t);
        let k = opposite_jump(false, j);
        if k < 4 {
            assert(occupant(g, t, k) == first_on_ray(g, t + rook_dir(k), rook_dir(k)));
            assert(rook_attack(g, t, side));
        } else {
            assert(occupant(g, t, k) == first_on_ray(g, t + bishop_dir(k - 4), bishop_dir(k - 4)));
            assert(bishop_attack(g, t, side));
        }
    }
    if rook_attack(g, t, side) {
        let k = choose|k: int|
            0 <= k < 4 && crate::types::is_rook_or_queen(
                #[trigger] first_on_ray(g, t + rook_dir(k), rook_dir(k)),
            ) && colour_of(first_on_ray(g, t + rook_dir(k), rook_dir(k))) == side;
        let j = opposite_jump(false, k);
        assert(opposite_jump(false, j) == k);
        assert(occupant(g, t, k) == first_on_ray(g, t + rook_dir(k), rook_dir(k)));
        if occupant(g, t, k) == r {
            assert(ray_from_piece(g, r, slider_index(1, j), t));
        } else {
            assert(occupant(g, t, k) == q);
            assert(ray_from_piece(g, q, slider_index(2, j), t));
        }
    }
    if bishop_attack(g, t, side) {
        let k = choose|k: int|
            0 <= k < 4 && crate::types::is_bishop_or_queen(
                #[trigger] first_on_ray(g, t + bishop_dir(k), bishop_dir(k)),
            ) && colour_of(first_on_ray(g, t + bishop_dir(k), bishop_dir(k))) == side;
        let i = opposite_jump(false, k + 4);
        assert(opposite_jump(false, i) == k + 4);
        assert(4 <= i < 8);
        assert(occupant(g, t, k + 4) == first_on_ray(g, t + bishop_dir(k), bishop_dir(k)));
        if occupant(g, t, k + 4) == b {
            assert(ray_from_piece(g, b, slider_index(0, i - 4), t));
        } else {
            assert(occupant(g, t, k + 4) == q);
            assert(ray_from_piece(g, q, slider_index(2, i), t));
        }
    }
}

proof fn lemma_castles_capture_nothing(g: Seq<u8>, side: u8, castle: u8, t: int)
    requires
        is_side(side),
    ensures
        !captures_onto(castle_moves(g, side, castle), t),
{
    let (a, b) = if side == WHITE {
        (
            castle_one(g, castle, crate::board::WKCA, g[26] == EMPTY && g[27] == EMPTY, 25, 26, 27, side),
            castle_one(g, castle, crate::board::WQCA, g[24] == EMPTY && g[23] == EMPTY && g[22] == EMPTY, 25, 24, 23, side),
        )
    } else {
        (
            castle_one(g, castle, crate::board::BKCA, g[96] == EMPTY && g[97] == EMPTY, 95, 96, 97, side),
            castle_one(g, castle, crate::board::BQCA, g[94] == EMPTY && g[93] == EMPTY && g[92] == EMPTY, 95, 94, 93, side),
        )
    };
    assert(castle_moves(g, side, castle) == a + b);
    if a.len() > 0 {
        lemma_all_onto(a, a[0].to as int, EMPTY, t);
    }
    if b.len() > 0 {
        lemma_all_onto(b, b[0].to as int, EMPTY, t);
    }
    lemma_captures_concat(a, b, t);
}

/// For a square holding a piece of the side not attacking, the attack
/// query holds exactly when some pseudo-legal move of the attacking side
/// captures on that square.
pub proof fn lemma_attack_symmetry(g: Seq<u8>, side: u8, ep: u8, castle: u8, t: int)
    requires
        grid_ok(g),
        is_side(side),
        on_board(t),
        colour_of(g[t]) == opponent(side),
    ensures
        attacked(g, t, side) == captures_onto(generated_moves(g, side, ep, castle), t),
{
    let mp = moves_of_piece(g, side, ep, own(side, WP, BP));
    let mn = moves_of_piece(g, side, ep, own(side, WN, BN));
    let mk = moves_of_piece(g, side, ep, own(side, WK, BK));
    let mb = moves_of_piece(g, side, ep, own(side, WB, BB));
    let mr = moves_of_piece(g, side, ep, own(side, WR, BR));
    let mq = moves_of_piece(g, side, ep, own(side, WQ, BQ));
    let mc = castle_moves(g, side, castle);
    lemma_captures_concat(mp, mn, t);
    lemma_captures_concat(mp + mn, mk, t);
    lemma_captures_concat(mp + mn + mk, mb, t);
    lemma_captures_concat(mp + mn + mk + mb, mr, t);
    lemma_captures_concat(mp + mn + mk + mb + mr, mq, t);
    lemma_captures_concat(mp + mn + mk + mb + mr + mq, mc, t);
    lemma_castles_capture_nothing(g, side, castle, t);
    lemma_pawn_part(g, side, ep, t);
    lemma_jump_part(g, side, ep, t, true);
    lemma_jump_part(g, side, ep, t, false);
    lemma_slider_part(g, side, ep, t);
}

/// A walk from `s` in steps of `d` reaches `t` over empty squares only
/// (`t` itself may hold anything).
pub open spec fn slides_to(g: Seq<u8>, s: int, d: int, t: int) -> bool {
    exists|n: nat| clear_path(g, s + d, d, n) && #[trigger] offset(s + d, d, n) == t
}

/// The piece on `s`, of `side`, could capture on `t` by its own rule: a pawn
/// one diagonal step forward, a knight or king by one of its offsets, a
/// bishop, rook or queen along one of its rays with every square strictly
/// between empty.
pub open spec fn reaches(g: Seq<u8>, s: int, t: int, side: u8) -> bool {
    let p = g[s];
    &&& colour_of(p) == side
    &&& if crate::types::is_pawn(p) {
        t == s + left_diag(side) || t == s + right_diag(side)
    } else if is_knight(p) {
        exists|k: int| 0 <= k < 8 && #[trigger] jump_hits(s, true, k, t)
    } else if is_king(p) {
        exists|k: int| 0 <= k < 8 && #[trigger] jump_hits(s, false, k, t)
    } else {
        exists|k: int|
            0 <= k < 8 && (if k < 4 {
                crate::types::is_rook_or_queen(p)
            } else {
                crate::types::is_bishop_or_queen(p)
            }) && #[trigger] slides_to(g, s, king_dir(k), t)
    }
}

/// A slider on `e`, met first by the walk from `t` in king direction `k`,
/// slides back onto `t`.
proof fn lemma_slide_back(g: Seq<u8>, t: int, k: int)
    requires
        grid_ok(g),
        on_board(t),
        0 <= k < 8,
        ray_end(g, t + king_dir(k), king_dir(k)) >= 0,
    ensures
        slides_to(
            g,
            ray_end(g, t + king_dir(k), king_dir(k)),
            king_dir(opposite_jump(false, k)),
            t,
        ),
{
    let d = king_dir(k);
    let e = ray_end(g, t + d, d);
    assert(king_dir(opposite_jump(false, k)) == -d);
    let n = lemma_ray_end_path(g, t + d, d);
    lemma_clear_path_reverse(g, t + d, d, n);
    lemma_offset(t + d, d, n);
    lemma_offset(e + (-d), -d, n);
    assert(e + (-d) + n * (-d) == t) by (nonlinear_arith)
        requires
            e == t + d + n * d,
    ;
    assert(offset(e + (-d), -d, n) == t);
}

/// A slider on `s` sliding onto `t` in king direction `k` is what the walk
/// from `t` in the opposite direction meets first.
proof fn lemma_slide_forth(g: Seq<u8>, s: int, t: int, k: int)
    requires
        grid_ok(g),
        on_board(s),
        is_piece(g[s]),
        0 <= k < 8,
        slides_to(g, s, king_dir(k), t),
    ensures
        occupant(g, t, opposite_jump(false, k)) == g[s],
{
    let d = king_dir(k);
    assert(king_dir(opposite_jump(false, k)) == -d);
    assert(ray_step(d));
    let n = choose|n: nat| clear_path(g, s + d, d, n) && #[trigger] offset(s + d, d, n) == t;
    lemma_clear_path_reverse(g, s + d, d, n);
    lemma_offset(s + d, d, n);
    lemma_offset(t - d, -d, n);
    assert(t - d + n * (-d) == s) by (nonlinear_arith)
        requires
            t == s + d + n * d,
    ;
    lemma_path_ray_end(g, t - d, -d, n);
    lemma_first_on_ray_end(g, t + (-d), -d);
}

/// For any playing square, the attack query holds exactly when some piece
/// of the attacking side could capture there by its own rule.
pub proof fn lemma_attack_geometry(g: Seq<u8>, t: int, side: u8)
    requires
        grid_ok(g),
        is_side(side),
        on_board(t),
    ensures
        attacked(g, t, side) == exists|s: int| 0 <= s < 120 && #[trigger] reaches(g, s, t, side),
{
    if attacked(g, t, side) {
        if pawn_attack(g, t, side) {
            let s = if g[t - left_diag(side)] == own(side, WP, BP) {
                t - left_diag(side)
            } else {
                t - right_diag(side)
            };
            assert(reaches(g, s, t, side));
        } else if knight_attack(g, t, side) {
            let k = choose|k: int| 0 <= k < 8 && is_knight(#[trigger] g[t + knight_dir(k)]) && colour_of(g[t + knight_dir(k)]) == side;
            let s = t + knight_dir(k);
            let j = opposite_jump(true, k);
            assert(jump_dir(true, j) == -jump_dir(true, k));
            assert(jump_hits(s, true, j, t));
            assert(reaches(g, s, t, side));
        } else if king_attack(g, t, side) {
            let k = choose|k: int| 0 <= k < 8 && is_king(#[trigger] g[t + king_dir(k)]) && colour_of(g[t + king_dir(k)]) == side;
            let s = t + king_dir(k);
            let j = opposite_jump(false, k);
            assert(jump_dir(false, j) == -jump_dir(false, k));
            assert(jump_hits(s, false, j, t));
            assert(reaches(g, s, t, side));
        } else if rook_attack(g, t, side) {
            let k = choose|k: int|
                0 <= k < 4 && crate::types::is_rook_or_queen(
                    #[trigger] first_on_ray(g, t + rook_dir(k), rook_dir(k)),
                ) && colour_of(first_on_ray(g, t + rook_dir(k), rook_dir(k))) == side;
            lemma_first_on_ray_end(g, t + king_dir(k), king_dir(k));
            let e = ray_end(g, t + king_dir(k), king_dir(k));
            lemma_slide_back(g, t, k);
            let j = opposite_jump(false, k);
            assert(0 <= j < 4);
            assert(slides_to(g, e, king_dir(j), t));
            assert(reaches(g, e, t, side));
        } else {
            let k = choose|k: int|
                0 <= k < 4 && crate::types::is_bishop_or_queen(
                    #[trigger] first_on_ray(g, t + bishop_dir(k), bishop_dir(k)),
                ) && colour_of(first_on_ray(g, t + bishop_dir(k), bishop_dir(k))) == side;
            lemma_first_on_ray_end(g, t + king_dir(k + 4), king_dir(k + 4));
            let e = ray_end(g, t + king_dir(k + 4), king_dir(k + 4));
            lemma_slide_back(g, t, k + 4);
            let j = opposite_jump(false, k + 4);
            assert(4 <= j < 8);
            assert(slides_to(g, e, king_dir(j), t));
            assert(reaches(g, e, t, side));
        }
    }
    if exists|s: int| 0 <= s < 120 && #[trigger] reaches(g, s, t, side) {
        let s = choose|s: int| 0 <= s < 120 && #[trigger] reaches(g, s, t, side);
        let p = g[s];
        lemma_piece_on_board(g, s);
        if crate::types::is_pawn(p) {
            assert(pawn_attack(g, t, side));
        } else if is_knight(p) {
            let j = choose|j: int| 0 <= j < 8 && #[trigger] jump_hits(s, true, j, t);
            let k = opposite_jump(true, j);
            assert(jump_dir(true, k) == -jump_dir(true, j));
            assert(is_knight(g[t + knight_dir(k)]));
            assert(knight_attack(g, t, side));
        } else if is_king(p) {
            let j = choose|j: int| 0 <= j < 8 && #[trigger] jump_hits(s, false, j, t);
            let k = opposite_jump(false, j);
            assert(jump_dir(false, k) == -jump_dir(false, j));
            assert(is_king(g[t + king_dir(k)]));
            assert(king_attack(g, t, side));
        } else {
            let j = choose|j: int|
                0 <= j < 8 && (if j < 4 {
                    crate::types::is_rook_or_queen(p)
                } else {
                    crate::types::is_bishop_or_queen(p)
                }) && #[trigger] slides_to(g, s, king_dir(j), t);
            lemma_slide_forth(g, s, t, j);
            let k = opposite_jump(false, j);
            if j < 4 {
                assert(occupant(g, t, k) == first_on_ray(g, t + rook_dir(k), rook_dir(k)));
                assert(rook_attack(g, t, side));
            } else {
                assert(occupant(g, t, k) == first_on_ray(g, t + bishop_dir(k - 4), bishop_dir(k - 4)));
                assert(bishop_attack(g, t, side));
            }
        }
    }
}

} // verus!
