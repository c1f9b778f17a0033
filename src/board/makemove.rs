//! Applying a move to the position and taking it back.
use vstd::prelude::*;
use crate::types::{
    Move, MoveKind, colour_of, is_piece, is_side, is_pawn, on_board, rank_of, pawn_of,
    piece_colour, square_on_board, is_king, EMPTY, NO_SQ, WHITE, BLACK, WP, WR, WK, BP, BR, BK,
};
use crate::board::{
    Board, Undo, grid_ok, ep_ok, position_key, kings_present, tally_of, grid_key,
    key_extras, key_extras_of, lemma_key_split, lemma_grid_key_update, lemma_king_squares,
    };
use crate::keys::cell_key_of;
use crate::board::movegen::{
    opponent, forward, start_rank, pawn_step_moves, pawn_forward_moves,
    pawn_capture_at, pawn_ep_at, pawn_moves, left_diag, right_diag, target_moves, jump_moves_upto,
    jump_dir, ray_moves, slider_moves_upto, slider_dir, flat_moves, piece_moves, piece_fn,
    moves_of_piece, generated_moves, own, mv, lemma_squares_hold, pawn_capture_moves,
    pawn_ep_moves,
};
use crate::board::squares_upto;

verus! {

/// Where the rook starts and ends for a castling king move onto `to`.
pub open spec fn rook_from(to: int) -> int {
    if to == 27 { 28 } else if to == 23 { 21 } else if to == 97 { 98 } else { 91 }
}

pub open spec fn rook_to(to: int) -> int {
    if to == 27 { 26 } else if to == 23 { 24 } else if to == 97 { 96 } else { 94 }
}

/// The castling rights that stay when a move touches `sq`.
pub open spec fn castle_mask(sq: int) -> u8 {
    if sq == 21 { 13 } else if sq == 25 { 12 } else if sq == 28 { 14 }
    else if sq == 91 { 7 } else if sq == 95 { 3 } else if sq == 98 { 11 } else { 15 }
}

/// The square a move captures on: behind the destination for en passant.
pub open spec fn capture_square(m: Move, side: u8) -> int {
    if m.kind == MoveKind::EnPassant {
        m.to - forward(side)
    } else {
        m.to as int
    }
}

/// A move that `make_move` can apply and `take_move` take back exactly: it
/// goes from a playing square to another, a move other than castling moves
/// a piece of the side to move, and each special kind finds the squares it
/// needs as it needs them. Castling is a move of the king's square onto its
/// destination and of the rook's corner onto the square crossed, whatever
/// stands there; both destinations are empty.
pub open spec fn move_fits(g: Seq<u8>, side: u8, m: Move) -> bool {
    let from = m.from as int;
    let to = m.to as int;
    &&& on_board(from)
    &&& on_board(to)
    &&& from != to
    &&& (m.kind != MoveKind::Castle ==> is_piece(g[from]) && colour_of(g[from]) == side)
    &&& (m.promotion != EMPTY ==> is_piece(m.promotion) && colour_of(m.promotion) == side
        && g[from] == pawn_of(side) && m.kind == MoveKind::Normal)
    &&& (m.kind == MoveKind::PawnStart ==> g[from] == pawn_of(side) && rank_of(from)
        == start_rank(side) && to == from + 2 * forward(side))
    &&& (m.kind == MoveKind::EnPassant ==> g[from] == pawn_of(side) && g[to] == EMPTY
        && on_board(to - forward(side)) && to - forward(side) != from)
    &&& (m.kind == MoveKind::Castle ==> g[to] == EMPTY && (if side == WHITE {
        from == 25 && (to == 27 || to == 23)
    } else {
        from == 95 && (to == 97 || to == 93)
    }) && g[rook_to(to)] == EMPTY)
}

/// The piece a move takes off the board.
pub open spec fn captured_by(g: Seq<u8>, side: u8, m: Move) -> u8 {
    if m.kind == MoveKind::Castle {
        EMPTY
    } else {
        g[capture_square(m, side)]
    }
}

/// The grid after a move.
pub open spec fn grid_after(g: Seq<u8>, side: u8, m: Move) -> Seq<u8> {
    let from = m.from as int;
    let to = m.to as int;
    let p = g[from];
    if m.kind == MoveKind::Castle {
        g.update(from, EMPTY).update(to, p).update(rook_from(to), EMPTY).update(
            rook_to(to),
            g[rook_from(to)],
        )
    } else if m.kind == MoveKind::EnPassant {
        g.update(capture_square(m, side), EMPTY).update(from, EMPTY).update(to, p)
    } else {
        g.update(from, EMPTY).update(to, if m.promotion != EMPTY { m.promotion } else { p })
    }
}

/// The grid before the move of `rec`, from the grid after it; `side` moved.
pub open spec fn grid_before(g: Seq<u8>, side: u8, rec: Undo) -> Seq<u8> {
    let m = rec.m;
    let from = m.from as int;
    let to = m.to as int;
    let p = if m.promotion != EMPTY { pawn_of(side) } else { g[to] };
    if m.kind == MoveKind::Castle {
        g.update(rook_to(to), EMPTY).update(rook_from(to), g[rook_to(to)]).update(to, EMPTY).update(
            from,
            p,
        )
    } else if m.kind == MoveKind::EnPassant {
        g.update(to, EMPTY).update(from, p).update(capture_square(m, side), rec.captured)
    } else {
        g.update(to, rec.captured).update(from, p)
    }
}

pub open spec fn ep_after(side: u8, m: Move) -> u8 {
    if m.kind == MoveKind::PawnStart {
        (m.from + forward(side)) as u8
    } else {
        NO_SQ
    }
}

pub open spec fn castle_after(castle: u8, m: Move) -> u8 {
    castle & castle_mask(m.from as int) & castle_mask(m.to as int)
}

/// The half-move clock after a move: zero after a pawn move or a capture.
pub open spec fn fifty_after(g: Seq<u8>, side: u8, fifty: u8, m: Move) -> u8 {
    if is_pawn(g[m.from as int]) || captured_by(g, side, m) != EMPTY {
        0
    } else {
        (fifty + 1) as u8
    }
}

/// A history record that `take_move` can restore a well-formed position from;
/// `side` is the side that made the move.
pub open spec fn record_ok(rec: Undo, side: u8) -> bool {
    let m = rec.m;
    let from = m.from as int;
    let to = m.to as int;
    &&& on_board(from)
    &&& on_board(to)
    &&& rec.captured <= BK
    &&& rec.castle_perm < 16
    &&& ep_ok(rec.ep_sq, side)
    &&& rec.fifty_move_counter < 100
    &&& (m.kind == MoveKind::EnPassant ==> on_board(capture_square(m, side)))
    &&& (m.kind == MoveKind::Castle ==> on_board(rook_from(to)) && on_board(rook_to(to)))
    &&& (m.promotion != EMPTY ==> is_side(side))
}

/// The history `h` unwinds from grid `g` with `side` to move: taking the
/// records back one by one, each restores a grid and a key that agree,
/// with both kings present, down to the first.
pub open spec fn unwinds(g: Seq<u8>, side: u8, h: Seq<Undo>) -> bool
    decreases h.len(),
{
    if h.len() == 0 {
        true
    } else {
        let rec = h.last();
        let mover = opponent(side);
        let gb = grid_before(g, mover, rec);
        &&& record_ok(rec, mover)
        &&& kings_present(gb)
        &&& rec.key == position_key(gb, mover, rec.ep_sq, rec.castle_perm)
        &&& unwinds(gb, mover, h.drop_last())
    }
}

/// Every history record can be taken back, to a valid position.
pub open spec fn history_ok(b: Board) -> bool {
    unwinds(b.grid(), b.side_view(), b.history_view())
}

/// A history kept with its grid and side to move can still be taken back.
pub proof fn lemma_history_kept(a: Board, b: Board)
    requires
        history_ok(a),
        a.grid() == b.grid(),
        a.history_view() == b.history_view(),
        a.side_view() == b.side_view(),
    ensures
        history_ok(b),
{
}

/// A move that captures no king leaves both kings on the board.
proof fn lemma_kings_after(g: Seq<u8>, side: u8, m: Move)
    requires
        grid_ok(g),
        grid_ok(grid_after(g, side, m)),
        is_side(side),
        kings_present(g),
        move_fits(g, side, m),
        !is_king(captured_by(g, side, m)),
    ensures
        kings_present(grid_after(g, side, m)),
{
    let ga = grid_after(g, side, m);
    lemma_king_squares(g, 120);
    lemma_king_squares(ga, 120);
    let kw = tally_of(g).king_w as int;
    let kb = tally_of(g).king_b as int;
    let from = m.from as int;
    let to = m.to as int;
    let castle = m.kind == MoveKind::Castle;
    let w = if kw == from { to } else if castle && kw == rook_from(to) { rook_to(to) } else { kw };
    let b = if kb == from { to } else if castle && kb == rook_from(to) { rook_to(to) } else { kb };
    assert(ga[w] == WK);
    assert(ga[b] == BK);
    assert(exists|i: int| 0 <= i < 120 && #[trigger] ga[i] == WK);
    assert(exists|i: int| 0 <= i < 120 && #[trigger] ga[i] == BK);
}

/// The position `after` is `before` with `m` made: the exact effect of `make_move`.
pub open spec fn made_move(before: Board, after: Board, m: Move) -> bool {
    let g = before.grid();
    let side = before.side_view();
    &&& after.wf()
    &&& after.grid() == grid_after(g, side, m)
    &&& after.side_view() == opponent(side)
    &&& after.ep_view() == ep_after(side, m)
    &&& after.castle_view() == castle_after(before.castle_view(), m)
    &&& after.fifty_view() == fifty_after(g, side, before.fifty_view(), m)
    &&& after.ply_view() == before.ply_view() + 1
    &&& after.height_view() == before.height_view() + 1
    &&& after.history_view() == before.history_view().push(
        Undo {
            m,
            captured: captured_by(g, side, m),
            castle_perm: before.castle_view(),
            ep_sq: before.ep_view(),
            fifty_move_counter: before.fifty_view(),
            key: before.key_view(),
        },
    )
    &&& after.history_scores() == before.history_scores()
    &&& after.countermoves() == before.countermoves()
    &&& after.followup_scores() == before.followup_scores()
    &&& after.killers() == before.killers()
}

/// The position `after` is `before` with its last move taken back: the
/// exact effect of `take_move`.
pub open spec fn took_move(before: Board, after: Board) -> bool {
    let rec = before.history_view().last();
    let side = opponent(before.side_view());
    &&& after.wf()
    &&& after.grid() == grid_before(before.grid(), side, rec)
    &&& after.side_view() == side
    &&& after.ep_view() == rec.ep_sq
    &&& after.castle_view() == rec.castle_perm
    &&& after.fifty_view() == rec.fifty_move_counter
    &&& after.ply_view() == before.ply_view() - 1
    &&& after.height_view() == before.height_view() - 1
    &&& after.history_view() == before.history_view().drop_last()
    &&& after.history_scores() == before.history_scores()
    &&& after.countermoves() == before.countermoves()
    &&& after.followup_scores() == before.followup_scores()
    &&& after.killers() == before.killers()
    &&& after.key_view() == rec.key
    &&& after.position_valid()
}

proof fn lemma_grid_update(g: Seq<u8>, i: int, v: u8)
    requires
        grid_ok(g),
        on_board(i),
        v <= BK,
    ensures
        grid_ok(g.update(i, v)),
{
    assert forall|j: int| 0 <= j < 120 && !on_board(j) implies #[trigger] g.update(i, v)[j]
        == crate::types::OFFBOARD by {
        assert(j != i);
    }
}

/// Taking back a move restores the grid it was made on.
pub proof fn lemma_grid_round_trip(g: Seq<u8>, side: u8, m: Move, rec: Undo)
    requires
        grid_ok(g),
        is_side(side),
        move_fits(g, side, m),
        rec.m == m,
        rec.captured == captured_by(g, side, m),
    ensures
        grid_before(grid_after(g, side, m), side, rec) == g,
{
    assert(grid_before(grid_after(g, side, m), side, rec) =~= g);
}

/// Making a move and then taking it back restores the position exactly:
/// grid, piece lists, piece counts, material, pawn masks, king squares, side
/// to move, castling rights, en-passant target, half-move clock, key, ply,
/// height and move history.
pub proof fn lemma_make_take_round_trip(before: Board, mid: Board, after: Board, m: Move)
    requires
        before.wf(),
        move_fits(before.grid(), before.side_view(), m),
        made_move(before, mid, m),
        took_move(mid, after),
    ensures
        after.same_position(&before),
        after.key_view() == before.key_view(),
        after.key_view() == mid.history_view().last().key,
        after.tally_view() == before.tally_view(),
{
    let g = before.grid();
    let side = before.side_view();
    let rec = mid.history_view().last();
    lemma_grid_round_trip(g, side, m, rec);
    assert(after.grid() == g);
    assert(after.history_view() =~= before.history_view());
    assert(after.lists() =~= before.lists());
}

/// The half-move clock stays below 100: `make_move` is called only when
/// the clock it leaves is below 100 (`reaches_fifty_move_limit` tells the
/// caller beforehand that the position is a fifty-move draw), and a move
/// either resets the clock or raises it by one.
pub proof fn lemma_fifty_move_bound(before: Board, after: Board, m: Move)
    requires
        before.position_valid(),
        fifty_after(before.grid(), before.side_view(), before.fifty_view(), m) < 100,
        made_move(before, after, m),
    ensures
        after.fifty_view() < 100,
        after.fifty_view() == 0 || after.fifty_view() == before.fifty_view() + 1,
{
}

/// Every move of `ms` can be applied by `make_move`.
pub open spec fn all_applicable(g: Seq<u8>, side: u8, ms: Seq<Move>) -> bool {
    forall|i: int| 0 <= i < ms.len() ==> #[trigger] move_fits(g, side, ms[i])
}

proof fn lemma_applicable_concat(g: Seq<u8>, side: u8, a: Seq<Move>, b: Seq<Move>)
    requires
        all_applicable(g, side, a),
        all_applicable(g, side, b),
    ensures
        all_applicable(g, side, a + b),
{
    assert forall|i: int| 0 <= i < (a + b).len() implies #[trigger] move_fits(g, side, (a + b)[i]) by {
        if i < a.len() {
            assert((a + b)[i] == a[i]);
        } else {
            assert((a + b)[i] == b[i - a.len()]);
        }
    }
}

proof fn lemma_pawn_applicable(g: Seq<u8>, s: int, side: u8, ep: u8)
    requires
        grid_ok(g),
        on_board(s),
        is_side(side),
        g[s] == pawn_of(side),
        ep_ok(ep, side),
    ensures
        all_applicable(g, side, pawn_moves(g, s, side, ep)),
{
    let f = forward(side);
    let fw = pawn_forward_moves(g, s, side);
    if g[s + f] == EMPTY {
        let st = pawn_step_moves(s, s + f, EMPTY, side);
        assert(on_board(s + f));
        assert(all_applicable(g, side, st));
        let tail = if rank_of(s) == start_rank(side) && g[s + f + f] == EMPTY {
            seq![mv(s, s + f + f, EMPTY, EMPTY, MoveKind::PawnStart)]
        } else {
            Seq::empty()
        };
        if tail.len() > 0 {
            assert(on_board(s + f + f));
            assert(move_fits(g, side, tail[0]));
        }
        assert(all_applicable(g, side, tail));
        lemma_applicable_concat(g, side, st, tail);
    }
    assert(all_applicable(g, side, fw));
    let l = s + left_diag(side);
    let r = s + right_diag(side);
    let cl = pawn_capture_at(g, s, l, side);
    let cr = pawn_capture_at(g, s, r, side);
    if is_piece(g[l]) && colour_of(g[l]) == opponent(side) {
        assert(on_board(l));
    }
    if is_piece(g[r]) && colour_of(g[r]) == opponent(side) {
        assert(on_board(r));
    }
    assert(all_applicable(g, side, cl));
    assert(all_applicable(g, side, cr));
    lemma_applicable_concat(g, side, cl, cr);
    let el = pawn_ep_at(g, s, l, ep);
    let er = pawn_ep_at(g, s, r, ep);
    if el.len() > 0 {
        assert(on_board(l - f));
        assert(move_fits(g, side, el[0]));
    }
    if er.len() > 0 {
        assert(on_board(r - f));
        assert(move_fits(g, side, er[0]));
    }
    assert(all_applicable(g, side, el));
    assert(all_applicable(g, side, er));
    lemma_applicable_concat(g, side, el, er);
    lemma_applicable_concat(g, side, fw, pawn_capture_moves(g, s, side));
    lemma_applicable_concat(g, side, fw + pawn_capture_moves(g, s, side), pawn_ep_moves(g, s, side, ep));
}

proof fn lemma_jumps_applicable(g: Seq<u8>, s: int, side: u8, knight: bool, k: int)
    requires
        grid_ok(g),
        on_board(s),
        is_side(side),
        colour_of(g[s]) == side,
        0 <= k <= 8,
    ensures
        all_applicable(g, side, jump_moves_upto(g, s, side, knight, k)),
    decreases k,
{
    if k > 0 {
        lemma_jumps_applicable(g, s, side, knight, k - 1);
        let to = s + jump_dir(knight, k - 1);
        let tm = target_moves(g, s, to, side);
        if g[to] != crate::types::OFFBOARD {
            assert(on_board(to));
        }
        assert(all_applicable(g, side, tm));
        lemma_applicable_concat(g, side, jump_moves_upto(g, s, side, knight, k - 1), tm);
    }
}

proof fn lemma_ray_applicable(g: Seq<u8>, s: int, a: int, d: int, side: u8)
    requires
        grid_ok(g),
        on_board(s),
        is_side(side),
        colour_of(g[s]) == side,
        crate::board::scan::ray_step(d),
    ensures
        all_applicable(g, side, ray_moves(g, s, a, d, side)),
    decreases (if d > 0 { 120 - a } else { a + 1 }),
{
    let rm = ray_moves(g, s, a, d, side);
    if a < 0 || a >= 120 || d == 0 || g[a] == crate::types::OFFBOARD {
    } else if g[a] != EMPTY {
        if colour_of(g[a]) == opponent(side) {
            assert(on_board(a));
            assert(move_fits(g, side, rm[0]));
        }
    } else if a + d < 0 || a + d >= 120 {
        assert(on_board(a));
        assert(move_fits(g, side, rm[0]));
    } else {
        assert(on_board(a));
        let q = seq![mv(s, a, EMPTY, EMPTY, MoveKind::Normal)];
        assert(move_fits(g, side, q[0]));
        lemma_ray_applicable(g, s, a + d, d, side);
        lemma_applicable_concat(g, side, q, ray_moves(g, s, a + d, d, side));
    }
}

proof fn lemma_slides_applicable(g: Seq<u8>, s: int, side: u8, kind: int, k: int)
    requires
        grid_ok(g),
        on_board(s),
        is_side(side),
        colour_of(g[s]) == side,
        0 <= kind <= 2,
        0 <= k <= 8,
    ensures
        all_applicable(g, side, slider_moves_upto(g, s, side, kind, k)),
    decreases k,
{
    if k > 0 {
        lemma_slides_applicable(g, s, side, kind, k - 1);
        let d = slider_dir(kind, k - 1);
        lemma_ray_applicable(g, s, s + d, d, side);
        lemma_applicable_concat(g, side, slider_moves_upto(g, s, side, kind, k - 1), ray_moves(g, s, s + d, d, side));
    }
}

proof fn lemma_square_applicable(g: Seq<u8>, side: u8, ep: u8, p: u8, s: int)
    requires
        grid_ok(g),
        is_side(side),
        ep_ok(ep, side),
        is_piece(p),
        colour_of(p) == side,
        0 <= s < 120,
        g[s] == p,
    ensures
        all_applicable(g, side, piece_moves(g, s, side, ep, p)),
{
    assert(on_board(s));
    if p == WP || p == BP {
        lemma_pawn_applicable(g, s, side, ep);
    } else if p == crate::types::WN || p == crate::types::BN {
        lemma_jumps_applicable(g, s, side, true, 8);
    } else if p == WK || p == BK {
        lemma_jumps_applicable(g, s, side, false, 8);
    } else if p == crate::types::WB || p == crate::types::BB {
        lemma_slides_applicable(g, s, side, 0, 4);
    } else if p == WR || p == BR {
        lemma_slides_applicable(g, s, side, 1, 4);
    } else {
        lemma_slides_applicable(g, s, side, 2, 8);
    }
}

proof fn lemma_flat_applicable(g: Seq<u8>, side: u8, ep: u8, p: u8, n: int)
    requires
        grid_ok(g),
        is_side(side),
        ep_ok(ep, side),
        is_piece(p),
        colour_of(p) == side,
        0 <= n <= squares_upto(g, p, 120).len(),
    ensures
        all_applicable(g, side, flat_moves(squares_upto(g, p, 120), n, piece_fn(g, side, ep, p))),
    decreases n,
{
    if n > 0 {
        let l = squares_upto(g, p, 120);
        let f = piece_fn(g, side, ep, p);
        lemma_flat_applicable(g, side, ep, p, n - 1);
        lemma_squares_hold(g, p, 120);
        let s = l[n - 1] as int;
        lemma_square_applicable(g, side, ep, p, s);
        assert(f(s) == piece_moves(g, s, side, ep, p));
        lemma_applicable_concat(g, side, flat_moves(l, n - 1, f), f(s));
    }
}

proof fn lemma_piece_applicable(g: Seq<u8>, side: u8, ep: u8, p: u8)
    requires
        grid_ok(g),
        is_side(side),
        ep_ok(ep, side),
        is_piece(p),
        colour_of(p) == side,
    ensures
        all_applicable(g, side, moves_of_piece(g, side, ep, p)),
{
    lemma_flat_applicable(g, side, ep, p, squares_upto(g, p, 120).len() as int);
}

/// Every castling move generated can be applied.
proof fn lemma_castles_applicable(g: Seq<u8>, side: u8, castle: u8)
    requires
        grid_ok(g),
        is_side(side),
    ensures
        all_applicable(g, side, crate::board::movegen::castle_moves(g, side, castle)),
{
    let mc = crate::board::movegen::castle_moves(g, side, castle);
    let (a, b) = if side == WHITE {
        (
            crate::board::movegen::castle_one(g, castle, crate::board::WKCA, g[26] == EMPTY && g[27] == EMPTY, 25, 26, 27, side),
            crate::board::movegen::castle_one(g, castle, crate::board::WQCA, g[24] == EMPTY && g[23] == EMPTY && g[22] == EMPTY, 25, 24, 23, side),
        )
    } else {
        (
            crate::board::movegen::castle_one(g, castle, crate::board::BKCA, g[96] == EMPTY && g[97] == EMPTY, 95, 96, 97, side),
            crate::board::movegen::castle_one(g, castle, crate::board::BQCA, g[94] == EMPTY && g[93] == EMPTY && g[92] == EMPTY, 95, 94, 93, side),
        )
    };
    assert(mc == a + b);
    if a.len() > 0 {
        assert(move_fits(g, side, a[0]));
    }
    if b.len() > 0 {
        assert(move_fits(g, side, b[0]));
    }
    assert(all_applicable(g, side, a));
    assert(all_applicable(g, side, b));
    lemma_applicable_concat(g, side, a, b);
}

/// Every pseudo-legal move the generator produces can be made, and so taken
/// back exactly.
pub proof fn lemma_generated_moves_apply(g: Seq<u8>, side: u8, ep: u8, castle: u8)
    requires
        grid_ok(g),
        is_side(side),
        ep_ok(ep, side),
    ensures
        all_applicable(g, side, generated_moves(g, side, ep, castle)),
{
    let mp = moves_of_piece(g, side, ep, own(side, WP, BP));
    let mn = moves_of_piece(g, side, ep, own(side, crate::types::WN, crate::types::BN));
    let mk = moves_of_piece(g, side, ep, own(side, WK, BK));
    let mb = moves_of_piece(g, side, ep, own(side, crate::types::WB, crate::types::BB));
    let mr = moves_of_piece(g, side, ep, own(side, WR, BR));
    let mq = moves_of_piece(g, side, ep, own(side, crate::types::WQ, crate::types::BQ));
    let mc = crate::board::movegen::castle_moves(g, side, castle);
    lemma_piece_applicable(g, side, ep, own(side, WP, BP));
    lemma_piece_applicable(g, side, ep, own(side, crate::types::WN, crate::types::BN));
    lemma_piece_applicable(g, side, ep, own(side, WK, BK));
    lemma_piece_applicable(g, side, ep, own(side, crate::types::WB, crate::types::BB));
    lemma_piece_applicable(g, side, ep, own(side, WR, BR));
    lemma_piece_applicable(g, side, ep, own(side, crate::types::WQ, crate::types::BQ));
    lemma_castles_applicable(g, side, castle);
    lemma_applicable_concat(g, side, mp, mn);
    lemma_applicable_concat(g, side, mp + mn, mk);
    lemma_applicable_concat(g, side, mp + mn + mk, mb);
    lemma_applicable_concat(g, side, mp + mn + mk + mb, mr);
    lemma_applicable_concat(g, side, mp + mn + mk + mb + mr, mq);
    lemma_applicable_concat(g, side, mp + mn + mk + mb + mr + mq, mc);
}

/// Making any generated move from a valid position and taking it back
/// restores the position exactly.
pub proof fn lemma_generated_round_trip(before: Board, mid: Board, after: Board, i: int)
    requires
        before.wf(),
        before.position_valid(),
        0 <= i < generated_moves(
            before.grid(),
            before.side_view(),
            before.ep_view(),
            before.castle_view(),
        ).len(),
        made_move(
            before,
            mid,
            generated_moves(before.grid(), before.side_view(), before.ep_view(), before.castle_view())[i],
        ),
        took_move(mid, after),
    ensures
        after.same_position(&before),
        after.key_view() == before.key_view(),
{
    let ms = generated_moves(before.grid(), before.side_view(), before.ep_view(), before.castle_view());
    lemma_generated_moves_apply(before.grid(), before.side_view(), before.ep_view(), before.castle_view());
    assert(move_fits(before.grid(), before.side_view(), ms[i]));
    lemma_make_take_round_trip(before, mid, after, ms[i]);
}

impl Board {
    /// Whether the fifty-move rule makes the position a draw: the half-move
    /// clock has reached 100. No move can be made from such a position.
    pub fn is_fifty_move_draw(&self) -> (r: bool)
        ensures
            r == (self.fifty_view() >= 100),
    {
        self.fifty_move_counter >= 100
    }

    /// Puts `v` on cell `i`, updating `key`, the grid's part of the
    /// position key, by the cell's old and new constants.
    fn set_cell(&mut self, i: usize, v: u8, key: u64) -> (r: u64)
        requires
            old(self).pieces@.len() == 120,
            i < 120,
            key == grid_key(old(self).pieces@, 120),
        ensures
            final(self).pieces@ == old(self).pieces@.update(i as int, v),
            r == grid_key(final(self).pieces@, 120),
            *final(self) == (Board { pieces: final(self).pieces, ..*old(self) }),
    {
        let old_v = self.pieces[i];
        proof {
            lemma_grid_key_update(self.pieces@, i as int, v, 120);
        }
        self.pieces.set(i, v);
        key ^ cell_key_of(old_v, i as u8) ^ cell_key_of(v, i as u8)
    }

    /// Whether making `m` would bring the half-move clock to 100: the
    /// position is then a draw by the fifty-move rule, and `make_move`
    /// does not take the move.
    pub fn reaches_fifty_move_limit(&self, m: Move) -> (r: bool)
        requires
            self.indexes_agree(),
            self.fifty_view() < 100,
            on_board(m.from as int),
            on_board(m.to as int),
        ensures
            r == (fifty_after(self.grid(), self.side_view(), self.fifty_view(), m) >= 100),
    {
        let p = self.pieces[m.from as usize];
        let cap_sq: usize = if m.kind == MoveKind::EnPassant {
            if self.side == WHITE { m.to as usize - 10 } else { m.to as usize + 10 }
        } else {
            m.to as usize
        };
        let captured = if m.kind == MoveKind::Castle { EMPTY } else { self.pieces[cap_sq] };
        if p == WP || p == BP || captured != EMPTY {
            false
        } else {
            self.fifty_move_counter as u16 + 1 >= 100
        }
    }

    /// Whether `make_move` can apply `m` to this position.
    pub fn move_is_applicable(&self, m: Move) -> (r: bool)
        requires
            self.wf(),
        ensures
            r == move_fits(self.grid(), self.side_view(), m),
    {
        let from = m.from;
        let to = m.to;
        if !square_on_board(from) || !square_on_board(to) || from == to {
            return false;
        }
        let side = self.side;
        let p = self.pieces[from as usize];
        if m.kind != MoveKind::Castle && (p < 1 || p > BK || piece_colour(p) != side) {
            return false;
        }
        let pawn = if side == WHITE { WP } else { BP };
        if m.promotion != EMPTY {
            if m.promotion > BK || piece_colour(m.promotion) != side || p != pawn || m.kind
                != MoveKind::Normal {
                return false;
            }
        }
        match m.kind {
            MoveKind::Normal => true,
            MoveKind::PawnStart => {
                let start: u8 = if side == WHITE { 1 } else { 6 };
                let target: u8 = if side == WHITE { from + 20 } else { from - 20 };
                p == pawn && from / 10 - 2 == start && to == target
            },
            MoveKind::EnPassant => {
                let cap: u8 = if side == WHITE { to - 10 } else { to + 10 };
                p == pawn && self.pieces[to as usize] == EMPTY && square_on_board(cap) && cap
                    != from
            },
            MoveKind::Castle => {
                let shape = if side == WHITE {
                    from == 25 && (to == 27 || to == 23)
                } else {
                    from == 95 && (to == 97 || to == 93)
                };
                if !shape {
                    return false;
                }
                let rt: usize = if to == 27 {
                    26
                } else if to == 23 {
                    24
                } else if to == 97 {
                    96
                } else {
                    94
                };
                self.pieces[to as usize] == EMPTY && self.pieces[rt] == EMPTY
            },
        }
    }

    /// Makes move `m` on a valid position, pushing what undoes it onto the
    /// move history. The key is updated from the cells the move changes;
    /// the piece lists and counters are re-derived from the grid.
    pub fn make_move(&mut self, m: Move)
        requires
            old(self).wf(),
            old(self).position_valid(),
            move_fits(old(self).grid(), old(self).side_view(), m),
            fifty_after(old(self).grid(), old(self).side_view(), old(self).fifty_view(), m) < 100,
            old(self).height_view() < usize::MAX,
            old(self).ply_view() < u64::MAX,
        ensures
            made_move(*old(self), *final(self), m),
            !is_king(captured_by(old(self).grid(), old(self).side_view(), m)) ==> final(self).position_valid(),
    {
        let from = m.from as usize;
        let to = m.to as usize;
        let side = self.side;
        let ghost g = self.pieces@;
        let p = self.pieces[from];
        let cap_sq: usize = if m.kind == MoveKind::EnPassant {
            if side == WHITE { to - 10 } else { to + 10 }
        } else {
            to
        };
        let captured = if m.kind == MoveKind::Castle { EMPTY } else { self.pieces[cap_sq] };
        let rec = Undo {
            m,
            captured,
            castle_perm: self.castle_perm,
            ep_sq: self.ep_sq,
            fifty_move_counter: self.fifty_move_counter,
            key: self.key,
        };
        proof {
            lemma_grid_update(g, from as int, EMPTY);
            lemma_key_split(g, side, self.ep_sq, self.castle_perm);
            let gk = grid_key(g, 120);
            let x = key_extras(side, self.ep_sq, self.castle_perm);
            assert((gk ^ x) ^ x == gk) by (bit_vector);
        }
        let mut gk = self.key ^ key_extras_of(side, self.ep_sq, self.castle_perm);
        if m.kind == MoveKind::Castle {
            let (rf, rt): (usize, usize) = if to == 27 {
                (28, 26)
            } else if to == 23 {
                (21, 24)
            } else if to == 97 {
                (98, 96)
            } else {
                (91, 94)
            };
            let rook = self.pieces[rf];
            gk = self.set_cell(from, EMPTY, gk);
            gk = self.set_cell(to, p, gk);
            gk = self.set_cell(rf, EMPTY, gk);
            gk = self.set_cell(rt, rook, gk);
        } else if m.kind == MoveKind::EnPassant {
            gk = self.set_cell(cap_sq, EMPTY, gk);
            gk = self.set_cell(from, EMPTY, gk);
            gk = self.set_cell(to, p, gk);
        } else {
            gk = self.set_cell(from, EMPTY, gk);
            gk = self.set_cell(to, if m.promotion != EMPTY { m.promotion } else { p }, gk);
        }
        assert(self.pieces@ == grid_after(g, side, m));
        proof {
            let g1 = g.update(from as int, EMPTY);
            if m.kind == MoveKind::Castle {
                lemma_grid_update(g1, to as int, p);
                let g2 = g1.update(to as int, p);
                lemma_grid_update(g2, rook_from(to as int), EMPTY);
                let g3 = g2.update(rook_from(to as int), EMPTY);
                lemma_grid_update(g3, rook_to(to as int), g[rook_from(to as int)]);
            } else if m.kind == MoveKind::EnPassant {
                let c = capture_square(m, side);
                lemma_grid_update(g, c, EMPTY);
                let h1 = g.update(c, EMPTY);
                lemma_grid_update(h1, from as int, EMPTY);
                lemma_grid_update(h1.update(from as int, EMPTY), to as int, p);
            } else {
                lemma_grid_update(g1, to as int, if m.promotion != EMPTY { m.promotion } else { p });
            }
        }
        let from_mask: u8 = if from == 21 { 13 } else if from == 25 { 12 } else if from == 28 { 14 }
            else if from == 91 { 7 } else if from == 95 { 3 } else if from == 98 { 11 } else { 15 };
        let to_mask: u8 = if to == 21 { 13 } else if to == 25 { 12 } else if to == 28 { 14 }
            else if to == 91 { 7 } else if to == 95 { 3 } else if to == 98 { 11 } else { 15 };
        let old_castle = self.castle_perm;
        assert(old_castle & from_mask & to_mask < 16) by (bit_vector)
            requires
                old_castle < 16,
        ;
        self.castle_perm = self.castle_perm & from_mask & to_mask;
        self.ep_sq = if m.kind == MoveKind::PawnStart {
            if side == WHITE { m.from + 10 } else { m.from - 10 }
        } else {
            NO_SQ
        };
        self.fifty_move_counter = if p == WP || p == BP || captured != EMPTY {
            0
        } else {
            self.fifty_move_counter + 1
        };
        self.side = if side == WHITE { BLACK } else { WHITE };
        self.ply = self.ply + 1;
        self.height = self.height + 1;
        self.history.push(rec);
        self.key = gk ^ key_extras_of(self.side, self.ep_sq, self.castle_perm);
        proof {
            lemma_key_split(self.pieces@, self.side, self.ep_sq, self.castle_perm);
        }
        self.update_list_material();
        proof {
            let a = *old(self);
            let b = *self;
            assert(b.history_view() == a.history_view().push(rec));
            assert(b.history_view().drop_last() =~= a.history_view());
            assert(opponent(b.side_view()) == a.side_view());
            lemma_grid_round_trip(g, side, m, rec);
            assert(history_ok(b));
            if !is_king(captured) {
                lemma_kings_after(g, side, m);
            }
        }
    }

    /// Takes back the last move made, restoring the position before it; the
    /// key comes back from the history record.
    pub fn take_move(&mut self)
        requires
            old(self).wf(),
            old(self).history_view().len() > 0,
            old(self).height_view() > 0,
            old(self).ply_view() > 0,
        ensures
            took_move(*old(self), *final(self)),
    {
        let rec = self.history.pop().unwrap();
        let side = if self.side == WHITE { BLACK } else { WHITE };
        let m = rec.m;
        let from = m.from as usize;
        let to = m.to as usize;
        let ghost g = self.pieces@;
        let p = if m.promotion != EMPTY {
            if side == WHITE { WP } else { BP }
        } else {
            self.pieces[to]
        };
        proof {
            assert(p <= BK);
        }
        if m.kind == MoveKind::Castle {
            let (rf, rt): (usize, usize) = if to == 27 {
                (28, 26)
            } else if to == 23 {
                (21, 24)
            } else if to == 97 {
                (98, 96)
            } else {
                (91, 94)
            };
            let rook = self.pieces[rt];
            proof {
                lemma_grid_update(g, rt as int, EMPTY);
                let g1 = g.update(rt as int, EMPTY);
                lemma_grid_update(g1, rf as int, rook);
                let g2 = g1.update(rf as int, rook);
                lemma_grid_update(g2, to as int, EMPTY);
                lemma_grid_update(g2.update(to as int, EMPTY), from as int, p);
            }
            self.pieces.set(rt, EMPTY);
            self.pieces.set(rf, rook);
            self.pieces.set(to, EMPTY);
            self.pieces.set(from, p);
        } else if m.kind == MoveKind::EnPassant {
            let cap_sq: usize = if side == WHITE { to - 10 } else { to + 10 };
            proof {
                lemma_grid_update(g, to as int, EMPTY);
                let g1 = g.update(to as int, EMPTY);
                lemma_grid_update(g1, from as int, p);
                lemma_grid_update(g1.update(from as int, p), cap_sq as int, rec.captured);
            }
            self.pieces.set(to, EMPTY);
            self.pieces.set(from, p);
            self.pieces.set(cap_sq, rec.captured);
        } else {
            proof {
                lemma_grid_update(g, to as int, rec.captured);
                lemma_grid_update(g.update(to as int, rec.captured), from as int, p);
            }
            self.pieces.set(to, rec.captured);
            self.pieces.set(from, p);
        }
        assert(self.pieces@ == grid_before(g, side, rec));
        self.side = side;
        self.ep_sq = rec.ep_sq;
        self.castle_perm = rec.castle_perm;
        self.fifty_move_counter = rec.fifty_move_counter;
        self.ply = self.ply - 1;
        self.height = self.height - 1;
        self.key = rec.key;
        self.update_list_material();
        proof {
            let a = *old(self);
            assert(self.history_view() =~= a.history_view().drop_last());
        }
    }
}

} // verus!
