//! Pseudo-legal move generation.
use vstd::prelude::*;
use crate::types::{
    Move, MoveKind, colour_of, is_piece, is_side, on_board, rank_of, EMPTY, OFFBOARD, NO_SQ,
    WHITE, BLACK, WP, WN, WB, WR, WQ, WK, BP, BN, BB, BR, BQ, BK, piece_colour,
};
use crate::board::{Board, grid_ok, piece_squares, squares_upto, WKCA, WQCA, BKCA, BQCA};
use crate::board::attack::{attacked, knight_dir, king_dir, knight_dir_of, king_dir_of};

verus! {

/// A list of moves with their ordering scores.
pub struct MoveList {
    moves: Vec<Move>,
    scores: Vec<i32>,
}

impl View for MoveList {
    type V = Seq<Move>;

    closed spec fn view(&self) -> Seq<Move> {
        self.moves@
    }
}

impl MoveList {
    pub closed spec fn scores_view(&self) -> Seq<i32> {
        self.scores@
    }

    pub fn new() -> (r: Self)
        ensures
            r@.len() == 0,
            r.scores_view().len() == 0,
    {
        MoveList { moves: Vec::new(), scores: Vec::new() }
    }

    pub fn push(&mut self, m: Move, score: i32)
        ensures
            final(self)@ == old(self)@.push(m),
            final(self).scores_view() == old(self).scores_view().push(score),
    {
        self.moves.push(m);
        self.scores.push(score);
    }

    pub fn len(&self) -> (r: usize)
        ensures
            r == self@.len(),
    {
        self.moves.len()
    }

    pub fn get(&self, i: usize) -> (r: Move)
        requires
            i < self@.len(),
        ensures
            r == self@[i as int],
    {
        self.moves[i]
    }

    /// The moves, in the order they were added.
    pub fn moves(&self) -> (r: Vec<Move>)
        ensures
            r@ == self@,
    {
        self.moves.clone()
    }
}

pub open spec fn opponent(side: u8) -> u8 {
    if side == WHITE { BLACK } else { WHITE }
}

/// The cell offset of one pawn step forward.
pub open spec fn forward(side: u8) -> int {
    if side == WHITE { 10 } else { -10 }
}

/// The rank (from 0) from which a pawn step reaches the far rank.
pub open spec fn promo_rank(side: u8) -> int {
    if side == WHITE { 6 } else { 1 }
}

/// The rank (from 0) that pawns start on.
pub open spec fn start_rank(side: u8) -> int {
    if side == WHITE { 1 } else { 6 }
}

/// Promotion choices in order: queen, knight, rook, bishop.
pub open spec fn promo_piece(side: u8, k: int) -> u8 {
    let white = side == WHITE;
    if k == 0 {
        if white { WQ } else { BQ }
    } else if k == 1 {
        if white { WN } else { BN }
    } else if k == 2 {
        if white { WR } else { BR }
    } else {
        if white { WB } else { BB }
    }
}

pub open spec fn mv(from: int, to: int, cap: u8, promo: u8, kind: MoveKind) -> Move {
    Move { from: from as u8, to: to as u8, capture: cap, promotion: promo, kind }
}

/// A pawn move (push or capture of `cap`): four moves, one per promotion
/// choice, when it reaches the far rank; one plain move otherwise.
pub open spec fn pawn_step_moves(from: int, to: int, cap: u8, side: u8) -> Seq<Move> {
    if rank_of(from) == promo_rank(side) {
        seq![
            mv(from, to, cap, promo_piece(side, 0), MoveKind::Normal),
            mv(from, to, cap, promo_piece(side, 1), MoveKind::Normal),
            mv(from, to, cap, promo_piece(side, 2), MoveKind::Normal),
            mv(from, to, cap, promo_piece(side, 3), MoveKind::Normal),
        ]
    } else {
        seq![mv(from, to, cap, EMPTY, MoveKind::Normal)]
    }
}

/// Single push to an empty square, then a double push from the start rank
/// when the square beyond is empty too.
pub open spec fn pawn_forward_moves(g: Seq<u8>, sq: int, side: u8) -> Seq<Move> {
    let t = sq + forward(side);
    if g[t] == EMPTY {
        pawn_step_moves(sq, t, EMPTY, side) + if rank_of(sq) == start_rank(side) && g[t + forward(
            side,
        )] == EMPTY {
            seq![mv(sq, t + forward(side), EMPTY, EMPTY, MoveKind::PawnStart)]
        } else {
            Seq::empty()
        }
    } else {
        Seq::empty()
    }
}

/// A diagonal capture onto `to` when an opposing piece stands there.
pub open spec fn pawn_capture_at(g: Seq<u8>, from: int, to: int, side: u8) -> Seq<Move> {
    if is_piece(g[to]) && colour_of(g[to]) == opponent(side) {
        pawn_step_moves(from, to, g[to], side)
    } else {
        Seq::empty()
    }
}

/// An en-passant capture when `to` is the en-passant target and empty.
pub open spec fn pawn_ep_at(g: Seq<u8>, from: int, to: int, ep: u8) -> Seq<Move> {
    if ep != NO_SQ && to == ep && g[to] == EMPTY {
        seq![mv(from, to, EMPTY, EMPTY, MoveKind::EnPassant)]
    } else {
        Seq::empty()
    }
}

pub open spec fn left_diag(side: u8) -> int {
    if side == WHITE { 9 } else { -9 }
}

pub open spec fn right_diag(side: u8) -> int {
    if side == WHITE { 11 } else { -11 }
}

pub open spec fn pawn_capture_moves(g: Seq<u8>, sq: int, side: u8) -> Seq<Move> {
    pawn_capture_at(g, sq, sq + left_diag(side), side) + pawn_capture_at(
        g,
        sq,
        sq + right_diag(side),
        side,
    )
}

pub open spec fn pawn_ep_moves(g: Seq<u8>, sq: int, side: u8, ep: u8) -> Seq<Move> {
    pawn_ep_at(g, sq, sq + left_diag(side), ep) + pawn_ep_at(g, sq, sq + right_diag(side), ep)
}

/// Every move of the pawn on `sq`.
pub open spec fn pawn_moves(g: Seq<u8>, sq: int, side: u8, ep: u8) -> Seq<Move> {
    pawn_forward_moves(g, sq, side) + pawn_capture_moves(g, sq, side) + pawn_ep_moves(g, sq, side, ep)
}

/// A knight or king step onto `to`: quiet onto an empty square, a capture of
/// an opposing piece, nothing onto a guard cell or an own piece.
pub open spec fn target_moves(g: Seq<u8>, from: int, to: int, side: u8) -> Seq<Move> {
    if g[to] == OFFBOARD {
        Seq::empty()
    } else if g[to] == EMPTY {
        seq![mv(from, to, EMPTY, EMPTY, MoveKind::Normal)]
    } else if colour_of(g[to]) == opponent(side) {
        seq![mv(from, to, g[to], EMPTY, MoveKind::Normal)]
    } else {
        Seq::empty()
    }
}

pub open spec fn jump_dir(knight: bool, k: int) -> int {
    if knight { knight_dir(k) } else { king_dir(k) }
}

pub open spec fn jump_moves_upto(g: Seq<u8>, sq: int, side: u8, knight: bool, k: int) -> Seq<Move>
    decreases k,
{
    if k <= 0 {
        Seq::empty()
    } else {
        jump_moves_upto(g, sq, side, knight, k - 1) + target_moves(
            g,
            sq,
            sq + jump_dir(knight, k - 1),
            side,
        )
    }
}

/// The moves of a knight (or king) on `sq`, offset by offset.
pub open spec fn jump_moves(g: Seq<u8>, sq: int, side: u8, knight: bool) -> Seq<Move> {
    jump_moves_upto(g, sq, side, knight, 8)
}

/// The moves along a ray from `from`, from cell `t` on: quiet moves while
/// the cells are empty, then a capture if the first piece met is opposing.
pub open spec fn ray_moves(g: Seq<u8>, from: int, t: int, dir: int, side: u8) -> Seq<Move>
    decreases (if dir > 0 { 120 - t } else { t + 1 }),
{
    if t < 0 || t >= 120 || dir == 0 || g[t] == OFFBOARD {
        Seq::empty()
    } else if g[t] != EMPTY {
        if colour_of(g[t]) == opponent(side) {
            seq![mv(from, t, g[t], EMPTY, MoveKind::Normal)]
        } else {
            Seq::empty()
        }
    } else if t + dir < 0 || t + dir >= 120 {
        seq![mv(from, t, EMPTY, EMPTY, MoveKind::Normal)]
    } else {
        seq![mv(from, t, EMPTY, EMPTY, MoveKind::Normal)] + ray_moves(g, from, t + dir, dir, side)
    }
}

/// Direction `k` of a slider: kind 0 is a bishop (4 directions), 1 a rook
/// (4), 2 a queen (8).
pub open spec fn slider_dir(kind: int, k: int) -> int {
    if kind == 0 {
        king_dir(k + 4)
    } else {
        king_dir(k)
    }
}

pub open spec fn slider_dir_count(kind: int) -> int {
    if kind == 2 { 8 } else { 4 }
}

pub open spec fn slider_moves_upto(g: Seq<u8>, sq: int, side: u8, kind: int, k: int) -> Seq<Move>
    decreases k,
{
    if k <= 0 {
        Seq::empty()
    } else {
        slider_moves_upto(g, sq, side, kind, k - 1) + ray_moves(
            g,
            sq,
            sq + slider_dir(kind, k - 1),
            slider_dir(kind, k - 1),
            side,
        )
    }
}

pub open spec fn slider_moves(g: Seq<u8>, sq: int, side: u8, kind: int) -> Seq<Move> {
    slider_moves_upto(g, sq, side, kind, slider_dir_count(kind))
}

/// The moves of the pieces on the first `n` squares of `l`, square by square.
pub open spec fn flat_moves(l: Seq<u8>, n: int, f: spec_fn(int) -> Seq<Move>) -> Seq<Move>
    decreases n,
{
    if n <= 0 {
        Seq::empty()
    } else {
        flat_moves(l, n - 1, f) + f(l[n - 1] as int)
    }
}

pub open spec fn all_flat(l: Seq<u8>, f: spec_fn(int) -> Seq<Move>) -> Seq<Move> {
    flat_moves(l, l.len() as int, f)
}

/// Castling with one right: the right is held, the squares between king
/// and rook are empty (`clear`), and neither the king's square nor the
/// square it crosses is attacked.
pub open spec fn castle_one(
    g: Seq<u8>,
    castle: u8,
    bit: u8,
    clear: bool,
    king_sq: int,
    cross_sq: int,
    to: int,
    side: u8,
) -> Seq<Move> {
    if castle & bit != 0 && clear && !attacked(g, king_sq, opponent(side)) && !attacked(
        g,
        cross_sq,
        opponent(side),
    ) {
        seq![mv(king_sq, to, EMPTY, EMPTY, MoveKind::Castle)]
    } else {
        Seq::empty()
    }
}

pub open spec fn castle_moves(g: Seq<u8>, side: u8, castle: u8) -> Seq<Move> {
    if side == WHITE {
        castle_one(g, castle, WKCA, g[26] == EMPTY && g[27] == EMPTY, 25, 26, 27, side)
            + castle_one(
            g,
            castle,
            WQCA,
            g[24] == EMPTY && g[23] == EMPTY && g[22] == EMPTY,
            25,
            24,
            23,
            side,
        )
    } else {
        castle_one(g, castle, BKCA, g[96] == EMPTY && g[97] == EMPTY, 95, 96, 97, side)
            + castle_one(
            g,
            castle,
            BQCA,
            g[94] == EMPTY && g[93] == EMPTY && g[92] == EMPTY,
            95,
            94,
            93,
            side,
        )
    }
}

pub open spec fn own(side: u8, white: u8, black: u8) -> u8 {
    if side == WHITE { white } else { black }
}

/// The moves of piece `p` standing on `sq`.
pub open spec fn piece_moves(g: Seq<u8>, sq: int, side: u8, ep: u8, p: u8) -> Seq<Move> {
    if p == WP || p == BP {
        pawn_moves(g, sq, side, ep)
    } else if p == WN || p == BN {
        jump_moves(g, sq, side, true)
    } else if p == WK || p == BK {
        jump_moves(g, sq, side, false)
    } else if p == WB || p == BB {
        slider_moves(g, sq, side, 0)
    } else if p == WR || p == BR {
        slider_moves(g, sq, side, 1)
    } else {
        slider_moves(g, sq, side, 2)
    }
}

pub open spec fn piece_fn(g: Seq<u8>, side: u8, ep: u8, p: u8) -> spec_fn(int) -> Seq<Move> {
    |s: int| piece_moves(g, s, side, ep, p)
}

/// The moves of every piece `p` on the grid, in square order.
pub open spec fn moves_of_piece(g: Seq<u8>, side: u8, ep: u8, p: u8) -> Seq<Move> {
    all_flat(piece_squares(g, p), piece_fn(g, side, ep, p))
}

/// Every pseudo-legal move of the side to move, in generation order: pawns,
/// knights, king, bishops, rooks, queens (each piece in square order), then
/// castling.
pub open spec fn generated_moves(g: Seq<u8>, side: u8, ep: u8, castle: u8) -> Seq<Move> {
    moves_of_piece(g, side, ep, own(side, WP, BP)) + moves_of_piece(g, side, ep, own(side, WN, BN))
        + moves_of_piece(g, side, ep, own(side, WK, BK)) + moves_of_piece(
        g,
        side,
        ep,
        own(side, WB, BB),
    ) + moves_of_piece(g, side, ep, own(side, WR, BR)) + moves_of_piece(
        g,
        side,
        ep,
        own(side, WQ, BQ),
    ) + castle_moves(g, side, castle)
}

/// A pawn one step from the far rank fans out into four moves, one per
/// promotion choice: for a push onto an empty square, and for a capture of
/// an opposing piece.
pub proof fn lemma_promotion_fans_out(g: Seq<u8>, sq: int, side: u8, to: int)
    requires
        grid_ok(g),
        on_board(sq),
        is_side(side),
        rank_of(sq) == promo_rank(side),
    ensures
        g[sq + forward(side)] == EMPTY ==> pawn_forward_moves(g, sq, side).len() == 4 && (forall|
            k: int,
        |
            0 <= k < 4 ==> #[trigger] pawn_forward_moves(g, sq, side)[k] == mv(
                sq,
                sq + forward(side),
                EMPTY,
                promo_piece(side, k),
                MoveKind::Normal,
            )),
        is_piece(g[to]) && colour_of(g[to]) == opponent(side) ==> pawn_capture_at(
            g,
            sq,
            to,
            side,
        ).len() == 4 && (forall|k: int|
            0 <= k < 4 ==> #[trigger] pawn_capture_at(g, sq, to, side)[k] == mv(
                sq,
                to,
                g[to],
                promo_piece(side, k),
                MoveKind::Normal,
            )),
{
    if g[sq + forward(side)] == EMPTY {
        assert(pawn_forward_moves(g, sq, side) =~= pawn_step_moves(
            sq,
            sq + forward(side),
            EMPTY,
            side,
        ));
    }
}

/// Each listed square holds the listed piece.
pub proof fn lemma_squares_hold(g: Seq<u8>, p: u8, n: int)
    requires
        0 <= n <= g.len(),
        n <= 120,
    ensures
        forall|i: int|
            0 <= i < squares_upto(g, p, n).len() ==> (#[trigger] squares_upto(g, p, n)[i] as int)
                < n && g[squares_upto(g, p, n)[i] as int] == p,
    decreases n,
{
    if n > 0 {
        lemma_squares_hold(g, p, n - 1);
        let prev = squares_upto(g, p, n - 1);
        if g[n - 1] == p {
            assert(squares_upto(g, p, n) == prev.push((n - 1) as u8));
            assert forall|i: int| 0 <= i < prev.len() + 1 implies (#[trigger] prev.push(
                (n - 1) as u8,
            )[i] as int) < n && g[prev.push((n - 1) as u8)[i] as int] == p by {
                if i < prev.len() {
                    assert(prev.push((n - 1) as u8)[i] == prev[i]);
                }
            }
        }
    }
}

impl Board {
    fn add_quiet_move(&self, m: Move, move_list: &mut MoveList)
        ensures
            final(move_list)@ == old(move_list)@.push(m),
    {
        move_list.push(m, 0);
    }

    fn add_capture_move(&self, m: Move, move_list: &mut MoveList)
        ensures
            final(move_list)@ == old(move_list)@.push(m),
    {
        move_list.push(m, 0);
    }

    fn add_ep_move(&self, m: Move, move_list: &mut MoveList)
        ensures
            final(move_list)@ == old(move_list)@.push(m),
    {
        move_list.push(m, 0);
    }

    /// A pawn capture of `cap`, expanded into the four promotions on the far rank.
    fn add_pawn_cap_move(&self, side: u8, from: u8, to: u8, cap: u8, move_list: &mut MoveList)
        requires
            on_board(from as int),
            is_side(side),
        ensures
            final(move_list)@ == old(move_list)@ + pawn_step_moves(from as int, to as int, cap, side),
    {
        let ghost before = move_list@;
        let promo_rank: u8 = if side == WHITE { 6 } else { 1 };
        if from / 10 - 2 == promo_rank {
            if side == WHITE {
                self.add_capture_move(Move::new(from, to, cap, WQ, MoveKind::Normal), move_list);
                self.add_capture_move(Move::new(from, to, cap, WN, MoveKind::Normal), move_list);
                self.add_capture_move(Move::new(from, to, cap, WR, MoveKind::Normal), move_list);
                self.add_capture_move(Move::new(from, to, cap, WB, MoveKind::Normal), move_list);
            } else {
                self.add_capture_move(Move::new(from, to, cap, BQ, MoveKind::Normal), move_list);
                self.add_capture_move(Move::new(from, to, cap, BN, MoveKind::Normal), move_list);
                self.add_capture_move(Move::new(from, to, cap, BR, MoveKind::Normal), move_list);
                self.add_capture_move(Move::new(from, to, cap, BB, MoveKind::Normal), move_list);
            }
        } else {
            self.add_capture_move(Move::new(from, to, cap, EMPTY, MoveKind::Normal), move_list);
        }
        assert(move_list@ =~= before + pawn_step_moves(from as int, to as int, cap, side));
    }

    /// A pawn push, expanded into the four promotions on the far rank.
    fn add_pawn_move(&self, side: u8, from: u8, to: u8, move_list: &mut MoveList)
        requires
            on_board(from as int),
            is_side(side),
        ensures
            final(move_list)@ == old(move_list)@ + pawn_step_moves(from as int, to as int, EMPTY, side),
    {
        let ghost before = move_list@;
        let promo_rank: u8 = if side == WHITE { 6 } else { 1 };
        if from / 10 - 2 == promo_rank {
            if side == WHITE {
                self.add_quiet_move(Move::new(from, to, EMPTY, WQ, MoveKind::Normal), move_list);
                self.add_quiet_move(Move::new(from, to, EMPTY, WN, MoveKind::Normal), move_list);
                self.add_quiet_move(Move::new(from, to, EMPTY, WR, MoveKind::Normal), move_list);
                self.add_quiet_move(Move::new(from, to, EMPTY, WB, MoveKind::Normal), move_list);
            } else {
                self.add_quiet_move(Move::new(from, to, EMPTY, BQ, MoveKind::Normal), move_list);
                self.add_quiet_move(Move::new(from, to, EMPTY, BN, MoveKind::Normal), move_list);
                self.add_quiet_move(Move::new(from, to, EMPTY, BR, MoveKind::Normal), move_list);
                self.add_quiet_move(Move::new(from, to, EMPTY, BB, MoveKind::Normal), move_list);
            }
        } else {
            self.add_quiet_move(Move::new(from, to, EMPTY, EMPTY, MoveKind::Normal), move_list);
        }
        assert(move_list@ =~= before + pawn_step_moves(from as int, to as int, EMPTY, side));
    }

    fn generate_pawn_caps(&self, side: u8, sq: u8, move_list: &mut MoveList)
        requires
            self.indexes_agree(),
            on_board(sq as int),
            is_side(side),
        ensures
            final(move_list)@ == old(move_list)@ + pawn_capture_moves(self.grid(), sq as int, side),
    {
        let ghost before = move_list@;
        let ghost g = self.grid();
        let opp: u8 = if side == WHITE { BLACK } else { WHITE };
        let left_sq: u8 = if side == WHITE { sq + 9 } else { sq - 9 };
        let right_sq: u8 = if side == WHITE { sq + 11 } else { sq - 11 };
        let lp = self.pieces[left_sq as usize];
        if WP <= lp && lp <= BK && piece_colour(lp) == opp {
            self.add_pawn_cap_move(side, sq, left_sq, lp, move_list);
        }
        let ghost mid = move_list@;
        assert(mid == before + pawn_capture_at(g, sq as int, sq + left_diag(side), side));
        let rp = self.pieces[right_sq as usize];
        if WP <= rp && rp <= BK && piece_colour(rp) == opp {
            self.add_pawn_cap_move(side, sq, right_sq, rp, move_list);
        }
        assert(move_list@ == mid + pawn_capture_at(g, sq as int, sq + right_diag(side), side));
        assert(move_list@ =~= before + pawn_capture_moves(g, sq as int, side));
    }

    fn generate_ep(&self, side: u8, sq: u8, move_list: &mut MoveList)
        requires
            self.indexes_agree(),
            on_board(sq as int),
            is_side(side),
        ensures
            final(move_list)@ == old(move_list)@ + pawn_ep_moves(
                self.grid(),
                sq as int,
                side,
                self.ep_view(),
            ),
    {
        let ghost before = move_list@;
        let left_sq: u8 = if side == WHITE { sq + 9 } else { sq - 9 };
        let right_sq: u8 = if side == WHITE { sq + 11 } else { sq - 11 };
        if self.ep_sq != NO_SQ && left_sq == self.ep_sq && self.pieces[left_sq as usize] == EMPTY {
            self.add_ep_move(Move::new(sq, left_sq, EMPTY, EMPTY, MoveKind::EnPassant), move_list);
        }
        if self.ep_sq != NO_SQ && right_sq == self.ep_sq && self.pieces[right_sq as usize]
            == EMPTY {
            self.add_ep_move(Move::new(sq, right_sq, EMPTY, EMPTY, MoveKind::EnPassant), move_list);
        }
        assert(move_list@ =~= before + pawn_ep_moves(self.grid(), sq as int, side, self.ep_view()));
    }

    fn generate_pawn_forward(&self, side: u8, sq: u8, move_list: &mut MoveList)
        requires
            self.indexes_agree(),
            on_board(sq as int),
            is_side(side),
        ensures
            final(move_list)@ == old(move_list)@ + pawn_forward_moves(self.grid(), sq as int, side),
    {
        let ghost before = move_list@;
        let ghost g = self.grid();
        let start_rank: u8 = if side == WHITE { 1 } else { 6 };
        let offset_sq: u8 = if side == WHITE { sq + 10 } else { sq - 10 };
        if self.pieces[offset_sq as usize] == EMPTY {
            assert(on_board(offset_sq as int));
            self.add_pawn_move(side, sq, offset_sq, move_list);
            let double_sq: u8 = if side == WHITE { offset_sq + 10 } else { offset_sq - 10 };
            if sq / 10 - 2 == start_rank && self.pieces[double_sq as usize] == EMPTY {
                self.add_quiet_move(
                    Move::new(sq, double_sq, EMPTY, EMPTY, MoveKind::PawnStart),
                    move_list,
                );
            }
        }
        assert(move_list@ =~= before + pawn_forward_moves(g, sq as int, side));
    }

    /// The moves of a knight (`knight`) or king on `sq`.
    fn generate_jumps(&self, sq: u8, knight: bool, move_list: &mut MoveList)
        requires
            self.indexes_agree(),
            on_board(sq as int),
        ensures
            final(move_list)@ == old(move_list)@ + jump_moves(
                self.grid(),
                sq as int,
                self.side_view(),
                knight,
            ),
    {
        let ghost before = move_list@;
        let ghost g = self.grid();
        let side = self.side;
        let opp: u8 = if side == WHITE { BLACK } else { WHITE };
        let mut k: usize = 0;
        while k < 8
            invariant
                k <= 8,
                self.indexes_agree(),
                g == self.grid(),
                side == self.side_view(),
                is_side(side),
                opp == opponent(side),
                on_board(sq as int),
                move_list@ == before + jump_moves_upto(g, sq as int, side, knight, k as int),
            decreases 8 - k,
        {
            let off: i8 = if knight { knight_dir_of(k) } else { king_dir_of(k) };
            let t = (sq as i16 + off as i16) as u8;
            let p = self.pieces[t as usize];
            let ghost mid = move_list@;
            if p != OFFBOARD {
                if p != EMPTY {
                    if piece_colour(p) == opp {
                        self.add_capture_move(Move::new(sq, t, p, EMPTY, MoveKind::Normal), move_list);
                    }
                } else {
                    self.add_quiet_move(Move::new(sq, t, EMPTY, EMPTY, MoveKind::Normal), move_list);
                }
            }
            assert(move_list@ == mid + target_moves(g, sq as int, t as int, side));
            assert(move_list@ =~= before + jump_moves_upto(g, sq as int, side, knight, k + 1));
            k += 1;
        }
    }

    /// The moves along one ray from `from`.
    fn generate_ray(&self, from: u8, dir: i8, move_list: &mut MoveList)
        requires
            self.indexes_agree(),
            on_board(from as int),
            dir == -1 || dir == 1 || dir == -10 || dir == 10 || dir == -9 || dir == 9 || dir == -11
                || dir == 11,
        ensures
            final(move_list)@ == old(move_list)@ + ray_moves(
                self.grid(),
                from as int,
                from + dir,
                dir as int,
                self.side_view(),
            ),
    {
        let ghost before = move_list@;
        let ghost g = self.grid();
        let side = self.side;
        let opp: u8 = if side == WHITE { BLACK } else { WHITE };
        let mut t: u8 = (from as i16 + dir as i16) as u8;
        while self.pieces[t as usize] != OFFBOARD
            invariant
                self.indexes_agree(),
                before == old(move_list)@,
                g == self.grid(),
                side == self.side_view(),
                is_side(side),
                opp == opponent(side),
                0 <= t < 120,
                dir == -1 || dir == 1 || dir == -10 || dir == 10 || dir == -9 || dir == 9 || dir
                    == -11 || dir == 11,
                before + ray_moves(g, from as int, from + dir, dir as int, side) == move_list@
                    + ray_moves(g, from as int, t as int, dir as int, side),
            decreases (if dir > 0 { 120 - t } else { t + 1 }),
        {
            let p = self.pieces[t as usize];
            if p != EMPTY {
                let ghost mid = move_list@;
                if piece_colour(p) == opp {
                    self.add_capture_move(Move::new(from, t, p, EMPTY, MoveKind::Normal), move_list);
                }
                assert(move_list@ =~= mid + ray_moves(g, from as int, t as int, dir as int, side));
                assert(move_list@ == before + ray_moves(g, from as int, from + dir, dir as int, side));
                return;
            }
            assert(on_board(t as int));
            let ghost mid = move_list@;
            self.add_quiet_move(Move::new(from, t, EMPTY, EMPTY, MoveKind::Normal), move_list);
            let nt = (t as i16 + dir as i16) as u8;
            assert(ray_moves(g, from as int, t as int, dir as int, side) == seq![
                mv(from as int, t as int, EMPTY, EMPTY, MoveKind::Normal),
            ] + ray_moves(g, from as int, nt as int, dir as int, side));
            assert(mid + ray_moves(g, from as int, t as int, dir as int, side) =~= move_list@
                + ray_moves(g, from as int, nt as int, dir as int, side));
            t = nt;
        }
        assert(move_list@ =~= before + ray_moves(g, from as int, from + dir, dir as int, side));
    }

    /// The moves of a slider on `sq`: kind 0 a bishop, 1 a rook, 2 a queen.
    fn generate_slides(&self, sq: u8, kind: u8, move_list: &mut MoveList)
        requires
            self.indexes_agree(),
            on_board(sq as int),
            kind <= 2,
        ensures
            final(move_list)@ == old(move_list)@ + slider_moves(
                self.grid(),
                sq as int,
                self.side_view(),
                kind as int,
            ),
    {
        let ghost before = move_list@;
        let ghost g = self.grid();
        let ghost side = self.side_view();
        let count: usize = if kind == 2 { 8 } else { 4 };
        let mut k: usize = 0;
        while k < count
            invariant
                k <= count,
                count == slider_dir_count(kind as int),
                kind <= 2,
                self.indexes_agree(),
                g == self.grid(),
                side == self.side_view(),
                on_board(sq as int),
                move_list@ == before + slider_moves_upto(g, sq as int, side, kind as int, k as int),
            decreases count - k,
        {
            let d: i8 = if kind == 0 { king_dir_of(k + 4) } else { king_dir_of(k) };
            self.generate_ray(sq, d, move_list);
            assert(move_list@ =~= before + slider_moves_upto(g, sq as int, side, kind as int, k + 1));
            k += 1;
        }
    }

    /// The moves of piece `p` on `sq`.
    fn generate_square(&self, p: u8, sq: u8, move_list: &mut MoveList)
        requires
            self.indexes_agree(),
            on_board(sq as int),
            is_piece(p),
        ensures
            final(move_list)@ == old(move_list)@ + piece_moves(
                self.grid(),
                sq as int,
                self.side_view(),
                self.ep_view(),
                p,
            ),
    {
        let ghost before = move_list@;
        let side = self.side;
        if p == WP || p == BP {
            self.generate_pawn_forward(side, sq, move_list);
            self.generate_pawn_caps(side, sq, move_list);
            self.generate_ep(side, sq, move_list);
            assert(move_list@ =~= before + pawn_moves(self.grid(), sq as int, side, self.ep_view()));
        } else if p == WN || p == BN {
            self.generate_jumps(sq, true, move_list);
        } else if p == WK || p == BK {
            self.generate_jumps(sq, false, move_list);
        } else if p == WB || p == BB {
            self.generate_slides(sq, 0, move_list);
        } else if p == WR || p == BR {
            self.generate_slides(sq, 1, move_list);
        } else {
            self.generate_slides(sq, 2, move_list);
        }
    }

    /// The moves of every piece `p`, taken from its piece list.
    fn generate_piece(&self, p: u8, move_list: &mut MoveList)
        requires
            self.indexes_agree(),
            is_piece(p),
        ensures
            final(move_list)@ == old(move_list)@ + moves_of_piece(
                self.grid(),
                self.side_view(),
                self.ep_view(),
                p,
            ),
    {
        let ghost before = move_list@;
        let ghost g = self.grid();
        let ghost l = piece_squares(g, p);
        let ghost f = piece_fn(g, self.side_view(), self.ep_view(), p);
        proof {
            lemma_squares_hold(g, p, 120);
            self.lemma_lists_view();
            assert(self.lists()[p as int] == self.p_list@[p as int]@);
        }
        let n = self.p_list[p as usize].len();
        let mut i: usize = 0;
        while i < n
            invariant
                i <= n,
                self.indexes_agree(),
                is_piece(p),
                g == self.grid(),
                l == piece_squares(g, p),
                l == squares_upto(g, p, 120),
                self.p_list@[p as int]@ == l,
                n == l.len(),
                f == piece_fn(g, self.side_view(), self.ep_view(), p),
                forall|j: int| 0 <= j < l.len() ==> (#[trigger] l[j] as int) < 120 && g[l[j] as int] == p,
                move_list@ == before + flat_moves(l, i as int, f),
            decreases n - i,
        {
            let sq = self.p_list[p as usize][i];
            assert(sq == l[i as int]);
            assert(on_board(sq as int));
            self.generate_square(p, sq, move_list);
            assert(move_list@ =~= before + flat_moves(l, i + 1, f));
            i += 1;
        }
    }

    fn generate_castling_moves(&self, move_list: &mut MoveList)
        requires
            self.indexes_agree(),
        ensures
            final(move_list)@ == old(move_list)@ + castle_moves(
                self.grid(),
                self.side_view(),
                self.castle_view(),
            ),
    {
        let ghost before = move_list@;
        let ghost g = self.grid();
        let g_ = &self.pieces;
        if self.side == WHITE {
            if (self.castle_perm & WKCA) != 0 && g_[26] == EMPTY && g_[27] == EMPTY
                && !self.sq_attacked(25, BLACK) && !self.sq_attacked(26, BLACK) {
                self.add_quiet_move(Move::new(25, 27, EMPTY, EMPTY, MoveKind::Castle), move_list);
            }
            if (self.castle_perm & WQCA) != 0 && g_[24] == EMPTY && g_[23] == EMPTY && g_[22]
                == EMPTY && !self.sq_attacked(25, BLACK) && !self.sq_attacked(24, BLACK) {
                self.add_quiet_move(Move::new(25, 23, EMPTY, EMPTY, MoveKind::Castle), move_list);
            }
        } else {
            if (self.castle_perm & BKCA) != 0 && g_[96] == EMPTY && g_[97] == EMPTY
                && !self.sq_attacked(95, WHITE) && !self.sq_attacked(96, WHITE) {
                self.add_quiet_move(Move::new(95, 97, EMPTY, EMPTY, MoveKind::Castle), move_list);
            }
            if (self.castle_perm & BQCA) != 0 && g_[94] == EMPTY && g_[93] == EMPTY && g_[92]
                == EMPTY && !self.sq_attacked(95, WHITE) && !self.sq_attacked(94, WHITE) {
                self.add_quiet_move(Move::new(95, 93, EMPTY, EMPTY, MoveKind::Castle), move_list);
            }
        }
        assert(move_list@ =~= before + castle_moves(g, self.side_view(), self.castle_view()));
    }

    /// Appends every pseudo-legal move of the side to move to `move_list`.
    #[verifier::rlimit(40)]
    pub fn generate_all_moves(&self, move_list: &mut MoveList)
        requires
            self.indexes_agree(),
        ensures
            final(move_list)@ == old(move_list)@ + generated_moves(
                self.grid(),
                self.side_view(),
                self.ep_view(),
                self.castle_view(),
            ),
    {
        let ghost before = move_list@;
        let ghost g = self.grid();
        let ghost side = self.side_view();
        let ghost ep = self.ep_view();
        let ghost c = self.castle_view();
        let ghost a1 = moves_of_piece(g, side, ep, own(side, WP, BP));
        let ghost a2 = moves_of_piece(g, side, ep, own(side, WN, BN));
        let ghost a3 = moves_of_piece(g, side, ep, own(side, WK, BK));
        let ghost a4 = moves_of_piece(g, side, ep, own(side, WB, BB));
        let ghost a5 = moves_of_piece(g, side, ep, own(side, WR, BR));
        let ghost a6 = moves_of_piece(g, side, ep, own(side, WQ, BQ));
        let ghost a7 = castle_moves(g, side, c);
        let white = self.side == WHITE;
        self.generate_piece(if white { WP } else { BP }, move_list);
        assert(move_list@ == before + a1);
        self.generate_piece(if white { WN } else { BN }, move_list);
        assert(move_list@ =~= before + (a1 + a2));
        self.generate_piece(if white { WK } else { BK }, move_list);
        assert(move_list@ =~= before + (a1 + a2 + a3));
        self.generate_piece(if white { WB } else { BB }, move_list);
        assert(move_list@ =~= before + (a1 + a2 + a3 + a4));
        self.generate_piece(if white { WR } else { BR }, move_list);
        assert(move_list@ =~= before + (a1 + a2 + a3 + a4 + a5));
        self.generate_piece(if white { WQ } else { BQ }, move_list);
        assert(move_list@ =~= before + (a1 + a2 + a3 + a4 + a5 + a6));
        self.generate_castling_moves(move_list);
        assert(move_list@ =~= before + (a1 + a2 + a3 + a4 + a5 + a6 + a7));
        assert(generated_moves(g, side, ep, c) == a1 + a2 + a3 + a4 + a5 + a6 + a7);
        assert(move_list@ =~= before + generated_moves(g, side, ep, self.castle_view()));
    }
}

} // verus!
