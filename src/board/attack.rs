//! Whether a square is attacked by a side.
use vstd::prelude::*;
use crate::types::{
    colour_of, is_knight, is_king, is_rook_or_queen, is_bishop_or_queen, is_side, on_board,
    piece_colour, EMPTY, OFFBOARD, WHITE, WP, BP, WN, BN, WK, BK, WR, BR, WB, BB, WQ, BQ,
};
use crate::board::{Board, grid_ok};

verus! {

/// The eight knight offsets, numbered 0 to 7.
pub open spec fn knight_dir(k: int) -> int {
    if k == 0 { -8 } else if k == 1 { -19 } else if k == 2 { -21 } else if k == 3 { -12 }
    else if k == 4 { 8 } else if k == 5 { 19 } else if k == 6 { 21 } else { 12 }
}

/// The eight king (and queen) directions, numbered 0 to 7.
pub open spec fn king_dir(k: int) -> int {
    if k == 0 { -1 } else if k == 1 { -10 } else if k == 2 { 1 } else if k == 3 { 10 }
    else if k == 4 { -9 } else if k == 5 { -11 } else if k == 6 { 11 } else { 9 }
}

/// The four rook directions, numbered 0 to 3.
pub open spec fn rook_dir(k: int) -> int {
    king_dir(k)
}

/// The four bishop directions, numbered 0 to 3.
pub open spec fn bishop_dir(k: int) -> int {
    king_dir(k + 4)
}

pub fn knight_dir_of(k: usize) -> (r: i8)
    requires
        k < 8,
    ensures
        r as int == knight_dir(k as int),
{
    if k == 0 { -8 } else if k == 1 { -19 } else if k == 2 { -21 } else if k == 3 { -12 }
    else if k == 4 { 8 } else if k == 5 { 19 } else if k == 6 { 21 } else { 12 }
}

pub fn king_dir_of(k: usize) -> (r: i8)
    requires
        k < 8,
    ensures
        r as int == king_dir(k as int),
{
    if k == 0 { -1 } else if k == 1 { -10 } else if k == 2 { 1 } else if k == 3 { 10 }
    else if k == 4 { -9 } else if k == 5 { -11 } else if k == 6 { 11 } else { 9 }
}

/// What a walk from cell `t` in steps of `dir` meets first: the first cell
/// that is not empty (a piece, or the guard sentinel at the border).
pub open spec fn first_on_ray(g: Seq<u8>, t: int, dir: int) -> u8
    decreases (if dir > 0 { 120 - t } else { t + 1 }),
{
    if t < 0 || t >= 120 || dir == 0 {
        OFFBOARD
    } else if g[t] != EMPTY {
        g[t]
    } else if t + dir < 0 || t + dir >= 120 {
        OFFBOARD
    } else {
        first_on_ray(g, t + dir, dir)
    }
}

/// A pawn of `side` stands where it would capture onto `sq`.
pub open spec fn pawn_attack(g: Seq<u8>, sq: int, side: u8) -> bool {
    if side == WHITE {
        g[sq - 11] == WP || g[sq - 9] == WP
    } else {
        g[sq + 11] == BP || g[sq + 9] == BP
    }
}

pub open spec fn knight_attack(g: Seq<u8>, sq: int, side: u8) -> bool {
    exists|k: int| 0 <= k < 8 && is_knight(#[trigger] g[sq + knight_dir(k)]) && colour_of(
        g[sq + knight_dir(k)],
    ) == side
}

pub open spec fn rook_attack(g: Seq<u8>, sq: int, side: u8) -> bool {
    exists|k: int|
        0 <= k < 4 && is_rook_or_queen(#[trigger] first_on_ray(g, sq + rook_dir(k), rook_dir(k)))
            && colour_of(first_on_ray(g, sq + rook_dir(k), rook_dir(k))) == side
}

pub open spec fn bishop_attack(g: Seq<u8>, sq: int, side: u8) -> bool {
    exists|k: int|
        0 <= k < 4 && is_bishop_or_queen(
            #[trigger] first_on_ray(g, sq + bishop_dir(k), bishop_dir(k)),
        ) && colour_of(first_on_ray(g, sq + bishop_dir(k), bishop_dir(k))) == side
}

pub open spec fn king_attack(g: Seq<u8>, sq: int, side: u8) -> bool {
    exists|k: int| 0 <= k < 8 && is_king(#[trigger] g[sq + king_dir(k)]) && colour_of(
        g[sq + king_dir(k)],
    ) == side
}

/// Square `sq` is attacked by `side`: by a pawn, a knight, a rook or queen
/// along a file or rank, a bishop or queen along a diagonal, or the king.
/// Along a ray only the first piece met counts.
pub open spec fn attacked(g: Seq<u8>, sq: int, side: u8) -> bool {
    pawn_attack(g, sq, side) || knight_attack(g, sq, side) || rook_attack(g, sq, side)
        || bishop_attack(g, sq, side) || king_attack(g, sq, side)
}

/// The first cell that a walk from `start` in steps of `dir` meets that is
/// not empty, read from the grid.
fn walk_ray(g: &Vec<u8>, start: u8, dir: i8) -> (r: u8)
    requires
        grid_ok(g@),
        on_board(start as int - dir as int),
        dir == -1 || dir == 1 || dir == -10 || dir == 10 || dir == -9 || dir == 9 || dir == -11
            || dir == 11,
    ensures
        r == first_on_ray(g@, start as int, dir as int),
{
    let mut t: u8 = start;
    while g[t as usize] == EMPTY
        invariant
            grid_ok(g@),
            0 <= t < 120,
            dir == -1 || dir == 1 || dir == -10 || dir == 10 || dir == -9 || dir == 9 || dir
                == -11 || dir == 11,
            first_on_ray(g@, t as int, dir as int) == first_on_ray(g@, start as int, dir as int),
        decreases (if dir > 0 { 120 - t } else { t + 1 }),
    {
        assert(on_board(t as int));
        t = (t as i16 + dir as i16) as u8;
    }
    g[t as usize]
}

impl Board {
    /// Whether square `sq` is attacked by `side`.
    pub fn sq_attacked(&self, sq: usize, side: u8) -> (r: bool)
        requires
            self.indexes_agree(),
            on_board(sq as int),
            is_side(side),
        ensures
            r == attacked(self.grid(), sq as int, side),
    {
        let g = &self.pieces;
        let ghost gs = g@;
        assert(gs == self.grid());
        // pawns
        if side == WHITE {
            if g[sq - 11] == WP || g[sq - 9] == WP {
                return true;
            }
        } else {
            if g[sq + 11] == BP || g[sq + 9] == BP {
                return true;
            }
        }
        // knights
        let mut k: usize = 0;
        while k < 8
            invariant
                k <= 8,
                gs == g@,
                gs == self.grid(),
                grid_ok(gs),
                on_board(sq as int),
                is_side(side),
                forall|j: int|
                    0 <= j < k ==> !(is_knight(#[trigger] gs[sq + knight_dir(j)]) && colour_of(
                        gs[sq + knight_dir(j)],
                    ) == side),
            decreases 8 - k,
        {
            let t = (sq as i16 + knight_dir_of(k) as i16) as usize;
            let p = g[t];
            if (p == WN || p == BN) && piece_colour(p) == side {
                assert(is_knight(gs[sq + knight_dir(k as int)]));
                return true;
            }
            k += 1;
        }
        // rooks, queens
        let mut k: usize = 0;
        while k < 4
            invariant
                k <= 4,
                gs == g@,
                gs == self.grid(),
                grid_ok(gs),
                on_board(sq as int),
                is_side(side),
                forall|j: int|
                    0 <= j < k ==> !(is_rook_or_queen(
                        #[trigger] first_on_ray(gs, sq + rook_dir(j), rook_dir(j)),
                    ) && colour_of(first_on_ray(gs, sq + rook_dir(j), rook_dir(j))) == side),
            decreases 4 - k,
        {
            let d = king_dir_of(k);
            let p = walk_ray(g, (sq as i16 + d as i16) as u8, d);
            if (p == WR || p == BR || p == WQ || p == BQ) && piece_colour(p) == side {
                assert(is_rook_or_queen(first_on_ray(gs, sq + rook_dir(k as int), rook_dir(k as int))));
                return true;
            }
            k += 1;
        }
        // bishops, queens
        let mut k: usize = 0;
        while k < 4
            invariant
                k <= 4,
                gs == g@,
                gs == self.grid(),
                grid_ok(gs),
                on_board(sq as int),
                is_side(side),
                forall|j: int|
                    0 <= j < k ==> !(is_bishop_or_queen(
                        #[trigger] first_on_ray(gs, sq + bishop_dir(j), bishop_dir(j)),
                    ) && colour_of(first_on_ray(gs, sq + bishop_dir(j), bishop_dir(j))) == side),
            decreases 4 - k,
        {
            let d = king_dir_of(k + 4);
            let p = walk_ray(g, (sq as i16 + d as i16) as u8, d);
            if (p == WB || p == BB || p == WQ || p == BQ) && piece_colour(p) == side {
                assert(is_bishop_or_queen(
                    first_on_ray(gs, sq + bishop_dir(k as int), bishop_dir(k as int)),
                ));
                return true;
            }
            k += 1;
        }
        // king
        let mut k: usize = 0;
        while k < 8
            invariant
                k <= 8,
                gs == g@,
                gs == self.grid(),
                grid_ok(gs),
                on_board(sq as int),
                is_side(side),
                forall|j: int|
                    0 <= j < k ==> !(is_king(#[trigger] gs[sq + king_dir(j)]) && colour_of(
                        gs[sq + king_dir(j)],
                    ) == side),
            decreases 8 - k,
        {
            let t = (sq as i16 + king_dir_of(k) as i16) as usize;
            let p = g[t];
            if (p == WK || p == BK) && piece_colour(p) == side {
                assert(is_king(gs[sq + king_dir(k as int)]));
                return true;
            }
            k += 1;
        }
        false
    }
}

} // verus!
