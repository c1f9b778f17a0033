//! Zobrist constants: one fixed pseudo-random 64-bit value per feature of a
//! position, produced by an xorshift generator from the feature's number.
use vstd::prelude::*;
use crate::types::is_piece;

verus! {

pub const KEY_SEED: u64 = 0x9E3779B97F4A7C15;

/// Number of the side-to-move feature; castling masks follow it.
pub const SIDE_FEATURE: u64 = 1560;

/// One xorshift step.
pub open spec fn mix(x: u64) -> u64 {
    let a = x ^ (x << 13u64);
    let b = a ^ (a >> 7u64);
    b ^ (b << 17u64)
}

/// The constant of feature number `i`.
pub open spec fn key_constant(i: u64) -> u64 {
    mix(mix(mix(KEY_SEED ^ (i + 1) as u64)))
}

/// The constant of a piece identity (or `EMPTY`, for an en-passant target) on a cell.
pub open spec fn piece_key(p: u8, sq: int) -> u64 {
    key_constant((p as int * 120 + sq) as u64)
}

pub open spec fn side_key() -> u64 {
    key_constant(SIDE_FEATURE)
}

pub open spec fn castle_key(perm: u8) -> u64 {
    key_constant((SIDE_FEATURE + 1 + perm) as u64)
}

/// What a cell adds to the key: its piece's constant, or nothing.
pub open spec fn cell_key(p: u8, sq: int) -> u64 {
    if is_piece(p) {
        piece_key(p, sq)
    } else {
        0
    }
}

fn mix_step(x: u64) -> (r: u64)
    ensures
        r == mix(x),
{
    let a = x ^ (x << 13u64);
    let b = a ^ (a >> 7u64);
    b ^ (b << 17u64)
}

fn constant(i: u64) -> (r: u64)
    requires
        i < 2000,
    ensures
        r == key_constant(i),
{
    mix_step(mix_step(mix_step(KEY_SEED ^ (i + 1))))
}

pub fn piece_key_of(p: u8, sq: u8) -> (r: u64)
    requires
        p <= 12,
        sq < 120,
    ensures
        r == piece_key(p, sq as int),
{
    constant(p as u64 * 120 + sq as u64)
}

pub fn side_key_of() -> (r: u64)
    ensures
        r == side_key(),
{
    constant(SIDE_FEATURE)
}

pub fn castle_key_of(perm: u8) -> (r: u64)
    requires
        perm < 16,
    ensures
        r == castle_key(perm),
{
    constant(SIDE_FEATURE + 1 + perm as u64)
}

pub fn cell_key_of(p: u8, sq: u8) -> (r: u64)
    requires
        sq < 120,
    ensures
        r == cell_key(p, sq as int),
{
    if 1 <= p && p <= 12 {
        piece_key_of(p, sq)
    } else {
        0
    }
}

} // verus!
