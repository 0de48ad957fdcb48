use vstd::prelude::*;

use crate::constants::Bitboard;
use crate::utils::bit;

verus! {

/// Directions for pawn pushes, as offsets in the linear square index.
pub const NORTH: i8 = 8;

pub const SOUTH: i8 = -8;

pub const NORTH_WEST: i8 = 7;

pub const NORTH_EAST: i8 = 9;

pub const SOUTH_WEST: i8 = -9;

pub const SOUTH_EAST: i8 = -7;

/// Mask of every square not on file A.
pub const NOT_A_FILE: Bitboard = 0xfefefefefefefefe;

/// Mask of every square not on file H.
pub const NOT_H_FILE: Bitboard = 0x7f7f7f7f7f7f7f7f;

/// A raw shift of the whole board by a direction offset; wraps at the
/// board edge are not masked here.
pub open spec fn spec_shift(bb: u64, d: int) -> u64 {
    if d >= 0 {
        bb << d
    } else {
        bb >> -d
    }
}

/// Shift that moves every marked square by `dir` steps of the linear
/// index (positive towards rank 8). Squares pushed past bit 63 or bit 0
/// fall off; file wraps are not masked (see the masked shifts below).
pub fn shift(bb: Bitboard, dir: i8) -> (r: Bitboard)
    requires
        -64 < dir < 64,
    ensures
        r == spec_shift(bb, dir as int),
{
    if dir >= 0 {
        bb << dir as u32
    } else {
        bb >> (-dir) as u32
    }
}

/// Move every marked square one rank up and one file down, dropping
/// squares that would wrap off file A.
pub fn shift_north_west(bb: Bitboard) -> (r: Bitboard)
    ensures
        forall|t: u64| t < 64 ==> (#[trigger] bit(r, t) <==> t >= 7 && t % 8 != 7 && bit(bb, (t - 7) as u64)),
{
    let r = (bb << 7) & NOT_H_FILE;
    proof {
        assert(forall|t: u64|
            t < 64 ==> (#[trigger] bit((bb << 7) & 0x7f7f7f7f7f7f7f7fu64, t) <==> t >= 7 && t % 8
                != 7 && bit(bb, (t - 7) as u64))) by (bit_vector);
    }
    r
}

/// Move every marked square one rank up and one file up, dropping
/// squares that would wrap off file H.
pub fn shift_north_east(bb: Bitboard) -> (r: Bitboard)
    ensures
        forall|t: u64| t < 64 ==> (#[trigger] bit(r, t) <==> t >= 9 && t % 8 != 0 && bit(bb, (t - 9) as u64)),
{
    let r = (bb << 9) & NOT_A_FILE;
    proof {
        assert(forall|t: u64|
            t < 64 ==> (#[trigger] bit((bb << 9) & 0xfefefefefefefefeu64, t) <==> t >= 9 && t % 8
                != 0 && bit(bb, (t - 9) as u64))) by (bit_vector);
    }
    r
}

/// Move every marked square one rank down and one file down, dropping
/// squares that would wrap off file A.
pub fn shift_south_west(bb: Bitboard) -> (r: Bitboard)
    ensures
        forall|t: u64| t < 64 ==> (#[trigger] bit(r, t) <==> t + 9 < 64 && t % 8 != 7 && bit(bb, (t + 9) as u64)),
{
    let r = (bb >> 9) & NOT_H_FILE;
    proof {
        assert(forall|t: u64|
            t < 64 ==> (#[trigger] bit((bb >> 9) & 0x7f7f7f7f7f7f7f7fu64, t) <==> t + 9 < 64 && t
                % 8 != 7 && bit(bb, (t + 9) as u64))) by (bit_vector);
    }
    r
}

/// Move every marked square one rank down and one file up, dropping
/// squares that would wrap off file H.
pub fn shift_south_east(bb: Bitboard) -> (r: Bitboard)
    ensures
        forall|t: u64| t < 64 ==> (#[trigger] bit(r, t) <==> t + 7 < 64 && t % 8 != 0 && bit(bb, (t + 7) as u64)),
{
    let r = (bb >> 7) & NOT_A_FILE;
    proof {
        assert(forall|t: u64|
            t < 64 ==> (#[trigger] bit((bb >> 7) & 0xfefefefefefefefeu64, t) <==> t + 7 < 64 && t
                % 8 != 0 && bit(bb, (t + 7) as u64))) by (bit_vector);
    }
    r
}

} // verus!
