use vstd::prelude::*;

use crate::constants::Bitboard;
use crate::constants::Square;
use crate::initialize_board::Board;
use crate::utils::bit;
use crate::utils::get_bit;
use crate::utils::lemma_bit_ops;
use crate::utils::set_bit;

verus! {

/// A knight standing on square `a` attacks square `b`.
pub open spec fn knight_jump(a: u64, b: u64) -> bool {
    a < 64 && b < 64 && {
        let fa = a % 8;
        let ra = a / 8;
        let fb = b % 8;
        let rb = b / 8;
        ||| (fb == fa + 1 && rb == ra + 2)
        ||| (fb == fa + 2 && rb == ra + 1)
        ||| (fb + 1 == fa && rb == ra + 2)
        ||| (fb + 2 == fa && rb == ra + 1)
        ||| (fb == fa + 1 && rb + 2 == ra)
        ||| (fb == fa + 2 && rb + 1 == ra)
        ||| (fb + 1 == fa && rb + 2 == ra)
        ||| (fb + 2 == fa && rb + 1 == ra)
    }
}

/// A king standing on square `a` could step to square `b`.
pub open spec fn king_step(a: u64, b: u64) -> bool {
    a < 64 && b < 64 && a != b && {
        let fa = a % 8;
        let ra = a / 8;
        let fb = b % 8;
        let rb = b / 8;
        fa <= fb + 1 && fb <= fa + 1 && ra <= rb + 1 && rb <= ra + 1
    }
}

/// The set of squares a knight on `sq` attacks, ignoring occupancy.
pub fn knight_attacks(sq: Square) -> (r: Bitboard)
    requires
        sq < 64,
    ensures
        forall|t: u64| t < 64 ==> (#[trigger] bit(r, t) <==> knight_jump(sq as u64, t)),
{
    let b: u64 = 1u64 << sq;
    let r = ((b << 17) & 0xfefefefefefefefe) | ((b << 15) & 0x7f7f7f7f7f7f7f7f) | ((b << 10)
        & 0xfcfcfcfcfcfcfcfc) | ((b << 6) & 0x3f3f3f3f3f3f3f3f) | ((b >> 6) & 0xfcfcfcfcfcfcfcfc) | (
    (b >> 10) & 0x3f3f3f3f3f3f3f3f) | ((b >> 15) & 0xfefefefefefefefe) | ((b >> 17)
        & 0x7f7f7f7f7f7f7f7f);
    proof {
        let s = sq as u64;
        assert(forall|t: u64| t < 64 ==> (#[trigger] bit(r, t) <==> knight_jump(s, t)))
            by (bit_vector)
            requires
                s < 64,
                r == (((1u64 << s) << 17) & 0xfefefefefefefefe) | (((1u64 << s) << 15)
                    & 0x7f7f7f7f7f7f7f7f) | (((1u64 << s) << 10) & 0xfcfcfcfcfcfcfcfc) | (((1u64
                    << s) << 6) & 0x3f3f3f3f3f3f3f3f) | (((1u64 << s) >> 6) & 0xfcfcfcfcfcfcfcfc)
                    | (((1u64 << s) >> 10) & 0x3f3f3f3f3f3f3f3f) | (((1u64 << s) >> 15)
                    & 0xfefefefefefefefe) | (((1u64 << s) >> 17) & 0x7f7f7f7f7f7f7f7f),
        ;
    }
    r
}

/// The set of squares a king on `sq` could step to, ignoring occupancy.
pub fn king_attacks(sq: Square) -> (r: Bitboard)
    requires
        sq < 64,
    ensures
        forall|t: u64| t < 64 ==> (#[trigger] bit(r, t) <==> king_step(sq as u64, t)),
{
    let b: u64 = 1u64 << sq;
    let r = (b << 8) | (b >> 8) | ((b << 1) & 0xfefefefefefefefe) | ((b >> 1)
        & 0x7f7f7f7f7f7f7f7f) | ((b << 9) & 0xfefefefefefefefe) | ((b << 7) & 0x7f7f7f7f7f7f7f7f)
        | ((b >> 7) & 0xfefefefefefefefe) | ((b >> 9) & 0x7f7f7f7f7f7f7f7f);
    proof {
        let s = sq as u64;
        assert(forall|t: u64| t < 64 ==> (#[trigger] bit(r, t) <==> king_step(s, t)))
            by (bit_vector)
            requires
                s < 64,
                r == ((1u64 << s) << 8) | ((1u64 << s) >> 8) | (((1u64 << s) << 1)
                    & 0xfefefefefefefefe) | (((1u64 << s) >> 1) & 0x7f7f7f7f7f7f7f7f) | (((1u64
                    << s) << 9) & 0xfefefefefefefefe) | (((1u64 << s) << 7) & 0x7f7f7f7f7f7f7f7f)
                    | (((1u64 << s) >> 7) & 0xfefefefefefefefe) | (((1u64 << s) >> 9)
                    & 0x7f7f7f7f7f7f7f7f),
        ;
    }
    r
}

/// `d` is one of the eight ray directions: file, rank, diagonal and
/// anti-diagonal unit steps in the linear square index.
pub open spec fn ray_dir_ok(d: int) -> bool {
    d == 1 || d == -1 || d == 8 || d == -8 || d == 7 || d == -7 || d == 9 || d == -9
}

/// One more step from square `a` in direction `d` stays on the board:
/// it neither leaves the index range nor jumps by more than two files,
/// which would mean wrapping around a board edge.
pub open spec fn ray_step_ok(a: int, d: int) -> bool {
    0 <= a + d < 64 && a % 8 <= (a + d) % 8 + 2 && (a + d) % 8 <= a % 8 + 2
}

/// Walking from square `a` in direction `d`, the walk marks square `t`:
/// the walk advances while steps stay on the board, marks each square
/// reached, and stops just after marking an occupied square.
pub open spec fn ray_hits(a: int, d: int, occ: u64, t: int) -> bool
    decreases (if d > 0 { 64 - a } else { 64 + a }),
{
    d != 0 && ray_step_ok(a, d) && (t == a + d || (!bit(occ, (a + d) as u64) && ray_hits(
        a + d,
        d,
        occ,
        t,
    )))
}

/// Squares reached from `s` along either diagonal, stopping at blockers.
pub open spec fn diag_reach(occ: u64, s: int, t: int) -> bool {
    ray_hits(s, 9, occ, t) || ray_hits(s, -9, occ, t) || ray_hits(s, 7, occ, t) || ray_hits(
        s,
        -7,
        occ,
        t,
    )
}

/// Squares reached from `s` along its rank or file, stopping at blockers.
pub open spec fn line_reach(occ: u64, s: int, t: int) -> bool {
    ray_hits(s, 1, occ, t) || ray_hits(s, -1, occ, t) || ray_hits(s, 8, occ, t) || ray_hits(
        s,
        -8,
        occ,
        t,
    )
}

impl Board {
    /// Walk one ray from `sq` in direction `direction` until blocked or
    /// off the board; the blocker itself is included in the result.
    pub fn ray_attack(&self, sq: i16, direction: i8, occupied: Bitboard) -> (r: Bitboard)
        requires
            0 <= sq < 64,
            ray_dir_ok(direction as int),
        ensures
            forall|t: u64|
                t < 64 ==> (#[trigger] bit(r, t) <==> ray_hits(
                    sq as int,
                    direction as int,
                    occupied,
                    t as int,
                )),
    {
        let d = direction as i16;
        let ghost di = direction as int;
        let mut attacks: Bitboard = 0;
        let mut cur: i16 = sq;
        proof {
            lemma_bit_ops();
        }
        loop
            invariant
                0 <= cur < 64,
                d == di,
                ray_dir_ok(di),
                forall|t: u64|
                    t < 64 ==> (ray_hits(sq as int, di, occupied, t as int) <==> #[trigger] bit(
                        attacks,
                        t,
                    ) || ray_hits(cur as int, di, occupied, t as int)),
                forall|t: u64|
                    t < 64 && #[trigger] bit(attacks, t) ==> ray_hits(
                        sq as int,
                        di,
                        occupied,
                        t as int,
                    ),
            ensures
                forall|t: u64|
                    t < 64 ==> (#[trigger] bit(attacks, t) <==> ray_hits(
                        sq as int,
                        di,
                        occupied,
                        t as int,
                    )),
            decreases (if di > 0 { 64 - cur as int } else { 64 + cur as int }),
        {
            let prev_file = cur % 8;
            let nxt = cur + d;
            if nxt < 0 || nxt >= 64 {
                proof {
                    assert(!ray_step_ok(cur as int, di));
                }
                break ;
            }
            let new_file = nxt % 8;
            let diff = prev_file - new_file;
            if diff > 2 || diff < -2 {
                proof {
                    assert(!ray_step_ok(cur as int, di));
                }
                break ;
            }
            proof {
                assert(ray_step_ok(cur as int, di));
            }
            let ghost before = attacks;
            set_bit(&mut attacks, nxt as u8);
            proof {
                lemma_bit_ops();
                assert(cur as int + di == nxt as int);
                assert forall|t: u64| t < 64 implies (#[trigger] bit(attacks, t) <==> bit(
                    before,
                    t,
                ) || t == nxt as u64) by {
                    assert(bit(before | (1u64 << (nxt as u8 as u64)), t) <==> bit(before, t) || bit(
                        1u64 << (nxt as u8 as u64),
                        t,
                    ));
                }
                assert forall|t: u64| t < 64 implies (ray_hits(cur as int, di, occupied, t as int)
                    <==> (t == nxt as u64 || (!bit(occupied, nxt as u64) && ray_hits(
                    nxt as int,
                    di,
                    occupied,
                    t as int,
                )))) by {
                    assert(ray_hits(cur as int, di, occupied, t as int) == (ray_step_ok(
                        cur as int,
                        di,
                    ) && (t as int == cur as int + di || (!bit(occupied, (cur as int + di) as u64)
                        && ray_hits(cur as int + di, di, occupied, t as int)))));
                }
            }
            if get_bit(occupied, nxt as u8) {
                proof {
                    assert forall|t: u64| t < 64 implies (ray_hits(sq as int, di, occupied, t as int)
                        <==> #[trigger] bit(attacks, t) || ray_hits(
                        cur as int,
                        di,
                        occupied,
                        t as int,
                    )) by {
                        assert(ray_hits(sq as int, di, occupied, t as int) <==> bit(before, t)
                            || ray_hits(cur as int, di, occupied, t as int));
                    }
                }
                break ;
            }
            proof {
                assert forall|t: u64| t < 64 implies (ray_hits(sq as int, di, occupied, t as int)
                    <==> #[trigger] bit(attacks, t) || ray_hits(nxt as int, di, occupied, t as int)) by {
                    assert(ray_hits(sq as int, di, occupied, t as int) <==> bit(before, t)
                        || ray_hits(cur as int, di, occupied, t as int));
                    assert(bit(attacks, t) <==> bit(before, t) || t == nxt as u64);
                    assert(ray_hits(cur as int, di, occupied, t as int) <==> (t == nxt as u64
                        || ray_hits(nxt as int, di, occupied, t as int)));
                }
            }
            cur = nxt;
        }
        attacks
    }

    /// Ray attacks along both directions of the north-east diagonal.
    pub fn diagonal_attacks(&self, sq: Square, occupied: Bitboard) -> (r: Bitboard)
        requires
            sq < 64,
        ensures
            forall|t: u64|
                t < 64 ==> (#[trigger] bit(r, t) <==> ray_hits(sq as int, 9, occupied, t as int)
                    || ray_hits(sq as int, -9, occupied, t as int)),
    {
        let r = self.ray_attack(sq as i16, 9, occupied) | self.ray_attack(sq as i16, -9, occupied);
        proof {
            lemma_bit_ops();
        }
        r
    }

    /// Ray attacks along both directions of the north-west diagonal.
    pub fn antidiagonal_attacks(&self, sq: Square, occupied: Bitboard) -> (r: Bitboard)
        requires
            sq < 64,
        ensures
            forall|t: u64|
                t < 64 ==> (#[trigger] bit(r, t) <==> ray_hits(sq as int, 7, occupied, t as int)
                    || ray_hits(sq as int, -7, occupied, t as int)),
    {
        let r = self.ray_attack(sq as i16, 7, occupied) | self.ray_attack(sq as i16, -7, occupied);
        proof {
            lemma_bit_ops();
        }
        r
    }

    /// Ray attacks east and west along the rank.
    pub fn rank_attacks(&self, sq: Square, occupied: Bitboard) -> (r: Bitboard)
        requires
            sq < 64,
        ensures
            forall|t: u64|
                t < 64 ==> (#[trigger] bit(r, t) <==> ray_hits(sq as int, 1, occupied, t as int)
                    || ray_hits(sq as int, -1, occupied, t as int)),
    {
        let r = self.ray_attack(sq as i16, 1, occupied) | self.ray_attack(sq as i16, -1, occupied);
        proof {
            lemma_bit_ops();
        }
        r
    }

    /// Ray attacks north and south along the file.
    pub fn file_attacks(&self, sq: Square, occupied: Bitboard) -> (r: Bitboard)
        requires
            sq < 64,
        ensures
            forall|t: u64|
                t < 64 ==> (#[trigger] bit(r, t) <==> ray_hits(sq as int, 8, occupied, t as int)
                    || ray_hits(sq as int, -8, occupied, t as int)),
    {
        let r = self.ray_attack(sq as i16, 8, occupied) | self.ray_attack(sq as i16, -8, occupied);
        proof {
            lemma_bit_ops();
        }
        r
    }

    /// The squares a bishop on `sq` attacks under the given occupancy.
    pub fn bishop_attacks(&self, sq: Square, occupied: Bitboard) -> (r: Bitboard)
        requires
            sq < 64,
        ensures
            forall|t: u64|
                t < 64 ==> (#[trigger] bit(r, t) <==> diag_reach(occupied, sq as int, t as int)),
    {
        let r = self.diagonal_attacks(sq, occupied) | self.antidiagonal_attacks(sq, occupied);
        proof {
            lemma_bit_ops();
        }
        r
    }

    /// The squares a rook on `sq` attacks under the given occupancy.
    pub fn rook_attacks(&self, sq: Square, occupied: Bitboard) -> (r: Bitboard)
        requires
            sq < 64,
        ensures
            forall|t: u64|
                t < 64 ==> (#[trigger] bit(r, t) <==> line_reach(occupied, sq as int, t as int)),
    {
        let r = self.rank_attacks(sq, occupied) | self.file_attacks(sq, occupied);
        proof {
            lemma_bit_ops();
        }
        r
    }

    /// The squares a queen on `sq` attacks under the given occupancy.
    pub fn queen_attacks(&self, sq: Square, occupied: Bitboard) -> (r: Bitboard)
        requires
            sq < 64,
        ensures
            forall|t: u64|
                t < 64 ==> (#[trigger] bit(r, t) <==> diag_reach(occupied, sq as int, t as int)
                    || line_reach(occupied, sq as int, t as int)),
    {
        let r = self.bishop_attacks(sq, occupied) | self.rook_attacks(sq, occupied);
        proof {
            lemma_bit_ops();
        }
        r
    }
}

} // verus!
