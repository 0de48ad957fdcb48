use vstd::prelude::*;

use crate::constants::Bitboard;
use crate::constants::Square;

verus! {

/// Square `sq` is marked in the bitboard `bb`.
pub open spec fn bit(bb: u64, sq: u64) -> bool {
    bb & (1u64 << sq) != 0
}

/// The basic facts relating the bitwise operators to `bit`.
pub proof fn lemma_bit_ops()
    by (bit_vector)
    ensures
        forall|a: u64, b: u64, t: u64|
            t < 64 ==> (#[trigger] bit(a | b, t) <==> bit(a, t) || bit(b, t)),
        forall|a: u64, b: u64, t: u64|
            t < 64 ==> (#[trigger] bit(a & b, t) <==> bit(a, t) && bit(b, t)),
        forall|a: u64, t: u64| t < 64 ==> (#[trigger] bit(!a, t) <==> !bit(a, t)),
        forall|s: u64, t: u64| s < 64 && t < 64 ==> (#[trigger] bit(1u64 << s, t) <==> s == t),
        forall|t: u64| t < 64 ==> !bit(0u64, t),
        forall|a: u64, t: u64| t < 64 && #[trigger] bit(a, t) ==> a != 0,
        forall|a: u64, t: u64| t < 64 ==> (#[trigger] bit(a, t) <==> (a >> t) & 1u64 == 1u64),
        forall|a: u64, s: u64, t: u64|
            s < 64 && t < 64 ==> (#[trigger] bit(a & !(1u64 << s), t) <==> bit(a, t) && t != s),
        forall|a: u64, s: u64, t: u64|
            s < 64 && t < 64 ==> (#[trigger] bit(a | (1u64 << s), t) <==> bit(a, t) || t == s),
{
}

/// Masking with a constant can only drop castling-rights flags, and a
/// flag surviving the mask chain was present in every operand.
pub proof fn lemma_rights_masks()
    by (bit_vector)
    ensures
        forall|a: u8, x: u8| #![trigger a & x] (a & x) & !a == 0,
        forall|a: u8, x: u8, y: u8| #![trigger (a & x) & y] ((a & x) & y) & !a == 0,
        forall|a: u8| #[trigger] (a & !a) == 0,
        forall|x: u8, y: u8, z: u8| #![trigger (x & y) & z] ((x & y) & z != 0 ==> (x & z != 0 && y & z != 0)),
{
}

/// The suffixes of two bitboards that agree on every bit from position
/// `k` upward are equal.
proof fn lemma_bit_ext_rec(a: u64, b: u64, k: u64)
    requires
        k <= 64,
        forall|t: u64| k <= t < 64 ==> (bit(a, t) <==> bit(b, t)),
    ensures
        a >> k == b >> k,
    decreases 64 - k,
{
    if k == 64 {
        assert(a >> 64u64 == 0 && b >> 64u64 == 0) by (bit_vector);
    } else {
        lemma_bit_ext_rec(a, b, (k + 1) as u64);
        lemma_bit_ops();
        assert(bit(a, k) <==> bit(b, k));
        assert(((a >> k) & 1u64 == 1u64 <==> (b >> k) & 1u64 == 1u64) ==> (a >> k) & 1u64 == (b
            >> k) & 1u64) by (bit_vector);
        assert((a >> ((k + 1) as u64) == b >> ((k + 1) as u64) && (a >> k) & 1u64 == (b >> k)
            & 1u64 && k < 64) ==> a >> k == b >> k) by (bit_vector);
    }
}

/// Two bitboards with the same marked squares are equal.
pub proof fn lemma_bit_ext(a: u64, b: u64)
    requires
        forall|t: u64| t < 64 ==> (bit(a, t) <==> bit(b, t)),
    ensures
        a == b,
{
    lemma_bit_ext_rec(a, b, 0);
    assert(a >> 0u64 == a && b >> 0u64 == b) by (bit_vector);
}

/// `bb` has exactly one marked square.
pub open spec fn exactly_one_bit(bb: u64) -> bool {
    bb != 0 && bb & ((bb - 1) as u64) == 0
}

/// How a one-bit board behaves: a single square is one bit, two marked
/// squares of a one-bit board coincide, and moving the one bit keeps
/// exactly one bit.
pub proof fn lemma_exactly_one_bit()
    by (bit_vector)
    ensures
        forall|s: u64| s < 64 ==> #[trigger] exactly_one_bit(1u64 << s),
        forall|m: u64, s: u64, t: u64|
            #![trigger bit(m, s), bit(m, t)]
            exactly_one_bit(m) && s < 64 && t < 64 && bit(m, s) && bit(m, t) ==> s == t,
        forall|m: u64, f: u64, t: u64|
            f < 64 && t < 64 && exactly_one_bit(m) && bit(m, f) ==> #[trigger] exactly_one_bit(
                (m & !(1u64 << f)) | (1u64 << t),
            ),
{
}

/// Set a bit at the given square (0-63).
pub fn set_bit(bb: &mut Bitboard, sq: Square)
    requires
        sq < 64,
    ensures
        *final(bb) == *old(bb) | (1u64 << (sq as u64)),
{
    *bb |= 1u64 << sq;
}

/// Clear a bit at the given square (0-63).
pub fn clear_bit(bb: &mut Bitboard, sq: Square)
    requires
        sq < 64,
    ensures
        *final(bb) == *old(bb) & !(1u64 << (sq as u64)),
{
    *bb &= !(1u64 << sq);
}

/// Test if a bit is set at the given square (0-63).
pub fn get_bit(bb: Bitboard, sq: Square) -> (r: bool)
    requires
        sq < 64,
    ensures
        r == bit(bb, sq as u64),
{
    bb & (1u64 << sq) != 0
}

/// Pop the lowest set bit from the bitboard and return its index.
pub fn pop_lsb(bb: &mut Bitboard) -> (r: Option<Square>)
    ensures
        match r {
            None => *old(bb) == 0 && *final(bb) == 0,
            Some(s) => s < 64 && bit(*old(bb), s as u64) && (forall|j: u64|
                j < s ==> !bit(*old(bb), j)) && *final(bb) == *old(bb) & !(1u64 << (s as u64))
                && *final(bb) < *old(bb),
        },
{
    if *bb == 0 {
        None
    } else {
        let x = *bb;
        let s = x.trailing_zeros() as u8;
        proof {
            broadcast use vstd::std_specs::bits::axiom_u64_trailing_zeros;

            let t = vstd::std_specs::bits::u64_trailing_zeros(x) as u64;
            assert(x != 0 ==> t < 64);
            assert((x >> t) & 1u64 == 1u64);
            assert(x << ((64 - t) as u64) == 0);
            assert(x & ((x - 1) as u64) == x & !(1u64 << t) && bit(x, t) && x & !(1u64 << t)
                < x) by (bit_vector)
                requires
                    t < 64,
                    (x >> t) & 1u64 == 1u64,
                    x << ((64 - t) as u64) == 0,
            ;
            lemma_bit_ops();
            assert forall|j: u64| j < t implies !bit(x, j) by {
                assert((x >> j) & 1u64 == 0u64);
            }
        }
        *bb = x & (x - 1);
        Some(s)
    }
}

/// A nonempty bitboard marks some square.
pub proof fn lemma_nonzero_has_bit(x: u64)
    ensures
        x != 0 ==> exists|t: u64| t < 64 && #[trigger] bit(x, t),
{
    if x != 0 {
        broadcast use vstd::std_specs::bits::axiom_u64_trailing_zeros;

        let t = vstd::std_specs::bits::u64_trailing_zeros(x) as u64;
        assert(t < 64);
        assert((x >> t) & 1u64 == 1u64);
        lemma_bit_ops();
        assert(bit(x, t));
    }
}

/// Whether two bitboards mark a common square.
pub fn intersects(a: Bitboard, b: Bitboard) -> (r: bool)
    ensures
        r <==> exists|t: u64| t < 64 && #[trigger] bit(a, t) && bit(b, t),
{
    let r = a & b != 0;
    proof {
        lemma_bit_ops();
        lemma_nonzero_has_bit(a & b);
        if a & b != 0 {
            let t = choose|t: u64| t < 64 && #[trigger] bit(a & b, t);
            assert(bit(a, t) && bit(b, t));
        } else {
            assert forall|t: u64| t < 64 && #[trigger] bit(a, t) implies !bit(b, t) by {
                assert(!bit(a & b, t));
            }
        }
    }
    r
}

/// The index of the lowest set bit of a nonempty bitboard.
pub fn lsb(bb: Bitboard) -> (r: Square)
    requires
        bb != 0,
    ensures
        r < 64,
        bit(bb, r as u64),
        forall|j: u64| j < r ==> !bit(bb, j),
        r as u32 == vstd::std_specs::bits::u64_trailing_zeros(bb),
{
    let s = bb.trailing_zeros() as u8;
    proof {
        broadcast use vstd::std_specs::bits::axiom_u64_trailing_zeros;

        let t = vstd::std_specs::bits::u64_trailing_zeros(bb) as u64;
        assert(bb != 0 ==> t < 64);
        assert((bb >> t) & 1u64 == 1u64);
        lemma_bit_ops();
        assert forall|j: u64| j < t implies !bit(bb, j) by {
            assert((bb >> j) & 1u64 == 0u64);
        }
    }
    s
}

/// The index of the highest set bit of a nonempty bitboard.
pub fn msb(bb: Bitboard) -> (r: Square)
    requires
        bb != 0,
    ensures
        r < 64,
        bit(bb, r as u64),
        forall|j: u64| r < j < 64 ==> !bit(bb, j),
{
    let s = 63 - bb.leading_zeros() as u8;
    proof {
        broadcast use vstd::std_specs::bits::axiom_u64_leading_zeros;

        let lz = vstd::std_specs::bits::u64_leading_zeros(bb);
        assert(bb != 0 ==> 0 <= lz < 64);
        let r: u64 = (63 - lz) as u64;
        assert((bb >> r) & 1u64 != 0u64);
        lemma_bit_ops();
        assert((bb >> r) & 1u64 == 1u64) by (bit_vector)
            requires
                (bb >> r) & 1u64 != 0u64,
        ;
        assert(bit(bb, r));
        assert forall|j: u64| r < j < 64 implies !bit(bb, j) by {
            assert((bb >> j) & 1u64 == 0u64);
        }
    }
    s
}

} // verus!
