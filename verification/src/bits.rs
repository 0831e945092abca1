//! Bit-level building blocks: the field masks of the index format, parity,
//! and big-endian byte encodings of 24- and 32-bit values.

use vstd::prelude::*;

verus! {

/// Only the low 25 bits of a register value are significant.
pub const MASK25: u32 = 0x1FF_FFFF;

/// Records are grouped by the low 19 bits of their state value.
pub const MASK19: u32 = 0x7_FFFF;

/// Only the low 17 bits of a step counter are significant.
pub const MASK17: u32 = 0x1_FFFF;

/// Number of distinct bucket keys (2^19).
pub const NBUCKETS: usize = 0x8_0000;

/// Steps generated per channel (2^17).
pub const STEPS: u32 = 0x2_0000;

/// Population count of a 32-bit value, taken modulo 2.
pub open spec fn parity(x: u32) -> u32
    decreases x,
{
    if x == 0 {
        0
    } else {
        (x % 2) ^ parity(x / 2)
    }
}

/// The parity of any value is a single bit.
pub proof fn lemma_parity_bound(x: u32)
    ensures
        parity(x) <= 1,
    decreases x,
{
    if x != 0 {
        lemma_parity_bound(x / 2);
        let a = x % 2;
        let b = parity(x / 2);
        assert(a <= 1 && b <= 1 ==> (a ^ b) <= 1) by (bit_vector);
    }
}

/// Computes the parity (population count modulo 2) of `x`.
pub fn parity32(x: u32) -> (p: u32)
    ensures
        p == parity(x),
        p <= 1,
{
    let mut v: u32 = x;
    let mut p: u32 = 0;
    proof {
        let b = parity(x);
        assert(0u32 ^ b == b) by (bit_vector);
    }
    while v != 0
        invariant
            parity(x) == p ^ parity(v),
        decreases v,
    {
        proof {
            let a = v % 2;
            let b = parity(v / 2);
            assert((p ^ a) ^ b == p ^ (a ^ b)) by (bit_vector);
        }
        p = p ^ (v % 2);
        v = v / 2;
    }
    proof {
        assert(parity(0u32) == 0);
        assert(p ^ 0 == p) by (bit_vector);
        lemma_parity_bound(x);
    }
    p
}

/// Masking a state value to its significant 25 bits twice is a no-op.
pub proof fn lemma_mask25_idempotent(x: u32)
    ensures
        (x & MASK25) & MASK25 == x & MASK25,
{
    assert((x & 0x1FF_FFFFu32) & 0x1FF_FFFF == x & 0x1FF_FFFF) by (bit_vector);
}

/// Masking a step index to its significant 17 bits twice is a no-op.
pub proof fn lemma_mask17_idempotent(x: u32)
    ensures
        (x & MASK17) & MASK17 == x & MASK17,
{
    assert((x & 0x1_FFFFu32) & 0x1_FFFF == x & 0x1_FFFF) by (bit_vector);
}

/// The four bytes of `x` in big-endian order.
pub open spec fn be4(x: u32) -> Seq<u8> {
    seq![(x >> 24) as u8, (x >> 16) as u8, (x >> 8) as u8, x as u8]
}

/// The low three bytes of `x` in big-endian order.
pub open spec fn be3(x: u32) -> Seq<u8> {
    seq![(x >> 16) as u8, (x >> 8) as u8, x as u8]
}

/// The value read from four bytes in big-endian order.
pub open spec fn u32_of_be4(b0: u8, b1: u8, b2: u8, b3: u8) -> u32 {
    ((b0 as u32) << 24) | ((b1 as u32) << 16) | ((b2 as u32) << 8) | (b3 as u32)
}

/// The value read from three bytes in big-endian order.
pub open spec fn u32_of_be3(b0: u8, b1: u8, b2: u8) -> u32 {
    ((b0 as u32) << 16) | ((b1 as u32) << 8) | (b2 as u32)
}

/// Reading back the four big-endian bytes of a value recovers it.
pub proof fn lemma_be4_roundtrip(x: u32)
    ensures
        u32_of_be4(be4(x)[0], be4(x)[1], be4(x)[2], be4(x)[3]) == x,
{
    assert((((x >> 24) as u8 as u32) << 24) | (((x >> 16) as u8 as u32) << 16) | (((x >> 8)
        as u8 as u32) << 8) | (x as u8 as u32) == x) by (bit_vector);
}

/// Reading back the three big-endian bytes of a 24-bit value recovers it.
pub proof fn lemma_be3_roundtrip(x: u32)
    requires
        x < 0x100_0000,
    ensures
        u32_of_be3(be3(x)[0], be3(x)[1], be3(x)[2]) == x,
{
    assert(x < 0x100_0000 ==> (((x >> 16) as u8 as u32) << 16) | (((x >> 8) as u8 as u32)
        << 8) | (x as u8 as u32) == x) by (bit_vector);
}

/// A value read from three bytes is below 2^24.
pub proof fn lemma_u32_of_be3_bound(b0: u8, b1: u8, b2: u8)
    ensures
        u32_of_be3(b0, b1, b2) < 0x100_0000,
{
    assert(((b0 as u32) << 16) | ((b1 as u32) << 8) | (b2 as u32) < 0x100_0000)
        by (bit_vector);
}

/// A bucket descriptor packs a record count of at most 31 above a 19-bit
/// byte offset; both fields decode exactly and the packed value fits in
/// three bytes.
pub proof fn lemma_descriptor_fields(len: u32, off: u32)
    requires
        len <= 31,
        off < 0x8_0000,
    ensures
        ((len << 19) | off) >> 19 == len,
        ((len << 19) | off) & MASK19 == off,
        ((len << 19) | off) < 0x100_0000,
{
    assert(len <= 31 && off < 0x8_0000 ==> ((len << 19) | off) >> 19 == len && ((len << 19)
        | off) & 0x7_FFFF == off && ((len << 19) | off) < 0x100_0000) by (bit_vector);
}

} // verus!
