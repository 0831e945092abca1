//! Big-endian reads and writes of index-file fields, done by the `bytes`
//! crate. Each wrapper's contract states exactly which bytes the call
//! consumes or appends.

use vstd::prelude::*;
use crate::bits::{be3, be4, u32_of_be3, u32_of_be4};

verus! {

/// Relies on `bytes::Buf::get_u32` for `&[u8]`: returns the first four
/// bytes of the slice read as one big-endian unsigned 32-bit integer.
#[verifier::external_body]
pub(crate) fn read_u32_be(b: &[u8]) -> (r: u32)
    requires
        b@.len() >= 4,
    ensures
        r == u32_of_be4(b@[0], b@[1], b@[2], b@[3]),
{
    let mut s: &[u8] = b;
    bytes::Buf::get_u32(&mut s)
}

/// Relies on `bytes::Buf::get_uint` for `&[u8]` with a width of three:
/// returns the first three bytes of the slice read as one big-endian
/// unsigned integer.
#[verifier::external_body]
pub(crate) fn read_u24_be(b: &[u8]) -> (r: u32)
    requires
        b@.len() >= 3,
    ensures
        r == u32_of_be3(b@[0], b@[1], b@[2]),
{
    let mut s: &[u8] = b;
    bytes::Buf::get_uint(&mut s, 3) as u32
}

/// Relies on `bytes::BufMut::put_u32` for `Vec<u8>`: appends the four
/// big-endian bytes of `x` to the buffer.
#[verifier::external_body]
pub(crate) fn put_u32_be(v: &mut Vec<u8>, x: u32)
    requires
        old(v)@.len() + 4 <= 0x7FFF_0000,
    ensures
        final(v)@ == old(v)@ + be4(x),
{
    bytes::BufMut::put_u32(v, x)
}

/// Relies on `bytes::BufMut::put_uint` for `Vec<u8>` with a width of
/// three: appends the three low big-endian bytes of `x` to the buffer.
#[verifier::external_body]
pub(crate) fn put_u24_be(v: &mut Vec<u8>, x: u32)
    requires
        old(v)@.len() + 3 <= 0x7FFF_0000,
    ensures
        final(v)@ == old(v)@ + be3(x),
{
    bytes::BufMut::put_uint(v, x as u64, 3)
}

} // verus!
