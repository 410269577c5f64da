//! Big-endian integers in a byte buffer, read and written through byteorder.
use byteorder::{ByteOrder, NetworkEndian};
use vstd::prelude::*;

verus! {

/// The 16-bit value of two bytes in network order.
pub open spec fn be16(hi: u8, lo: u8) -> u16 {
    (hi as int * 256 + lo as int) as u16
}

/// The 32-bit value of four bytes in network order.
pub open spec fn be32(b0: u8, b1: u8, b2: u8, b3: u8) -> u32 {
    (b0 as int * 0x1000000 + b1 as int * 0x10000 + b2 as int * 0x100 + b3 as int) as u32
}

/// Relies on byteorder's `NetworkEndian::read_u16`: the first two bytes of the
/// slice, the most significant first.
#[verifier::external_body]
pub(crate) fn read_u16_at(buf: &[u8], pos: usize) -> (r: u16)
    requires
        pos + 2 <= buf@.len(),
    ensures
        r == be16(buf@[pos as int], buf@[pos + 1]),
{
    NetworkEndian::read_u16(&buf[pos..])
}

/// Relies on byteorder's `NetworkEndian::read_u32`: the first four bytes of the
/// slice, the most significant first.
#[verifier::external_body]
pub(crate) fn read_u32_at(buf: &[u8], pos: usize) -> (r: u32)
    requires
        pos + 4 <= buf@.len(),
    ensures
        r == be32(buf@[pos as int], buf@[pos + 1], buf@[pos + 2], buf@[pos + 3]),
{
    NetworkEndian::read_u32(&buf[pos..])
}

/// Relies on byteorder's `NetworkEndian::write_u16`: writes the two bytes of
/// `n`, the most significant first, at the start of the slice and nothing else.
#[verifier::external_body]
pub(crate) fn write_u16_at(buf: &mut [u8; 512], pos: usize, n: u16)
    requires
        pos + 2 <= 512,
    ensures
        final(buf)@ == old(buf)@.update(pos as int, (n / 256) as u8).update(pos + 1, (n % 256) as u8),
{
    NetworkEndian::write_u16(&mut buf[pos..], n)
}

} // verus!
