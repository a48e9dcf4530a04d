//! Little-endian integers read out of a byte buffer.
use byteorder::{ByteOrder, LittleEndian};
use vstd::prelude::*;

verus! {

/// The 16-bit value stored least significant byte first at `pos`.
pub open spec fn u16_le(d: Seq<u8>, pos: int) -> u16 {
    (d[pos] as int + 256 * d[pos + 1]) as u16
}

/// The 32-bit value stored least significant byte first at `pos`.
pub open spec fn u32_le(d: Seq<u8>, pos: int) -> u32 {
    (d[pos] as int + 256 * d[pos + 1] + 65536 * d[pos + 2] + 16777216 * d[pos + 3]) as u32
}

/// Relies on byteorder's `LittleEndian::read_u16`, which is
/// `u16::from_le_bytes` of the first two bytes of the slice it is given.
#[verifier::external_body]
pub(crate) fn read_u16_le(data: &[u8], pos: usize) -> (r: u16)
    requires
        pos + 2 <= data@.len(),
    ensures
        r == u16_le(data@, pos as int),
{
    LittleEndian::read_u16(&data[pos..])
}

/// Relies on byteorder's `LittleEndian::read_u32`, which is
/// `u32::from_le_bytes` of the first four bytes of the slice it is given.
#[verifier::external_body]
pub(crate) fn read_u32_le(data: &[u8], pos: usize) -> (r: u32)
    requires
        pos + 4 <= data@.len(),
    ensures
        r == u32_le(data@, pos as int),
{
    LittleEndian::read_u32(&data[pos..])
}

} // verus!
