//! Little-endian integer fields of the binary record format.

use vstd::prelude::*;
use byteorder::{ByteOrder, LittleEndian};

verus! {

/// The unsigned value held little-endian in the four bytes of `b` starting
/// at `o`: least significant byte first.
pub open spec fn le32(b: Seq<u8>, o: int) -> int {
    b[o] + 0x100 * b[o + 1] + 0x1_0000 * b[o + 2] + 0x100_0000 * b[o + 3]
}

/// The unsigned value held little-endian in the eight bytes of `b` starting
/// at `o`.
pub open spec fn le64(b: Seq<u8>, o: int) -> int {
    le32(b, o) + 0x1_0000_0000 * le32(b, o + 4)
}

/// The value of a four-byte field is bounded by the bytes' ranges.
pub proof fn lemma_le32_bounds(b: Seq<u8>, o: int)
    requires
        0 <= o,
        o + 4 <= b.len(),
    ensures
        0 <= le32(b, o) < 0x1_0000_0000,
{
}

/// The value of an eight-byte field is bounded by the bytes' ranges.
pub proof fn lemma_le64_bounds(b: Seq<u8>, o: int)
    requires
        0 <= o,
        o + 8 <= b.len(),
    ensures
        0 <= le64(b, o) < 0x1_0000_0000_0000_0000,
{
    lemma_le32_bounds(b, o);
    lemma_le32_bounds(b, o + 4);
}

/// Relies on byteorder's `LittleEndian::read_u32`: it reads the first four
/// bytes of the given slice as an unsigned integer, least significant byte
/// first, and panics only when the slice is shorter than four bytes.
#[verifier::external_body]
pub(crate) fn read_u32_at(buf: &[u8], offset: usize) -> (r: u32)
    requires
        offset + 4 <= buf@.len(),
    ensures
        r == le32(buf@, offset as int),
{
    LittleEndian::read_u32(&buf[offset..offset + 4])
}

/// Relies on byteorder's `LittleEndian::read_u64`: it reads the first eight
/// bytes of the given slice as an unsigned integer, least significant byte
/// first, and panics only when the slice is shorter than eight bytes.
#[verifier::external_body]
pub(crate) fn read_u64_at(buf: &[u8], offset: usize) -> (r: u64)
    requires
        offset + 8 <= buf@.len(),
    ensures
        r == le64(buf@, offset as int),
{
    LittleEndian::read_u64(&buf[offset..offset + 8])
}

} // verus!
