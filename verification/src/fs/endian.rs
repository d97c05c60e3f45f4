//! Little-endian integer fields inside byte buffers.

use vstd::prelude::*;

verus! {

/// The 16-bit little-endian value stored at `bytes[at..at + 2]`.
pub open spec fn le_u16(bytes: Seq<u8>, at: int) -> u16
    recommends
        0 <= at,
        at + 2 <= bytes.len(),
{
    (bytes[at] + 0x100 * bytes[at + 1]) as u16
}

/// The 32-bit little-endian value stored at `bytes[at..at + 4]`.
pub open spec fn le_u32(bytes: Seq<u8>, at: int) -> u32
    recommends
        0 <= at,
        at + 4 <= bytes.len(),
{
    (bytes[at] + 0x100 * bytes[at + 1] + 0x1_0000 * bytes[at + 2]
        + 0x100_0000 * bytes[at + 3]) as u32
}

/// Whether `bytes[at..at + 2]` holds `value`, low byte first.
pub open spec fn stores_u16(bytes: Seq<u8>, at: int, value: u16) -> bool {
    &&& 0 <= at && at + 2 <= bytes.len()
    &&& bytes[at] == value % 0x100
    &&& bytes[at + 1] == value / 0x100
}

/// Whether `bytes[at..at + 4]` holds `value`, low byte first.
pub open spec fn stores_u32(bytes: Seq<u8>, at: int, value: u32) -> bool {
    &&& 0 <= at && at + 4 <= bytes.len()
    &&& bytes[at] == value % 0x100
    &&& bytes[at + 1] == (value / 0x100) % 0x100
    &&& bytes[at + 2] == (value / 0x1_0000) % 0x100
    &&& bytes[at + 3] == value / 0x100_0000
}

/// A 16-bit field decodes to the value that was stored in it.
pub proof fn le_u16_of_stored(bytes: Seq<u8>, at: int, value: u16)
    requires
        stores_u16(bytes, at, value),
    ensures
        le_u16(bytes, at) == value,
{
}

/// A 32-bit field decodes to the value that was stored in it.
pub proof fn le_u32_of_stored(bytes: Seq<u8>, at: int, value: u32)
    requires
        stores_u32(bytes, at, value),
    ensures
        le_u32(bytes, at) == value,
{
}

/// Decodes the 16-bit little-endian field at `at`.
pub(crate) fn read_le_u16(bytes: &[u8], at: usize) -> (value: u16)
    requires
        at + 2 <= bytes.len(),
    ensures
        value == le_u16(bytes@, at as int),
{
    let lo: u16 = bytes[at] as u16;
    let hi: u16 = bytes[at + 1] as u16;
    lo + 0x100 * hi
}

/// Decodes the 32-bit little-endian field at `at`.
pub(crate) fn read_le_u32(bytes: &[u8], at: usize) -> (value: u32)
    requires
        at + 4 <= bytes.len(),
    ensures
        value == le_u32(bytes@, at as int),
{
    let b0: u32 = bytes[at] as u32;
    let b1: u32 = bytes[at + 1] as u32;
    let b2: u32 = bytes[at + 2] as u32;
    let b3: u32 = bytes[at + 3] as u32;
    b0 + 0x100 * b1 + 0x1_0000 * b2 + 0x100_0000 * b3
}

} // verus!
