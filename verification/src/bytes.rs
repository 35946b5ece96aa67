//! Little-endian field access on byte buffers.

use vstd::prelude::*;

verus! {

/// The little-endian 16-bit value stored at `data[i]`, `data[i + 1]`.
pub open spec fn le_u16_at(data: Seq<u8>, i: int) -> u16 {
    (data[i] + 256 * data[i + 1]) as u16
}

/// Reads the little-endian `u16` at byte offset `i`.
pub fn read_le_u16(data: &[u8], i: usize) -> (v: u16)
    requires
        i + 2 <= data@.len(),
    ensures
        v == le_u16_at(data@, i as int),
        v as int == data@[i as int] + 256 * data@[i + 1],
{
    let lo = data[i] as u16;
    let hi = data[i + 1] as u16;
    lo + hi * 256
}

} // verus!

verus! {

/// The little-endian 32-bit value stored at `data[i] .. data[i + 4]`.
pub open spec fn le_u32_at(data: Seq<u8>, i: int) -> u32 {
    (data[i] + 256 * data[i + 1] + 65536 * data[i + 2] + 16777216 * data[i + 3]) as u32
}

/// Reads the little-endian `u32` at byte offset `i`.
pub fn read_le_u32(data: &[u8], i: usize) -> (v: u32)
    requires
        i + 4 <= data@.len(),
    ensures
        v == le_u32_at(data@, i as int),
        v as int == data@[i as int] + 256 * data@[i + 1] + 65536 * data@[i + 2] + 16777216
            * data@[i + 3],
{
    let b0 = data[i] as u32;
    let b1 = data[i + 1] as u32;
    let b2 = data[i + 2] as u32;
    let b3 = data[i + 3] as u32;
    b0 + b1 * 256 + b2 * 65536 + b3 * 16777216
}

} // verus!
