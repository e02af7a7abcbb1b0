//! Big-endian integer reads at fixed offsets of a byte buffer.

use vstd::prelude::*;

verus! {

/// The unsigned 16-bit big-endian value stored at `at`.
pub open spec fn be_u16(s: Seq<u8>, at: int) -> int {
    s[at] * 256 + s[at + 1]
}

/// The signed (two's complement) 16-bit big-endian value stored at `at`.
pub open spec fn be_i16(s: Seq<u8>, at: int) -> int {
    let u = be_u16(s, at);
    if u >= 0x8000 {
        u - 0x10000
    } else {
        u
    }
}

/// The unsigned 32-bit big-endian value stored at `at`.
pub open spec fn be_u32(s: Seq<u8>, at: int) -> int {
    ((s[at] * 256 + s[at + 1]) * 256 + s[at + 2]) * 256 + s[at + 3]
}

/// Reads a big-endian `u32` from `bytes[at..at + 4]`.
pub fn read_u32_be(bytes: &Vec<u8>, at: usize) -> (r: u32)
    requires
        at + 4 <= bytes@.len(),
    ensures
        r as int == be_u32(bytes@, at as int),
{
    let len = bytes.len();
    assert(at + 3 < len);
    let b0 = bytes[at] as u32;
    let b1 = bytes[at + 1] as u32;
    let b2 = bytes[at + 2] as u32;
    let b3 = bytes[at + 3] as u32;
    ((b0 * 256 + b1) * 256 + b2) * 256 + b3
}

/// Reads a big-endian two's complement `i16` from `bytes[at..at + 2]`.
pub fn read_i16_be(bytes: &Vec<u8>, at: usize) -> (r: i16)
    requires
        at + 2 <= bytes@.len(),
    ensures
        r as int == be_i16(bytes@, at as int),
{
    let len = bytes.len();
    assert(at + 1 < len);
    let u: u32 = (bytes[at] as u32) * 256 + bytes[at + 1] as u32;
    if u >= 0x8000 {
        (u as i32 - 0x10000) as i16
    } else {
        u as i16
    }
}

} // verus!
