//! Little- and big-endian field reads over byte slices, each with the integer
//! it denotes stated over the slice's view.

use vstd::prelude::*;

verus! {

/// The unsigned 16-bit little-endian value stored at `off`.
pub open spec fn le16(s: Seq<u8>, off: int) -> int {
    s[off] + 256 * s[off + 1]
}

/// The unsigned 32-bit little-endian value stored at `off`.
pub open spec fn le32(s: Seq<u8>, off: int) -> int {
    s[off] + 256 * s[off + 1] + 65536 * s[off + 2] + 16777216 * s[off + 3]
}

/// The unsigned 32-bit big-endian value stored at `off`.
pub open spec fn be32(s: Seq<u8>, off: int) -> int {
    16777216 * s[off] + 65536 * s[off + 1] + 256 * s[off + 2] + s[off + 3]
}

/// The unsigned 64-bit big-endian value stored at `off`.
pub open spec fn be64(s: Seq<u8>, off: int) -> int {
    4294967296 * be32(s, off) + be32(s, off + 4)
}

/// Little-endian `u16` at `off`, `None` when the two bytes are not all there.
pub fn read_u16_le(b: &[u8], off: usize) -> (r: Option<u16>)
    ensures
        r is Some <==> off + 2 <= b@.len(),
        r matches Some(v) ==> v as int == le16(b@, off as int),
{
    if off > b.len() || b.len() - off < 2 {
        return None;
    }
    Some(b[off] as u16 + (b[off + 1] as u16) * 256)
}

/// Little-endian `u32` at `off`, `None` when the four bytes are not all there.
pub fn read_u32_le(b: &[u8], off: usize) -> (r: Option<u32>)
    ensures
        r is Some <==> off + 4 <= b@.len(),
        r matches Some(v) ==> v as int == le32(b@, off as int),
{
    if off > b.len() || b.len() - off < 4 {
        return None;
    }
    Some(b[off] as u32 + (b[off + 1] as u32) * 256 + (b[off + 2] as u32) * 65536 + (b[off
        + 3] as u32) * 16777216)
}

/// Big-endian `u32` at `off`, `None` when the four bytes are not all there.
pub fn read_u32_be(b: &[u8], off: usize) -> (r: Option<u32>)
    ensures
        r is Some <==> off + 4 <= b@.len(),
        r matches Some(v) ==> v as int == be32(b@, off as int),
{
    if off > b.len() || b.len() - off < 4 {
        return None;
    }
    Some((b[off] as u32) * 16777216 + (b[off + 1] as u32) * 65536 + (b[off + 2] as u32) * 256
        + b[off + 3] as u32)
}

/// Big-endian `u64` at `off`, `None` when the eight bytes are not all there.
pub fn read_u64_be(b: &[u8], off: usize) -> (r: Option<u64>)
    ensures
        r is Some <==> off + 8 <= b@.len(),
        r matches Some(v) ==> v as int == be64(b@, off as int),
{
    if off > b.len() || b.len() - off < 8 {
        return None;
    }
    let hi = read_u32_be(b, off).unwrap();
    let lo = read_u32_be(b, off + 4).unwrap();
    Some((hi as u64) * 4294967296 + lo as u64)
}

} // verus!
