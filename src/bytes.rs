//! Little-endian integers in byte sequences, and byte ranges of a file image.
use vstd::prelude::*;

verus! {

/// The `u16` stored little-endian at `s[i..i + 2]`.
pub open spec fn u16_le(s: Seq<u8>, i: int) -> u16 {
    (s[i] as u16) | ((s[i + 1] as u16) << 8u16)
}

/// The `u32` stored little-endian at `s[i..i + 4]`.
pub open spec fn u32_le(s: Seq<u8>, i: int) -> u32 {
    (s[i] as u32) | ((s[i + 1] as u32) << 8u32) | ((s[i + 2] as u32) << 16u32) | ((s[i
        + 3] as u32) << 24u32)
}

/// The `u64` stored little-endian at `s[i..i + 8]`.
pub open spec fn u64_le(s: Seq<u8>, i: int) -> u64 {
    (s[i] as u64) | ((s[i + 1] as u64) << 8u64) | ((s[i + 2] as u64) << 16u64) | ((s[i
        + 3] as u64) << 24u64) | ((s[i + 4] as u64) << 32u64) | ((s[i + 5] as u64) << 40u64)
        | ((s[i + 6] as u64) << 48u64) | ((s[i + 7] as u64) << 56u64)
}

/// Whether `s[pos..pos + len]` lies inside `s`.
pub open spec fn in_bounds(s: Seq<u8>, pos: int, len: int) -> bool {
    0 <= pos && 0 <= len && pos + len <= s.len()
}

pub fn read_u16(s: &[u8], i: usize) -> (r: u16)
    requires
        i + 2 <= s@.len(),
    ensures
        r == u16_le(s@, i as int),
{
    (s[i] as u16) | ((s[i + 1] as u16) << 8u16)
}

pub fn read_u32(s: &[u8], i: usize) -> (r: u32)
    requires
        i + 4 <= s@.len(),
    ensures
        r == u32_le(s@, i as int),
{
    (s[i] as u32) | ((s[i + 1] as u32) << 8u32) | ((s[i + 2] as u32) << 16u32) | ((s[i
        + 3] as u32) << 24u32)
}

pub fn read_u64(s: &[u8], i: usize) -> (r: u64)
    requires
        i + 8 <= s@.len(),
    ensures
        r == u64_le(s@, i as int),
{
    (s[i] as u64) | ((s[i + 1] as u64) << 8u64) | ((s[i + 2] as u64) << 16u64) | ((s[i
        + 3] as u64) << 24u64) | ((s[i + 4] as u64) << 32u64) | ((s[i + 5] as u64) << 40u64)
        | ((s[i + 6] as u64) << 48u64) | ((s[i + 7] as u64) << 56u64)
}

/// Whether `len` bytes starting at file offset `pos` lie inside the image.
pub fn fits(s: &[u8], pos: u64, len: u64) -> (r: bool)
    ensures
        r == in_bounds(s@, pos as int, len as int),
{
    let n = s.len() as u64;
    pos <= n && len <= n - pos
}

/// The index in the image of file offset `pos`, when `len` bytes from there lie inside it.
pub fn index_of(s: &[u8], pos: u64, len: u64) -> (r: Option<usize>)
    ensures
        r is Some <==> in_bounds(s@, pos as int, len as int),
        r matches Some(i) ==> i == pos,
        s@.len() <= usize::MAX,
{
    let n = s.len();
    if pos <= n as u64 && len <= n as u64 - pos {
        Some(pos as usize)
    } else {
        None
    }
}

} // verus!
