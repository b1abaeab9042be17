//! Little-endian byte codec: spec-level views of 16-bit and 32-bit words
//! inside a byte sequence, and verified readers and writers for them.

use vstd::prelude::*;

verus! {

/// The 16-bit little-endian word formed by bytes `i` and `i + 1` of `s`.
pub open spec fn le_u16_at(s: Seq<u8>, i: int) -> u16
    recommends
        0 <= i,
        i + 2 <= s.len(),
{
    (s[i] as u16) | ((s[i + 1] as u16) << 8)
}

/// The 32-bit little-endian word formed by bytes `i` .. `i + 4` of `s`.
pub open spec fn le_u32_at(s: Seq<u8>, i: int) -> u32
    recommends
        0 <= i,
        i + 4 <= s.len(),
{
    (s[i] as u32) | ((s[i + 1] as u32) << 8) | ((s[i + 2] as u32) << 16) | ((s[i + 3] as u32)
        << 24)
}

/// The four little-endian bytes of `x`, least significant first.
pub open spec fn le_bytes_of_u32(x: u32) -> Seq<u8> {
    seq![
        (x & 0xff) as u8,
        ((x >> 8) & 0xff) as u8,
        ((x >> 16) & 0xff) as u8,
        ((x >> 24) & 0xff) as u8,
    ]
}

/// Decodes a two-byte slice as a little-endian 16-bit word.
pub fn slice_to_u16(slice: &[u8]) -> (r: u16)
    requires
        slice@.len() == 2,
    ensures
        r == le_u16_at(slice@, 0),
{
    (slice[0] as u16) | ((slice[1] as u16) << 8)
}

/// Decodes a four-byte slice as a little-endian 32-bit word.
pub fn slice_to_u32(slice: &[u8]) -> (r: u32)
    requires
        slice@.len() == 4,
    ensures
        r == le_u32_at(slice@, 0),
{
    (slice[0] as u32) | ((slice[1] as u32) << 8) | ((slice[2] as u32) << 16) | ((slice[3] as u32)
        << 24)
}

/// Reads the little-endian 16-bit word at byte offset `i` of `data`.
pub fn read_u16_at(data: &Vec<u8>, i: usize) -> (r: u16)
    requires
        i + 2 <= data@.len(),
    ensures
        r == le_u16_at(data@, i as int),
{
    let _len: usize = data.len();
    let s = vstd::slice::slice_subrange(data.as_slice(), i, i + 2);
    let r = slice_to_u16(s);
    proof {
        assert(s@[0] == data@[i as int]);
        assert(s@[1] == data@[i + 1]);
    }
    r
}

/// Reads the little-endian 32-bit word at byte offset `i` of `data`.
pub fn read_u32_at(data: &Vec<u8>, i: usize) -> (r: u32)
    requires
        i + 4 <= data@.len(),
    ensures
        r == le_u32_at(data@, i as int),
{
    let _len: usize = data.len();
    let s = vstd::slice::slice_subrange(data.as_slice(), i, i + 4);
    let r = slice_to_u32(s);
    proof {
        assert(s@[0] == data@[i as int]);
        assert(s@[1] == data@[i + 1]);
        assert(s@[2] == data@[i + 2]);
        assert(s@[3] == data@[i + 3]);
    }
    r
}

/// Appends the four little-endian bytes of `x` to `buf`.
pub fn push_u32_le(buf: &mut Vec<u8>, x: u32)
    ensures
        final(buf)@ == old(buf)@ + le_bytes_of_u32(x),
{
    buf.push((x & 0xff) as u8);
    buf.push(((x >> 8) & 0xff) as u8);
    buf.push(((x >> 16) & 0xff) as u8);
    buf.push(((x >> 24) & 0xff) as u8);
    proof {
        assert(buf@ =~= old(buf)@ + le_bytes_of_u32(x));
    }
}

} // verus!
