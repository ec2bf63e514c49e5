//! Little-endian integers inside byte buffers.
//!
//! The `spec` functions give the value of a field by plain arithmetic on
//! its bytes; the executable readers and writers delegate to the
//! `byteorder` crate.

use byteorder::{ByteOrder, LittleEndian};
use vstd::prelude::*;

verus! {

/// The unsigned 16-bit little-endian value stored at `at`.
pub open spec fn le_u16(b: Seq<u8>, at: int) -> int {
    b[at] as int + 256 * (b[at + 1] as int)
}

/// The unsigned 32-bit little-endian value stored at `at`.
pub open spec fn le_u32(b: Seq<u8>, at: int) -> int {
    b[at] as int + 256 * (b[at + 1] as int) + 65536 * (b[at + 2] as int) + 16777216 * (b[at
        + 3] as int)
}

/// The signed (two's complement) reading of the 32-bit field at `at`.
pub open spec fn le_i32(b: Seq<u8>, at: int) -> int {
    if le_u32(b, at) >= 0x8000_0000 {
        le_u32(b, at) - 0x1_0000_0000
    } else {
        le_u32(b, at)
    }
}

/// Byte `i` of the little-endian encoding of `n`.
#[verifier::opaque]
pub open spec fn le_byte(n: int, i: int) -> u8 {
    if i == 0 {
        (n % 256) as u8
    } else if i == 1 {
        ((n / 256) % 256) as u8
    } else if i == 2 {
        ((n / 65536) % 256) as u8
    } else {
        ((n / 16777216) % 256) as u8
    }
}

/// The two bytes that encode `n` in little-endian order.
pub open spec fn u16_le_bytes(n: u16) -> Seq<u8> {
    Seq::new(2, |i: int| le_byte(n as int, i))
}

/// The four bytes that encode `n` in little-endian order.
pub open spec fn u32_le_bytes(n: u32) -> Seq<u8> {
    Seq::new(4, |i: int| le_byte(n as int, i))
}

/// Reading back an encoded 32-bit value gives the value, wherever the four
/// bytes stand in a buffer.
pub proof fn lemma_u32_round_trip(n: u32, b: Seq<u8>, at: int)
    requires
        0 <= at,
        at + 4 <= b.len(),
        b.subrange(at, at + 4) == u32_le_bytes(n),
    ensures
        le_u32(b, at) == n,
{
    reveal(le_byte);
    let s = b.subrange(at, at + 4);
    assert(s[0] == b[at] && s[1] == b[at + 1] && s[2] == b[at + 2] && s[3] == b[at + 3]);
    assert(s[0] == le_byte(n as int, 0) && s[1] == le_byte(n as int, 1));
    assert(s[2] == le_byte(n as int, 2) && s[3] == le_byte(n as int, 3));
}

/// A 32-bit field inside a block that stands at `base` in a buffer reads
/// the same from the buffer as from the block.
pub proof fn lemma_field_in_block(e: Seq<u8>, base: int, block: Seq<u8>, at: int, n: u32)
    requires
        0 <= base,
        base + block.len() <= e.len(),
        e.subrange(base, base + block.len()) == block,
        0 <= at,
        at + 4 <= block.len(),
        block.subrange(at, at + 4) == u32_le_bytes(n),
    ensures
        le_u32(e, base + at) == n,
{
    assert forall|i: int| 0 <= i < 4 implies e[base + at + i] == u32_le_bytes(n)[i] by {
        assert(e.subrange(base, base + block.len())[at + i] == e[base + at + i]);
        assert(block.subrange(at, at + 4)[i] == block[at + i]);
    }
    assert(e.subrange(base + at, base + at + 4) =~= u32_le_bytes(n));
    lemma_u32_round_trip(n, e, base + at);
}

/// `byteorder`'s `LittleEndian::read_u16` on the two bytes at `at`: the
/// value is the little-endian reading of those bytes.
#[verifier::external_body]
pub(crate) fn read_u16_le(buf: &[u8], at: usize) -> (r: u16)
    requires
        at + 2 <= buf@.len(),
    ensures
        r == le_u16(buf@, at as int),
{
    LittleEndian::read_u16(&buf[at..])
}

/// `byteorder`'s `LittleEndian::read_u32` on the four bytes at `at`: the
/// value is the little-endian reading of those bytes.
#[verifier::external_body]
pub(crate) fn read_u32_le(buf: &[u8], at: usize) -> (r: u32)
    requires
        at + 4 <= buf@.len(),
    ensures
        r == le_u32(buf@, at as int),
{
    LittleEndian::read_u32(&buf[at..])
}

/// `byteorder`'s `LittleEndian::write_u16` into a fresh two-byte buffer,
/// appended to `out`.
#[verifier::external_body]
pub(crate) fn push_u16_le(out: &mut Vec<u8>, n: u16)
    ensures
        final(out)@ == old(out)@ + u16_le_bytes(n),
{
    let mut field = [0u8; 2];
    LittleEndian::write_u16(&mut field, n);
    out.extend_from_slice(&field);
}

/// `byteorder`'s `LittleEndian::write_u32` into a fresh four-byte buffer,
/// appended to `out`.
#[verifier::external_body]
pub(crate) fn push_u32_le(out: &mut Vec<u8>, n: u32)
    ensures
        final(out)@ == old(out)@ + u32_le_bytes(n),
{
    let mut field = [0u8; 4];
    LittleEndian::write_u32(&mut field, n);
    out.extend_from_slice(&field);
}

/// Appends every byte of `src` to `out`.
pub fn push_all(out: &mut Vec<u8>, src: &[u8])
    ensures
        final(out)@ == old(out)@ + src@,
{
    let mut i: usize = 0;
    while i < src.len()
        invariant
            i <= src@.len(),
            out@ == old(out)@ + src@.take(i as int),
        decreases src@.len() - i,
    {
        out.push(src[i]);
        i += 1;
        assert(src@.take(i as int) == src@.take(i as int - 1).push(src@[i as int - 1]));
    }
    assert(src@.take(src@.len() as int) == src@);
}

/// Whether the bytes of `pattern` stand in `buf` at `at`.
pub open spec fn has_bytes_at(buf: Seq<u8>, at: int, pattern: Seq<u8>) -> bool {
    &&& 0 <= at
    &&& at + pattern.len() <= buf.len()
    &&& buf.subrange(at, at + pattern.len()) == pattern
}

/// Tests whether `pattern` stands in `buf` at `at`.
pub fn bytes_at(buf: &[u8], at: usize, pattern: &[u8]) -> (r: bool)
    ensures
        r == has_bytes_at(buf@, at as int, pattern@),
{
    if at > buf.len() || pattern.len() > buf.len() - at {
        return false;
    }
    let mut i: usize = 0;
    while i < pattern.len()
        invariant
            i <= pattern@.len(),
            at + pattern@.len() <= buf@.len() <= usize::MAX,
            forall|k: int| 0 <= k < i ==> buf@[at + k] == pattern@[k],
        decreases pattern@.len() - i,
    {
        if buf[at + i] != pattern[i] {
            assert(buf@.subrange(at as int, at + pattern@.len())[i as int] == buf@[at + i]);
            return false;
        }
        i += 1;
    }
    assert(buf@.subrange(at as int, at + pattern@.len()) =~= pattern@);
    true
}

} // verus!
