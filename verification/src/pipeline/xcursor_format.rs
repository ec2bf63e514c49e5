//! The binary layout of an Xcursor file, as a mathematical description.
//!
//! A file is a 16-byte header, one 12-byte table-of-contents entry per
//! image, and one chunk per image: a 36-byte header followed by the pixels
//! in BGRA order with premultiplied alpha.

use crate::bytes::{le_u32, lemma_field_in_block, u32_le_bytes};
use vstd::prelude::*;

verus! {

/// The version word of the file header.
pub const FILE_VERSION: u32 = 0x0001_0000;

/// The type tag of an image chunk.
pub const CHUNK_IMAGE: u32 = 0xFFFD_0002;

/// The size of the file header in bytes.
pub const FILE_HEADER_SIZE: u32 = 16;

/// The size of an image chunk's header in bytes.
pub const IMAGE_HEADER_SIZE: u32 = 36;

/// The version word of an image chunk.
pub const IMAGE_VERSION: u32 = 1;

/// The four magic bytes that open a file.
pub open spec fn magic() -> Seq<u8> {
    seq![0x58u8, 0x63u8, 0x75u8, 0x72u8]
}

/// One image of a file: its header fields and its pixel bytes.
pub struct ImageRecord {
    pub nominal: u32,
    pub width: u32,
    pub height: u32,
    pub xhot: u32,
    pub yhot: u32,
    pub delay: u32,
    pub pixels: Seq<u8>,
}

impl ImageRecord {
    /// The record holds four bytes for every pixel.
    pub open spec fn wf(self) -> bool {
        self.pixels.len() == 4 * (self.width * self.height)
    }

    /// The same record with other pixel bytes.
    pub open spec fn with_pixels(self, pixels: Seq<u8>) -> ImageRecord {
        ImageRecord { pixels, ..self }
    }
}

/// A colour channel scaled by alpha: `c * a / 255`, rounded down.
pub open spec fn premultiply_channel(c: u8, a: u8) -> u8 {
    (c as int * a as int / 255) as u8
}

/// The inverse scaling: `c * 255 / a`, rounded down and capped at 255. A
/// fully transparent pixel carries no colour and decodes to white.
pub open spec fn unpremultiply_channel(c: u8, a: u8) -> u8 {
    if a == 0 {
        255
    } else if c as int * 255 / (a as int) > 255 {
        255
    } else {
        (c as int * 255 / (a as int)) as u8
    }
}

/// Byte `i` of the BGRA premultiplied form of straight RGBA bytes.
pub open spec fn premultiplied_byte(rgba: Seq<u8>, i: int) -> u8 {
    let p = i - i % 4;
    if i % 4 == 0 {
        premultiply_channel(rgba[p + 2], rgba[p + 3])
    } else if i % 4 == 1 {
        premultiply_channel(rgba[p + 1], rgba[p + 3])
    } else if i % 4 == 2 {
        premultiply_channel(rgba[p], rgba[p + 3])
    } else {
        rgba[p + 3]
    }
}

/// Straight RGBA bytes turned into premultiplied BGRA bytes.
pub open spec fn premultiplied_bgra(rgba: Seq<u8>) -> Seq<u8> {
    Seq::new(rgba.len(), |i: int| premultiplied_byte(rgba, i))
}

/// Byte `i` of the straight RGBA form of premultiplied BGRA bytes.
pub open spec fn straight_byte(bgra: Seq<u8>, i: int) -> u8 {
    let p = i - i % 4;
    if i % 4 == 0 {
        unpremultiply_channel(bgra[p + 2], bgra[p + 3])
    } else if i % 4 == 1 {
        unpremultiply_channel(bgra[p + 1], bgra[p + 3])
    } else if i % 4 == 2 {
        unpremultiply_channel(bgra[p], bgra[p + 3])
    } else {
        bgra[p + 3]
    }
}

/// Premultiplied BGRA bytes turned back into straight RGBA bytes.
pub open spec fn straight_rgba(bgra: Seq<u8>) -> Seq<u8> {
    Seq::new(bgra.len(), |i: int| straight_byte(bgra, i))
}

/// Computes [`premultiply_channel`].
pub fn premultiply(c: u8, a: u8) -> (r: u8)
    ensures
        r == premultiply_channel(c, a),
{
    assert(c as int * a as int <= 255 * 255) by (nonlinear_arith)
        requires
            c <= 255,
            a <= 255,
    ;
    assert(0 <= c as int * a as int) by (nonlinear_arith);
    ((c as u32) * (a as u32) / 255) as u8
}

/// Computes [`unpremultiply_channel`].
pub fn unpremultiply(c: u8, a: u8) -> (r: u8)
    ensures
        r == unpremultiply_channel(c, a),
{
    if a == 0 {
        255
    } else {
        let q: u32 = (c as u32) * 255 / (a as u32);
        if q > 255 {
            255
        } else {
            q as u8
        }
    }
}

/// The size of the chunk that holds `c`: its header and its pixels.
pub open spec fn chunk_size(c: ImageRecord) -> int {
    IMAGE_HEADER_SIZE + c.pixels.len()
}

/// The absolute offset of chunk `k`: the file header, the whole table of
/// contents, and every chunk before it.
pub open spec fn chunk_offset(chunks: Seq<ImageRecord>, k: int) -> int
    decreases k,
{
    if k <= 0 {
        FILE_HEADER_SIZE + 12 * chunks.len()
    } else {
        chunk_offset(chunks, k - 1) + chunk_size(chunks[k - 1])
    }
}

/// Whether every table-of-contents entry can hold its chunk's offset.
pub open spec fn encodable(chunks: Seq<ImageRecord>) -> bool {
    chunks.len() == 0 || chunk_offset(chunks, chunks.len() - 1) <= u32::MAX
}

/// The 16 bytes of the file header for `n` chunks.
pub open spec fn file_header(n: u32) -> Seq<u8> {
    magic() + u32_le_bytes(FILE_HEADER_SIZE) + u32_le_bytes(FILE_VERSION) + u32_le_bytes(n)
}

/// The 12 bytes of the table-of-contents entry of chunk `k`.
pub open spec fn toc_entry(chunks: Seq<ImageRecord>, k: int) -> Seq<u8> {
    u32_le_bytes(CHUNK_IMAGE) + u32_le_bytes(chunks[k].nominal) + u32_le_bytes(
        chunk_offset(chunks, k) as u32,
    )
}

/// The first `k` entries of the table of contents.
pub open spec fn toc(chunks: Seq<ImageRecord>, k: int) -> Seq<u8>
    decreases k,
{
    if k <= 0 {
        Seq::empty()
    } else {
        toc(chunks, k - 1) + toc_entry(chunks, k - 1)
    }
}

/// The 36 bytes of the header of an image chunk.
pub open spec fn chunk_header(c: ImageRecord) -> Seq<u8> {
    u32_le_bytes(IMAGE_HEADER_SIZE) + u32_le_bytes(CHUNK_IMAGE) + u32_le_bytes(c.nominal)
        + u32_le_bytes(IMAGE_VERSION) + u32_le_bytes(c.width) + u32_le_bytes(c.height)
        + u32_le_bytes(c.xhot) + u32_le_bytes(c.yhot) + u32_le_bytes(c.delay)
}

/// A whole image chunk: header, then pixels.
pub open spec fn chunk_bytes(c: ImageRecord) -> Seq<u8> {
    chunk_header(c) + c.pixels
}

/// The first `k` chunks, one after the other.
pub open spec fn bodies(chunks: Seq<ImageRecord>, k: int) -> Seq<u8>
    decreases k,
{
    if k <= 0 {
        Seq::empty()
    } else {
        bodies(chunks, k - 1) + chunk_bytes(chunks[k - 1])
    }
}

/// The complete file that holds `chunks`, in order.
pub open spec fn xcursor_encoding(chunks: Seq<ImageRecord>) -> Seq<u8> {
    file_header(chunks.len() as u32) + toc(chunks, chunks.len() as int) + bodies(
        chunks,
        chunks.len() as int,
    )
}

/// Offsets grow with the chunk index.
pub proof fn lemma_chunk_offset_monotonic(chunks: Seq<ImageRecord>, j: int, k: int)
    requires
        0 <= j <= k,
    ensures
        FILE_HEADER_SIZE + 12 * chunks.len() <= chunk_offset(chunks, j) <= chunk_offset(chunks, k),
    decreases k,
{
    if k > 0 {
        if j < k {
            lemma_chunk_offset_monotonic(chunks, j, k - 1);
        } else {
            lemma_chunk_offset_monotonic(chunks, j - 1, k - 1);
        }
    }
}

/// The table of contents holds 12 bytes per entry.
pub proof fn lemma_toc_len(chunks: Seq<ImageRecord>, k: int)
    requires
        0 <= k,
    ensures
        toc(chunks, k).len() == 12 * k,
    decreases k,
{
    if k > 0 {
        lemma_toc_len(chunks, k - 1);
    }
}

/// The chunks written so far end where the next chunk starts.
pub proof fn lemma_bodies_len(chunks: Seq<ImageRecord>, k: int)
    requires
        0 <= k,
    ensures
        FILE_HEADER_SIZE + 12 * chunks.len() + bodies(chunks, k).len() == chunk_offset(chunks, k),
    decreases k,
{
    if k > 0 {
        lemma_bodies_len(chunks, k - 1);
    }
}

/// Entry `k` stands at byte `12 * k` of the table of contents.
pub proof fn lemma_toc_entry_at(chunks: Seq<ImageRecord>, n: int, k: int)
    requires
        0 <= k < n,
    ensures
        toc(chunks, n).len() == 12 * n,
        toc(chunks, n).subrange(12 * k, 12 * k + 12) == toc_entry(chunks, k),
    decreases n,
{
    lemma_toc_len(chunks, n);
    lemma_toc_len(chunks, n - 1);
    if k < n - 1 {
        lemma_toc_entry_at(chunks, n - 1, k);
        assert(toc(chunks, n).subrange(12 * k, 12 * k + 12) =~= toc(chunks, n - 1).subrange(
            12 * k,
            12 * k + 12,
        ));
    } else {
        assert(toc(chunks, n).subrange(12 * k, 12 * k + 12) =~= toc_entry(chunks, k));
    }
}

/// Chunk `k` stands in the chunk area where its offset says.
pub proof fn lemma_chunk_at(chunks: Seq<ImageRecord>, n: int, k: int)
    requires
        0 <= k < n,
    ensures
        chunk_offset(chunks, k) - chunk_offset(chunks, 0) + chunk_size(chunks[k]) <= bodies(
            chunks,
            n,
        ).len(),
        bodies(chunks, n).subrange(
            chunk_offset(chunks, k) - chunk_offset(chunks, 0),
            chunk_offset(chunks, k) - chunk_offset(chunks, 0) + chunk_size(chunks[k]),
        ) == chunk_bytes(chunks[k]),
    decreases n,
{
    lemma_bodies_len(chunks, n);
    lemma_bodies_len(chunks, n - 1);
    lemma_bodies_len(chunks, k);
    let from = chunk_offset(chunks, k) - chunk_offset(chunks, 0);
    let to = from + chunk_size(chunks[k]);
    if k < n - 1 {
        lemma_chunk_at(chunks, n - 1, k);
        assert(bodies(chunks, n).subrange(from, to) =~= bodies(chunks, n - 1).subrange(from, to));
    } else {
        assert(bodies(chunks, n).subrange(from, to) =~= chunk_bytes(chunks[k]));
    }
}

/// The three fields of a table-of-contents entry.
pub proof fn lemma_toc_entry_fields(chunks: Seq<ImageRecord>, k: int)
    ensures
        toc_entry(chunks, k).len() == 12,
        toc_entry(chunks, k).subrange(0, 4) == u32_le_bytes(CHUNK_IMAGE),
        toc_entry(chunks, k).subrange(4, 8) == u32_le_bytes(chunks[k].nominal),
        toc_entry(chunks, k).subrange(8, 12) == u32_le_bytes(chunk_offset(chunks, k) as u32),
{
    let entry = toc_entry(chunks, k);
    assert(entry.subrange(0, 4) =~= u32_le_bytes(CHUNK_IMAGE));
    assert(entry.subrange(4, 8) =~= u32_le_bytes(chunks[k].nominal));
    assert(entry.subrange(8, 12) =~= u32_le_bytes(chunk_offset(chunks, k) as u32));
}

/// Where the parts of an encoded file stand: the header, entry `k` of the
/// table of contents, and chunk `k`.
pub proof fn lemma_encoding_parts(chunks: Seq<ImageRecord>, k: int)
    requires
        0 <= k < chunks.len(),
    ensures
        xcursor_encoding(chunks).len() == chunk_offset(chunks, chunks.len() as int),
        chunk_offset(chunks, k) + chunk_size(chunks[k]) <= xcursor_encoding(chunks).len(),
        16 + 12 * chunks.len() <= chunk_offset(chunks, k),
        xcursor_encoding(chunks).subrange(0, 16) == file_header(chunks.len() as u32),
        xcursor_encoding(chunks).subrange(16 + 12 * k, 16 + 12 * k + 12) == toc_entry(chunks, k),
        xcursor_encoding(chunks).subrange(
            chunk_offset(chunks, k),
            chunk_offset(chunks, k) + chunk_size(chunks[k]),
        ) == chunk_bytes(chunks[k]),
{
    let n = chunks.len() as int;
    let e = xcursor_encoding(chunks);
    let head = file_header(chunks.len() as u32);
    let table = toc(chunks, n);
    let area = bodies(chunks, n);
    lemma_chunk_offset_monotonic(chunks, 0, k);
    lemma_chunk_offset_monotonic(chunks, k + 1, n);
    lemma_toc_entry_at(chunks, n, k);
    lemma_chunk_at(chunks, n, k);
    lemma_bodies_len(chunks, n);
    assert(head.len() == 16);
    assert(e == head + table + area);
    assert(e.subrange(0, 16) =~= head);
    assert(e.subrange(16 + 12 * k, 16 + 12 * k + 12) =~= table.subrange(12 * k, 12 * k + 12));
    let from = chunk_offset(chunks, k);
    let to = from + chunk_size(chunks[k]);
    assert(e.subrange(from, to) =~= area.subrange(
        from - chunk_offset(chunks, 0),
        to - chunk_offset(chunks, 0),
    ));
}

/// The table-of-contents invariant: in every encoded file, entry `k` is
/// tagged as an image, carries the nominal size of chunk `k`, and points at
/// `16 + 12 * count` plus the sizes (36 bytes of header and the payload) of
/// all preceding chunks; chunk `k` stands exactly there.
pub proof fn lemma_toc_invariant(chunks: Seq<ImageRecord>, k: int)
    requires
        encodable(chunks),
        0 <= k < chunks.len(),
    ensures
        chunk_offset(chunks, k) + chunk_size(chunks[k]) <= xcursor_encoding(chunks).len(),
        chunk_offset(chunks, k) <= u32::MAX,
        chunks.len() <= u32::MAX,
        le_u32(xcursor_encoding(chunks), 16 + 12 * k) == CHUNK_IMAGE,
        le_u32(xcursor_encoding(chunks), 16 + 12 * k + 4) == chunks[k].nominal,
        le_u32(xcursor_encoding(chunks), 16 + 12 * k + 8) == chunk_offset(chunks, k),
        xcursor_encoding(chunks).subrange(
            chunk_offset(chunks, k),
            chunk_offset(chunks, k) + chunk_size(chunks[k]),
        ) == chunk_bytes(chunks[k]),
{
    let n = chunks.len() as int;
    let e = xcursor_encoding(chunks);
    let entry = toc_entry(chunks, k);
    lemma_chunk_offset_monotonic(chunks, 0, n - 1);
    lemma_chunk_offset_monotonic(chunks, k, n - 1);
    lemma_encoding_parts(chunks, k);
    lemma_toc_entry_fields(chunks, k);
    lemma_field_in_block(e, 16 + 12 * k, entry, 0, CHUNK_IMAGE);
    lemma_field_in_block(e, 16 + 12 * k, entry, 4, chunks[k].nominal);
    lemma_field_in_block(e, 16 + 12 * k, entry, 8, chunk_offset(chunks, k) as u32);
}

} // verus!
