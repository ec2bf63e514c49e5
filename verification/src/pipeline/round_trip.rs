//! Writing an Xcursor file and reading it back.

use crate::bytes::{has_bytes_at, le_u32, lemma_field_in_block, u32_le_bytes};
use crate::error::CursorError;
use crate::pipeline::win2xcur::cur::CursorFrame;
use crate::pipeline::win2xcur::xcursor_writer::{all_chunks, frame_chunks, frames_chunks};
use crate::pipeline::xcur2png::xcursor_reader::{
    entry_step, parse_entries, parse_xcursor, read_image_chunk, ChunkOutcome,
};
use crate::pipeline::xcursor_format::{
    chunk_bytes, chunk_header, chunk_offset, chunk_size, encodable, file_header,
    lemma_chunk_offset_monotonic, lemma_encoding_parts, lemma_toc_invariant, magic,
    premultiplied_bgra, premultiply_channel, straight_rgba, unpremultiply_channel,
    xcursor_encoding, ImageRecord, CHUNK_IMAGE, FILE_HEADER_SIZE, FILE_VERSION,
    IMAGE_HEADER_SIZE, IMAGE_VERSION,
};
use vstd::arithmetic::div_mod::lemma_fundamental_div_mod;
use vstd::prelude::*;

verus! {

/// A written record as it is read back: the same header fields, the pixels
/// converted from premultiplied BGRA to straight RGBA.
pub open spec fn decoded(c: ImageRecord) -> ImageRecord {
    c.with_pixels(straight_rgba(c.pixels))
}

/// The first `k` written records as they are read back.
pub open spec fn decoded_all(chunks: Seq<ImageRecord>, k: int) -> Seq<ImageRecord> {
    Seq::new(k as nat, |i: int| decoded(chunks[i]))
}

/// What a colour channel `c` of a pixel with alpha `a` becomes when it is
/// premultiplied and then restored.
pub open spec fn restored_channel(c: u8, a: u8) -> u8 {
    unpremultiply_channel(premultiply_channel(c, a), a)
}

/// Whether a colour channel comes back within one unit of its value.
pub open spec fn within_one(c: u8, a: u8) -> bool {
    c - restored_channel(c, a) <= 1 && restored_channel(c, a) - c <= 1
}

/// Every image of every frame holds four bytes per pixel.
pub open spec fn frames_wf(frames: Seq<CursorFrame>) -> bool {
    forall|i: int, j: int|
        0 <= i < frames.len() && 0 <= j < frames[i].images@.len() ==> (
        #[trigger] frames[i].images@[j]).image@.wf()
}

/// The fields of a chunk header, and the pixels behind it.
proof fn lemma_chunk_fields(c: ImageRecord)
    ensures
        chunk_header(c).len() == 36,
        chunk_bytes(c).len() == chunk_size(c),
        chunk_bytes(c).subrange(0, 4) == u32_le_bytes(IMAGE_HEADER_SIZE),
        chunk_bytes(c).subrange(4, 8) == u32_le_bytes(CHUNK_IMAGE),
        chunk_bytes(c).subrange(12, 16) == u32_le_bytes(IMAGE_VERSION),
        chunk_bytes(c).subrange(16, 20) == u32_le_bytes(c.width),
        chunk_bytes(c).subrange(20, 24) == u32_le_bytes(c.height),
        chunk_bytes(c).subrange(24, 28) == u32_le_bytes(c.xhot),
        chunk_bytes(c).subrange(28, 32) == u32_le_bytes(c.yhot),
        chunk_bytes(c).subrange(32, 36) == u32_le_bytes(c.delay),
        chunk_bytes(c).subrange(36, 36 + c.pixels.len() as int) == c.pixels,
{
    let b = chunk_bytes(c);
    assert(b.subrange(0, 4) =~= u32_le_bytes(IMAGE_HEADER_SIZE));
    assert(b.subrange(4, 8) =~= u32_le_bytes(CHUNK_IMAGE));
    assert(b.subrange(12, 16) =~= u32_le_bytes(IMAGE_VERSION));
    assert(b.subrange(16, 20) =~= u32_le_bytes(c.width));
    assert(b.subrange(20, 24) =~= u32_le_bytes(c.height));
    assert(b.subrange(24, 28) =~= u32_le_bytes(c.xhot));
    assert(b.subrange(28, 32) =~= u32_le_bytes(c.yhot));
    assert(b.subrange(32, 36) =~= u32_le_bytes(c.delay));
    assert(b.subrange(36, 36 + c.pixels.len() as int) =~= c.pixels);
}

/// The fields of the chunk that was written for record `k`, as they read
/// from the file.
proof fn lemma_written_chunk_fields(chunks: Seq<ImageRecord>, k: int)
    requires
        encodable(chunks),
        0 <= k < chunks.len(),
    ensures
        ({
            let e = xcursor_encoding(chunks);
            let pos = chunk_offset(chunks, k);
            let c = chunks[k];
            &&& 0 <= pos
            &&& pos + 36 + c.pixels.len() <= e.len()
            &&& le_u32(e, pos) == IMAGE_HEADER_SIZE
            &&& le_u32(e, pos + 4) == CHUNK_IMAGE
            &&& le_u32(e, pos + 12) == IMAGE_VERSION
            &&& le_u32(e, pos + 16) == c.width
            &&& le_u32(e, pos + 20) == c.height
            &&& le_u32(e, pos + 24) == c.xhot
            &&& le_u32(e, pos + 28) == c.yhot
            &&& le_u32(e, pos + 32) == c.delay
            &&& e.subrange(pos + 36, pos + 36 + c.pixels.len()) == c.pixels
        }),
{
    let e = xcursor_encoding(chunks);
    let c = chunks[k];
    let pos = chunk_offset(chunks, k);
    let block = chunk_bytes(c);
    lemma_toc_invariant(chunks, k);
    lemma_chunk_fields(c);
    lemma_field_in_block(e, pos, block, 0, IMAGE_HEADER_SIZE);
    lemma_field_in_block(e, pos, block, 4, CHUNK_IMAGE);
    lemma_field_in_block(e, pos, block, 12, IMAGE_VERSION);
    lemma_field_in_block(e, pos, block, 16, c.width);
    lemma_field_in_block(e, pos, block, 20, c.height);
    lemma_field_in_block(e, pos, block, 24, c.xhot);
    lemma_field_in_block(e, pos, block, 28, c.yhot);
    lemma_field_in_block(e, pos, block, 32, c.delay);
    assert(e.subrange(pos + 36, pos + 36 + c.pixels.len() as int) =~= block.subrange(
        36,
        36 + c.pixels.len() as int,
    ));
}

/// Reading the chunk that was written for record `k` gives the record back,
/// with its pixels converted.
proof fn lemma_read_written_chunk(chunks: Seq<ImageRecord>, k: int)
    requires
        encodable(chunks),
        0 <= k < chunks.len(),
        chunks[k].wf(),
    ensures
        read_image_chunk(
            xcursor_encoding(chunks),
            chunks[k].nominal,
            chunk_offset(chunks, k),
        ) == ChunkOutcome::Image(decoded(chunks[k])),
{
    lemma_written_chunk_fields(chunks, k);
    reveal(read_image_chunk);
}

/// Following the first `k` entries of a written table of contents finds
/// the first `k` records.
proof fn lemma_parse_written_entries(chunks: Seq<ImageRecord>, k: int)
    requires
        encodable(chunks),
        0 <= k <= chunks.len(),
        forall|i: int| 0 <= i < chunks.len() ==> (#[trigger] chunks[i]).wf(),
    ensures
        parse_entries(xcursor_encoding(chunks), k) == Ok::<Seq<ImageRecord>, CursorError>(
            decoded_all(chunks, k),
        ),
    decreases k,
{
    let e = xcursor_encoding(chunks);
    if k <= 0 {
        assert(decoded_all(chunks, k) =~= Seq::empty());
    } else {
        lemma_parse_written_entries(chunks, k - 1);
        reveal(entry_step);
        lemma_toc_invariant(chunks, k - 1);
        lemma_read_written_chunk(chunks, k - 1);
        assert(decoded_all(chunks, k) =~= decoded_all(chunks, k - 1).push(
            decoded(chunks[k - 1]),
        ));
    }
}

/// The fields of a written file header.
proof fn lemma_header_fields(chunks: Seq<ImageRecord>)
    requires
        encodable(chunks),
        chunks.len() > 0,
    ensures
        xcursor_encoding(chunks).len() >= 16 + 12 * chunks.len(),
        chunks.len() <= u32::MAX,
        has_bytes_at(xcursor_encoding(chunks), 0, magic()),
        le_u32(xcursor_encoding(chunks), 4) == FILE_HEADER_SIZE,
        le_u32(xcursor_encoding(chunks), 8) == FILE_VERSION,
        le_u32(xcursor_encoding(chunks), 12) == chunks.len(),
{
    let e = xcursor_encoding(chunks);
    let n = chunks.len() as u32;
    let head = file_header(n);
    lemma_toc_invariant(chunks, 0);
    lemma_encoding_parts(chunks, 0);
    lemma_chunk_offset_monotonic(chunks, 0, chunks.len() as int);
    assert(head.subrange(4, 8) =~= u32_le_bytes(FILE_HEADER_SIZE));
    assert(head.subrange(8, 12) =~= u32_le_bytes(FILE_VERSION));
    assert(head.subrange(12, 16) =~= u32_le_bytes(n));
    lemma_field_in_block(e, 0, head, 4, FILE_HEADER_SIZE);
    lemma_field_in_block(e, 0, head, 8, FILE_VERSION);
    lemma_field_in_block(e, 0, head, 12, n);
    assert(e.subrange(0, 4) =~= head.subrange(0, 4));
    assert(head.subrange(0, 4) =~= magic());
}

/// Decoding inverts encoding: a file written from well-formed records
/// parses, and gives every record back in order with its nominal size,
/// width, height, hotspot and delay unchanged and its pixels converted from
/// premultiplied BGRA to straight RGBA.
pub proof fn lemma_decode_encoded(chunks: Seq<ImageRecord>)
    requires
        encodable(chunks),
        chunks.len() > 0,
        forall|i: int| 0 <= i < chunks.len() ==> (#[trigger] chunks[i]).wf(),
    ensures
        parse_xcursor(xcursor_encoding(chunks)) == Ok::<Seq<ImageRecord>, CursorError>(
            decoded_all(chunks, chunks.len() as int),
        ),
{
    lemma_header_fields(chunks);
    lemma_parse_written_entries(chunks, chunks.len() as int);
}

/// The records written for well-formed frames are well formed.
pub proof fn lemma_frames_chunks_wf(frames: Seq<CursorFrame>, i: int)
    requires
        frames_wf(frames),
        0 <= i <= frames.len(),
    ensures
        forall|k: int|
            0 <= k < frames_chunks(frames, i).len() ==> (#[trigger] frames_chunks(
                frames,
                i,
            )[k]).wf(),
    decreases i,
{
    if i > 0 {
        lemma_frames_chunks_wf(frames, i - 1);
        lemma_frame_chunks_wf(frames, i - 1, frames[i - 1].images@.len() as int);
        let head = frames_chunks(frames, i - 1);
        let tail = frame_chunks(frames[i - 1], frames[i - 1].images@.len() as int);
        assert forall|k: int| 0 <= k < frames_chunks(frames, i).len() implies (
        #[trigger] frames_chunks(frames, i)[k]).wf() by {
            if k < head.len() {
                assert(frames_chunks(frames, i)[k] == head[k]);
            } else {
                assert(frames_chunks(frames, i)[k] == tail[k - head.len()]);
            }
        }
    }
}

proof fn lemma_frame_chunks_wf(frames: Seq<CursorFrame>, i: int, j: int)
    requires
        frames_wf(frames),
        0 <= i < frames.len(),
        0 <= j <= frames[i].images@.len(),
    ensures
        frame_chunks(frames[i], j).len() == j,
        forall|k: int| 0 <= k < j ==> (#[trigger] frame_chunks(frames[i], j)[k]).wf(),
    decreases j,
{
    if j > 0 {
        lemma_frame_chunks_wf(frames, i, j - 1);
        assert(frames[i].images@[j - 1].image@.wf());
    }
}

/// The round trip of the Xcursor codec: what the writer produces for a
/// non-empty list of images, the reader accepts, and it reproduces every
/// image in order with identical nominal size, width, height, hotspot and
/// delay. The pixels come back as the straight form of their premultiplied
/// form; [`lemma_restored_pixels`] says what that is byte by byte.
pub proof fn theorem_round_trip(frames: Seq<CursorFrame>)
    requires
        frames_wf(frames),
        encodable(all_chunks(frames)),
        all_chunks(frames).len() > 0,
    ensures
        parse_xcursor(xcursor_encoding(all_chunks(frames))) == Ok::<
            Seq<ImageRecord>,
            CursorError,
        >(decoded_all(all_chunks(frames), all_chunks(frames).len() as int)),
{
    lemma_frames_chunks_wf(frames, frames.len() as int);
    lemma_decode_encoded(all_chunks(frames));
}

/// What premultiplying and restoring does to the bytes of an image: alpha
/// is kept, and each colour channel becomes its restored value under the
/// alpha of its own pixel.
pub proof fn lemma_restored_pixels(rgba: Seq<u8>, i: int)
    requires
        rgba.len() % 4 == 0,
        0 <= i < rgba.len(),
    ensures
        straight_rgba(premultiplied_bgra(rgba)).len() == rgba.len(),
        i % 4 == 3 ==> straight_rgba(premultiplied_bgra(rgba))[i] == rgba[i],
        i % 4 != 3 ==> straight_rgba(premultiplied_bgra(rgba))[i] == restored_channel(
            rgba[i],
            rgba[i - i % 4 + 3],
        ),
{
}

/// The rounding of premultiplication: an opaque pixel comes back exactly;
/// a transparent one comes back white; in between, a channel never grows
/// and loses less than `255 / a + 1`.
pub proof fn lemma_restored_channel(c: u8, a: u8)
    ensures
        a == 255 ==> restored_channel(c, a) == c,
        a == 0 ==> restored_channel(c, a) == 255,
        a > 0 ==> restored_channel(c, a) <= c,
        a > 0 ==> a * (c - restored_channel(c, a)) < 255 + a,
{
    if a > 0 {
        let ci = c as int;
        let ai = a as int;
        let prod = ci * ai;
        assert(0 <= prod <= 255 * ai) by (nonlinear_arith)
            requires
                prod == ci * ai,
                0 <= ci <= 255,
                0 < ai,
        ;
        let q1 = prod / 255;
        assert(0 <= q1 <= 255);
        assert(premultiply_channel(c, a) == q1);
        let q2 = (q1 * 255) / ai;
        lemma_fundamental_div_mod(q1 * 255, ai);
        assert(0 <= (q1 * 255) % ai < ai);
        assert(q1 * 255 == ai * q2 + (q1 * 255) % ai);
        assert(q2 <= ci && ai * (ci - q2) < 255 + ai) by (nonlinear_arith)
            requires
                255 * q1 <= ci * ai,
                ci * ai < 255 * q1 + 255,
                q1 * 255 == ai * q2 + (q1 * 255) % ai,
                0 <= (q1 * 255) % ai < ai,
                0 < ai,
                0 <= ci,
        ;
        assert(0 <= q2) by (nonlinear_arith)
            requires
                q1 * 255 == ai * q2 + (q1 * 255) % ai,
                0 <= (q1 * 255) % ai < ai,
                0 <= q1,
                0 < ai,
        ;
        assert(restored_channel(c, a) == q2);
        assert(a * (c - restored_channel(c, a)) == ai * (ci - q2));
    }
}

/// Where every colour channel of every pixel survives premultiplication
/// within one unit, the image that comes back differs from the original by
/// at most one in every byte. Opaque pixels always do.
pub proof fn lemma_round_trip_within_one(rgba: Seq<u8>, i: int)
    requires
        rgba.len() % 4 == 0,
        0 <= i < rgba.len(),
        i % 4 != 3 ==> within_one(rgba[i], rgba[i - i % 4 + 3]) || rgba[i - i % 4 + 3] == 255,
    ensures
        straight_rgba(premultiplied_bgra(rgba))[i] - rgba[i] <= 1,
        rgba[i] - straight_rgba(premultiplied_bgra(rgba))[i] <= 1,
{
    lemma_restored_pixels(rgba, i);
    if i % 4 != 3 {
        lemma_restored_channel(rgba[i], rgba[i - i % 4 + 3]);
    }
}

} // verus!
