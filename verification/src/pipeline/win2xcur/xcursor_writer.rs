//! Serialisation of cursor frames into the binary Xcursor container.

use crate::bytes::{push_all, push_u32_le};
use crate::error::CursorError;
use crate::pipeline::raster::RgbaImage;
use crate::pipeline::win2xcur::cur::{CursorFrame, CursorImage};
use crate::pipeline::xcursor_format::{
    bodies, chunk_bytes, chunk_header, chunk_offset, encodable, file_header,
    lemma_chunk_offset_monotonic, premultiplied_bgra, premultiplied_byte, premultiply, toc,
    toc_entry, xcursor_encoding, ImageRecord, CHUNK_IMAGE, FILE_HEADER_SIZE, FILE_VERSION,
    IMAGE_HEADER_SIZE, IMAGE_VERSION,
};
use vstd::prelude::*;

verus! {

/// The record that is written for `img` when it is shown for `delay`
/// milliseconds: its pixels in BGRA order with premultiplied alpha.
pub open spec fn image_chunk(img: CursorImage, delay: u32) -> ImageRecord {
    ImageRecord {
        nominal: img.nominal_size,
        width: img.image@.width,
        height: img.image@.height,
        xhot: img.hotspot.0 as u32,
        yhot: img.hotspot.1 as u32,
        delay,
        pixels: premultiplied_bgra(img.image@.pixels),
    }
}

/// The records of the first `j` images of a frame.
pub open spec fn frame_chunks(frame: CursorFrame, j: int) -> Seq<ImageRecord>
    decreases j,
{
    if j <= 0 {
        Seq::empty()
    } else {
        frame_chunks(frame, j - 1).push(image_chunk(frame.images@[j - 1], frame.delay))
    }
}

/// The records of the first `i` frames, frame after frame.
pub open spec fn frames_chunks(frames: Seq<CursorFrame>, i: int) -> Seq<ImageRecord>
    decreases i,
{
    if i <= 0 {
        Seq::empty()
    } else {
        frames_chunks(frames, i - 1) + frame_chunks(
            frames[i - 1],
            frames[i - 1].images@.len() as int,
        )
    }
}

/// Every record of a frame list, in the order in which it is written.
pub open spec fn all_chunks(frames: Seq<CursorFrame>) -> Seq<ImageRecord> {
    frames_chunks(frames, frames.len() as int)
}

/// What is written for one image.
struct ChunkData {
    nominal: u32,
    width: u32,
    height: u32,
    hotspot_x: u16,
    hotspot_y: u16,
    delay: u32,
    pixels: Vec<u8>,
}

impl ChunkData {
    spec fn record(self) -> ImageRecord {
        ImageRecord {
            nominal: self.nominal,
            width: self.width,
            height: self.height,
            xhot: self.hotspot_x as u32,
            yhot: self.hotspot_y as u32,
            delay: self.delay,
            pixels: self.pixels@,
        }
    }
}

spec fn records(chunks: Seq<ChunkData>) -> Seq<ImageRecord> {
    Seq::new(chunks.len(), |k: int| chunks[k].record())
}

/// Converts straight RGBA pixels to BGRA with premultiplied alpha.
pub fn premultiply_alpha(image: &RgbaImage) -> (out: Vec<u8>)
    ensures
        out@ == premultiplied_bgra(image@.pixels),
{
    let raw = image.as_raw();
    let count: usize = raw.len() / 4;
    let mut out: Vec<u8> = Vec::new();
    let mut p: usize = 0;
    assert(raw@.len() == 4 * count);
    while p < count
        invariant
            p <= count,
            raw@.len() == 4 * count,
            raw@.len() <= usize::MAX,
            out@.len() == 4 * p,
            forall|i: int| 0 <= i < 4 * p ==> out@[i] == premultiplied_byte(raw@, i),
        decreases count - p,
    {
        let at: usize = 4 * p;
        let a = raw[at + 3];
        out.push(premultiply(raw[at + 2], a));
        out.push(premultiply(raw[at + 1], a));
        out.push(premultiply(raw[at], a));
        out.push(a);
        p += 1;
    }
    assert(out@ =~= premultiplied_bgra(raw@));
    out
}

/// Serialises `frames` into one Xcursor file.
///
/// The result is the encoding of every image of every frame, in order.
/// The conversion fails with [`CursorError::Validation`] exactly when a
/// chunk's offset does not fit the 32-bit field of the table of contents.
pub fn to_x11(frames: &[CursorFrame]) -> (r: Result<Vec<u8>, CursorError>)
    ensures
        encodable(all_chunks(frames@)) ==> r is Ok && r->Ok_0@ == xcursor_encoding(
            all_chunks(frames@),
        ),
        !encodable(all_chunks(frames@)) ==> r == Err::<Vec<u8>, CursorError>(
            CursorError::Validation,
        ),
{
    let mut chunks: Vec<ChunkData> = Vec::new();
    let mut i: usize = 0;
    while i < frames.len()
        invariant
            i <= frames@.len(),
            records(chunks@) == frames_chunks(frames@, i as int),
        decreases frames@.len() - i,
    {
        let frame = &frames[i];
        let mut j: usize = 0;
        while j < frame.images.len()
            invariant
                j <= frame.images@.len(),
                i < frames@.len(),
                *frame == frames@[i as int],
                records(chunks@) == frames_chunks(frames@, i as int) + frame_chunks(
                    *frame,
                    j as int,
                ),
            decreases frame.images@.len() - j,
        {
            let cursor = &frame.images[j];
            let width = cursor.image.width();
            let height = cursor.image.height();
            let pixels = premultiply_alpha(&cursor.image);
            let ghost before = records(chunks@);
            chunks.push(
                ChunkData {
                    nominal: cursor.nominal_size,
                    width,
                    height,
                    hotspot_x: cursor.hotspot.0,
                    hotspot_y: cursor.hotspot.1,
                    delay: frame.delay,
                    pixels,
                },
            );
            j += 1;
            assert(records(chunks@) =~= before.push(image_chunk(*cursor, frame.delay)));
            assert(records(chunks@) =~= frames_chunks(frames@, i as int) + frame_chunks(
                *frame,
                j as int,
            ));
        }
        i += 1;
    }
    let ghost recs = records(chunks@);
    assert(recs == all_chunks(frames@));
    let n = chunks.len();
    if n > u32::MAX as usize {
        proof {
            lemma_chunk_offset_monotonic(recs, 0, n - 1);
        }
        return Err(CursorError::Validation);
    }
    let mut output: Vec<u8> = Vec::new();
    output.push(0x58);
    output.push(0x63);
    output.push(0x75);
    output.push(0x72);
    push_u32_le(&mut output, FILE_HEADER_SIZE);
    push_u32_le(&mut output, FILE_VERSION);
    push_u32_le(&mut output, n as u32);
    assert(output@ =~= file_header(n as u32));

    let mut offset: u128 = 16 + 12 * (n as u128);
    let mut k: usize = 0;
    while k < n
        invariant
            k <= n,
            n == chunks@.len(),
            n <= u32::MAX,
            recs == records(chunks@),
            recs == all_chunks(frames@),
            offset == chunk_offset(recs, k as int),
            k > 0 ==> chunk_offset(recs, k - 1) <= u32::MAX,
            output@ == file_header(n as u32) + toc(recs, k as int),
        decreases n - k,
    {
        if offset > u32::MAX as u128 {
            proof {
                lemma_chunk_offset_monotonic(recs, k as int, n - 1);
            }
            return Err(CursorError::Validation);
        }
        let chunk = &chunks[k];
        let ghost before = output@;
        push_u32_le(&mut output, CHUNK_IMAGE);
        push_u32_le(&mut output, chunk.nominal);
        push_u32_le(&mut output, offset as u32);
        assert(recs[k as int] == chunk.record());
        assert(output@ =~= before + toc_entry(recs, k as int));
        assert(output@ =~= file_header(n as u32) + toc(recs, k + 1));
        offset = offset + 36 + chunk.pixels.len() as u128;
        k += 1;
    }
    assert(encodable(recs));

    let mut m: usize = 0;
    while m < n
        invariant
            m <= n,
            n == chunks@.len(),
            n <= u32::MAX,
            recs == records(chunks@),
            output@ == file_header(n as u32) + toc(recs, n as int) + bodies(recs, m as int),
        decreases n - m,
    {
        let chunk = &chunks[m];
        let ghost before = output@;
        push_u32_le(&mut output, IMAGE_HEADER_SIZE);
        push_u32_le(&mut output, CHUNK_IMAGE);
        push_u32_le(&mut output, chunk.nominal);
        push_u32_le(&mut output, IMAGE_VERSION);
        push_u32_le(&mut output, chunk.width);
        push_u32_le(&mut output, chunk.height);
        push_u32_le(&mut output, chunk.hotspot_x as u32);
        push_u32_le(&mut output, chunk.hotspot_y as u32);
        push_u32_le(&mut output, chunk.delay);
        assert(recs[m as int] == chunk.record());
        assert(output@ =~= before + chunk_header(recs[m as int]));
        push_all(&mut output, chunk.pixels.as_slice());
        assert(output@ =~= before + chunk_bytes(recs[m as int]));
        assert(output@ =~= file_header(n as u32) + toc(recs, n as int) + bodies(recs, m + 1));
        m += 1;
    }
    Ok(output)
}

} // verus!
