//! Device-independent bitmaps as they are embedded in cursor files.
//!
//! An embedded bitmap declares twice its real height: the colour rows (the
//! XOR layer) are followed by a one-bit transparency mask (the AND mask)
//! of the same dimensions, with rows padded to four bytes and stored from
//! the bottom up.

use crate::bytes::{
    le_i32, le_u16, le_u32, push_all, push_u16_le, push_u32_le, read_u16_le, read_u32_le,
    u16_le_bytes, u32_le_bytes,
};
use crate::error::CursorError;
use crate::pipeline::raster::{ImageView, RgbaImage};
use vstd::prelude::*;

verus! {

/// The size of the smallest bitmap header that is understood.
pub const DIB_HEADER_MIN: usize = 40;

/// The size of the file header that is put in front of a bitmap.
pub const BMP_FILE_HEADER_SIZE: u32 = 14;

/// The magnitude of a signed value.
pub open spec fn magnitude(v: int) -> int {
    if v < 0 {
        -v
    } else {
        v
    }
}

/// The width that the bitmap header declares.
pub open spec fn dib_width(dib: Seq<u8>) -> int {
    magnitude(le_i32(dib, 4))
}

/// The real height: half of what the header declares, rounded down.
pub open spec fn dib_height(dib: Seq<u8>) -> int {
    magnitude(le_i32(dib, 8)) / 2
}

/// The declared height halved towards zero, as the 32-bit word that
/// replaces it in the header.
pub open spec fn halved_height_word(dib: Seq<u8>) -> u32 {
    if le_i32(dib, 8) < 0 && dib_height(dib) > 0 {
        (0x1_0000_0000 - dib_height(dib)) as u32
    } else {
        dib_height(dib) as u32
    }
}

/// The number of bits per pixel of the colour rows.
pub open spec fn dib_bit_count(dib: Seq<u8>) -> int {
    le_u16(dib, 14)
}

/// The number of palette entries: the declared count, or where none is
/// declared the full palette of a bit depth up to 8.
pub open spec fn palette_entries(dib: Seq<u8>) -> int {
    if le_u32(dib, 32) > 0 {
        le_u32(dib, 32)
    } else if dib_bit_count(dib) <= 8 {
        (1u32 << (dib_bit_count(dib) as u32)) as int
    } else {
        0
    }
}

/// The size of the colour palette in bytes, four per entry. A bitmap too
/// short to hold a header has none.
pub open spec fn palette_size(dib: Seq<u8>) -> int {
    if dib.len() < DIB_HEADER_MIN {
        0
    } else {
        4 * palette_entries(dib)
    }
}

/// The size of one row of `width` pixels of `bits` bits, padded to a
/// multiple of four bytes.
pub open spec fn row_size(width: int, bits: int) -> int {
    (width * bits + 31) / 32 * 4
}

/// The size of the colour rows.
pub open spec fn xor_size(dib: Seq<u8>) -> int {
    row_size(dib_width(dib), dib_bit_count(dib)) * dib_height(dib)
}

/// Where the transparency mask starts: behind header, palette and colour
/// rows.
pub open spec fn and_mask_offset(dib: Seq<u8>) -> int {
    le_u32(dib, 0) + palette_size(dib) + xor_size(dib)
}

/// Whether every quantity of the bitmap's layout fits its 32-bit field.
pub open spec fn layout_fits(dib: Seq<u8>) -> bool {
    &&& palette_size(dib) <= u32::MAX
    &&& dib_width(dib) * dib_bit_count(dib) <= u32::MAX
    &&& xor_size(dib) <= u32::MAX
    &&& and_mask_offset(dib) <= u32::MAX
}

/// Computes the size of the colour palette of a bitmap.
///
/// Fails with [`CursorError::Validation`] when the size does not fit 32
/// bits.
pub fn calculate_palette_size(dib_data: &[u8]) -> (r: Result<u32, CursorError>)
    ensures
        palette_size(dib_data@) <= u32::MAX ==> r == Ok::<u32, CursorError>(
            palette_size(dib_data@) as u32,
        ),
        palette_size(dib_data@) > u32::MAX ==> r == Err::<u32, CursorError>(
            CursorError::Validation,
        ),
{
    if dib_data.len() < DIB_HEADER_MIN {
        return Ok(0);
    }
    let bits_per_pixel = read_u16_le(dib_data, 14);
    let colors_used = read_u32_le(dib_data, 32);
    let palette_entries: u32 = if colors_used > 0 {
        colors_used
    } else if bits_per_pixel <= 8 {
        1u32 << (bits_per_pixel as u32)
    } else {
        0
    };
    let bytes: u64 = 4 * (palette_entries as u64);
    if bytes > u32::MAX as u64 {
        Err(CursorError::Validation)
    } else {
        Ok(bytes as u32)
    }
}

/// The magnitude of the signed value that a 32-bit word holds in two's
/// complement.
fn magnitude_of(word: u32) -> (m: u64)
    ensures
        m == magnitude(
            if word >= 0x8000_0000 {
                word - 0x1_0000_0000
            } else {
                word as int
            },
        ),
        m <= 0x8000_0000,
{
    if word >= 0x8000_0000 {
        0x1_0000_0000u64 - word as u64
    } else {
        word as u64
    }
}

/// The sizes that locate the parts of a bitmap.
pub struct DibLayout {
    pub header_size: u32,
    pub width: u32,
    pub height: u32,
    pub halved_height_word: u32,
    pub palette_size: u32,
    pub xor_size: u32,
    pub and_mask_offset: u32,
}

/// Reads the layout of a bitmap from its header.
///
/// Fails with [`CursorError::Validation`] exactly when a size overflows 32
/// bits.
pub fn dib_layout(dib: &[u8]) -> (r: Result<DibLayout, CursorError>)
    requires
        dib@.len() >= DIB_HEADER_MIN,
    ensures
        layout_fits(dib@) ==> r is Ok && ({
            let l = r->Ok_0;
            &&& l.header_size == le_u32(dib@, 0)
            &&& l.width == dib_width(dib@)
            &&& l.height == dib_height(dib@)
            &&& l.halved_height_word == halved_height_word(dib@)
            &&& l.palette_size == palette_size(dib@)
            &&& l.xor_size == xor_size(dib@)
            &&& l.and_mask_offset == and_mask_offset(dib@)
        }),
        !layout_fits(dib@) ==> r is Err && r->Err_0 == CursorError::Validation,
{
    let header_size = read_u32_le(dib, 0);
    let raw_width = read_u32_le(dib, 4);
    let raw_height = read_u32_le(dib, 8);
    let width: u64 = magnitude_of(raw_width);
    let full_height: u64 = magnitude_of(raw_height);
    let height: u64 = full_height / 2;
    let halved: u32 = if raw_height >= 0x8000_0000 && height > 0 {
        (0x1_0000_0000u64 - height) as u32
    } else {
        height as u32
    };
    let bits = read_u16_le(dib, 14) as u64;
    let palette = match calculate_palette_size(dib) {
        Ok(p) => p,
        Err(e) => {
            return Err(e);
        },
    };
    assert(0 <= width * bits <= 0x8000_0000 * 0xffff) by (nonlinear_arith)
        requires
            0 <= width <= 0x8000_0000,
            0 <= bits <= 0xffff,
    ;
    let row_bits: u64 = width * bits;
    if row_bits > u32::MAX as u64 {
        assert(xor_size(dib@) >= 0) by (nonlinear_arith)
            requires
                xor_size(dib@) == row_size(dib_width(dib@), dib_bit_count(dib@)) * dib_height(
                    dib@,
                ),
                row_size(dib_width(dib@), dib_bit_count(dib@)) >= 0,
                dib_height(dib@) >= 0,
        ;
        return Err(CursorError::Validation);
    }
    let row: u64 = (row_bits + 31) / 32 * 4;
    assert(0 <= row * height <= 0x2000_0000 * 0x4000_0000) by (nonlinear_arith)
        requires
            0 <= row <= 0x2000_0000,
            0 <= height <= 0x4000_0000,
    ;
    let xor: u64 = row * height;
    if xor > u32::MAX as u64 {
        return Err(CursorError::Validation);
    }
    let mask_at: u64 = header_size as u64 + palette as u64 + xor;
    if mask_at > u32::MAX as u64 {
        return Err(CursorError::Validation);
    }
    Ok(
        DibLayout {
            header_size,
            width: width as u32,
            height: height as u32,
            halved_height_word: halved,
            palette_size: palette,
            xor_size: xor as u32,
            and_mask_offset: mask_at as u32,
        },
    )
}

/// The bitmap with the halved height written into its header.
pub open spec fn patched(dib: Seq<u8>) -> Seq<u8> {
    dib.subrange(0, 8) + u32_le_bytes(halved_height_word(dib)) + dib.subrange(
        12,
        dib.len() as int,
    )
}

/// How much of the bitmap is kept: everything up to the transparency mask.
pub open spec fn kept_len(dib: Seq<u8>) -> int {
    if dib.len() > and_mask_offset(dib) {
        and_mask_offset(dib)
    } else {
        dib.len() as int
    }
}

/// Whether the sizes of the bitmap file fit their 32-bit fields.
pub open spec fn file_fits(dib: Seq<u8>) -> bool {
    &&& layout_fits(dib)
    &&& BMP_FILE_HEADER_SIZE + kept_len(dib) <= u32::MAX
    &&& BMP_FILE_HEADER_SIZE + le_u32(dib, 0) + palette_size(dib) <= u32::MAX
}

/// The 14 bytes of the file header that is put in front of the bitmap.
pub open spec fn bmp_file_header(dib: Seq<u8>) -> Seq<u8> {
    seq![0x42u8, 0x4Du8] + u32_le_bytes((BMP_FILE_HEADER_SIZE + kept_len(dib)) as u32)
        + u16_le_bytes(0) + u16_le_bytes(0) + u32_le_bytes(
        (BMP_FILE_HEADER_SIZE + le_u32(dib, 0) + palette_size(dib)) as u32,
    )
}

/// The complete bitmap file made from an embedded bitmap: a file header
/// whose pixel offset skips the bitmap header and the palette, then the
/// bitmap with its real height and without its transparency mask.
pub open spec fn bmp_from_dib(dib: Seq<u8>) -> Result<Seq<u8>, CursorError> {
    if dib.len() < DIB_HEADER_MIN {
        Err(CursorError::Decode)
    } else if !file_fits(dib) {
        Err(CursorError::Validation)
    } else {
        Ok(bmp_file_header(dib) + patched(dib).take(kept_len(dib)))
    }
}

/// Builds a complete bitmap file from an embedded bitmap.
///
/// Fails with [`CursorError::Decode`] on a bitmap shorter than its header
/// and with [`CursorError::Validation`] when a size overflows 32 bits.
pub fn create_bmp_from_dib(dib_data: &[u8]) -> (r: Result<Vec<u8>, CursorError>)
    ensures
        match bmp_from_dib(dib_data@) {
            Ok(bytes) => r is Ok && r->Ok_0@ == bytes,
            Err(e) => r is Err && r->Err_0 == e,
        },
{
    if dib_data.len() < DIB_HEADER_MIN {
        return Err(CursorError::Decode);
    }
    let layout = match dib_layout(dib_data) {
        Ok(l) => l,
        Err(e) => {
            return Err(e);
        },
    };
    let mut modified_dib: Vec<u8> = Vec::new();
    push_all(&mut modified_dib, vstd::slice::slice_subrange(dib_data, 0, 8));
    push_u32_le(&mut modified_dib, layout.halved_height_word);
    push_all(&mut modified_dib, vstd::slice::slice_subrange(dib_data, 12, dib_data.len()));
    assert(modified_dib@ == patched(dib_data@));
    if modified_dib.len() > layout.and_mask_offset as usize {
        modified_dib.truncate(layout.and_mask_offset as usize);
    }
    assert(modified_dib@ =~= patched(dib_data@).take(kept_len(dib_data@)));
    if modified_dib.len() as u64 > (u32::MAX - BMP_FILE_HEADER_SIZE) as u64 {
        return Err(CursorError::Validation);
    }
    let file_size: u32 = BMP_FILE_HEADER_SIZE + modified_dib.len() as u32;
    let pixel_data_offset: u64 = BMP_FILE_HEADER_SIZE as u64 + layout.header_size as u64
        + layout.palette_size as u64;
    if pixel_data_offset > u32::MAX as u64 {
        return Err(CursorError::Validation);
    }
    let mut bmp_data: Vec<u8> = Vec::new();
    bmp_data.push(0x42);
    bmp_data.push(0x4D);
    push_u32_le(&mut bmp_data, file_size);
    push_u16_le(&mut bmp_data, 0);
    push_u16_le(&mut bmp_data, 0);
    push_u32_le(&mut bmp_data, pixel_data_offset as u32);
    assert(bmp_data@ =~= bmp_file_header(dib_data@));
    push_all(&mut bmp_data, modified_dib.as_slice());
    Ok(bmp_data)
}

/// The size of one row of the transparency mask: one bit per pixel, padded
/// to four bytes.
pub open spec fn mask_row_size(dib: Seq<u8>) -> int {
    (dib_width(dib) + 31) / 32 * 4
}

/// The index, in the bitmap, of the byte that holds the mask bit of the
/// pixel at column `x`, row `y`. Rows are stored from the bottom up.
pub open spec fn mask_byte_index(dib: Seq<u8>, x: int, y: int) -> int {
    and_mask_offset(dib) + (dib_height(dib) - 1 - y) * mask_row_size(dib) + x / 8
}

/// Whether the transparency mask marks the pixel at column `x`, row `y`:
/// the pixel lies inside the bitmap, its mask byte is present, and its
/// bit, counted from the most significant one, is set.
pub open spec fn mask_bit(dib: Seq<u8>, x: int, y: int) -> bool {
    &&& 0 <= x < dib_width(dib)
    &&& 0 <= y < dib_height(dib)
    &&& mask_byte_index(dib, x, y) < dib.len()
    &&& (dib[mask_byte_index(dib, x, y)] >> ((7 - x % 8) as u8)) & 1u8 == 1u8
}

/// Byte `i` of an image after the transparency mask has been applied: the
/// alpha of a marked pixel becomes 0, everything else stays.
pub open spec fn masked_byte(img: ImageView, dib: Seq<u8>, i: int) -> u8 {
    if i % 4 == 3 && img.width > 0 && mask_bit(dib, (i / 4) % (img.width as int), (i / 4) / (
    img.width as int)) {
        0
    } else {
        img.pixels[i]
    }
}

/// An image with the transparency mask of its bitmap applied.
pub open spec fn masked(img: ImageView, dib: Seq<u8>) -> ImageView {
    ImageView {
        width: img.width,
        height: img.height,
        pixels: Seq::new(img.pixels.len(), |i: int| masked_byte(img, dib, i)),
    }
}

/// What applying the transparency mask of `dib` to `img` gives. A bitmap
/// without a header or without a mask leaves the image as it is.
pub open spec fn and_masked(img: ImageView, dib: Seq<u8>) -> Result<ImageView, CursorError> {
    if dib.len() < DIB_HEADER_MIN {
        Ok(img)
    } else if !layout_fits(dib) {
        Err(CursorError::Validation)
    } else if dib.len() <= and_mask_offset(dib) {
        Ok(img)
    } else {
        Ok(masked(img, dib))
    }
}

/// Tests the mask bit of one pixel.
fn mask_bit_at(dib: &[u8], layout: &DibLayout, x: u32, y: u32) -> (r: bool)
    requires
        dib@.len() >= DIB_HEADER_MIN,
        layout_fits(dib@),
        layout.width == dib_width(dib@),
        layout.height == dib_height(dib@),
        layout.and_mask_offset == and_mask_offset(dib@),
    ensures
        r == mask_bit(dib@, x as int, y as int),
{
    if x >= layout.width || y >= layout.height {
        return false;
    }
    let row: u64 = (layout.width as u64 + 31) / 32 * 4;
    let up: u64 = (layout.height - 1 - y) as u64;
    assert(0 <= up * row <= 0xffff_ffff * 0x2000_0000) by (nonlinear_arith)
        requires
            0 <= up <= 0xffff_ffff,
            0 <= row <= 0x2000_0000,
    ;
    let index: u64 = layout.and_mask_offset as u64 + up * row + (x / 8) as u64;
    if index >= dib.len() as u64 {
        return false;
    }
    let byte = dib[index as usize];
    let shift: u8 = (7 - x % 8) as u8;
    (byte >> shift) & 1u8 == 1u8
}

/// Reconstructs transparency from the AND mask of an embedded bitmap: the
/// alpha of every pixel whose mask bit is set becomes 0.
///
/// Fails with [`CursorError::Validation`], leaving the image untouched,
/// when a size of the bitmap's layout overflows 32 bits.
pub fn apply_and_mask(image: &mut RgbaImage, dib_data: &[u8]) -> (r: Result<(), CursorError>)
    ensures
        match and_masked(old(image)@, dib_data@) {
            Ok(img) => r is Ok && final(image)@ == img,
            Err(e) => r == Err::<(), CursorError>(e) && final(image)@ == old(image)@,
        },
{
    if dib_data.len() < DIB_HEADER_MIN {
        return Ok(());
    }
    let layout = match dib_layout(dib_data) {
        Ok(l) => l,
        Err(e) => {
            return Err(e);
        },
    };
    if dib_data.len() <= layout.and_mask_offset as usize {
        return Ok(());
    }
    let width = image.width();
    let height = image.height();
    let ghost before = image@;
    if width == 0 {
        assert(image@.pixels.len() == 0) by (nonlinear_arith)
            requires
                image@.pixels.len() == 4 * (image@.width * image@.height),
                image@.width == 0,
        ;
        assert(image@.pixels =~= masked(before, dib_data@).pixels);
        return Ok(());
    }
    let mut y: u32 = 0;
    while y < height
        invariant
            y <= height,
            width > 0,
            dib_data@.len() >= DIB_HEADER_MIN,
            layout_fits(dib_data@),
            layout.width == dib_width(dib_data@),
            layout.height == dib_height(dib_data@),
            layout.and_mask_offset == and_mask_offset(dib_data@),
            image@.width == width == before.width,
            image@.height == height == before.height,
            image@.wf(),
            before.wf(),
            forall|i: int|
                0 <= i < 4 * (y * width) ==> image@.pixels[i] == masked_byte(before, dib_data@, i),
            forall|i: int|
                4 * (y * width) <= i < image@.pixels.len() ==> image@.pixels[i] == before.pixels[i],
        decreases height - y,
    {
        let mut x: u32 = 0;
        while x < width
            invariant
                x <= width,
                y < height,
                width > 0,
                dib_data@.len() >= DIB_HEADER_MIN,
                layout_fits(dib_data@),
                layout.width == dib_width(dib_data@),
                layout.height == dib_height(dib_data@),
                layout.and_mask_offset == and_mask_offset(dib_data@),
                image@.width == width == before.width,
                image@.height == height == before.height,
                image@.wf(),
                before.wf(),
                forall|i: int|
                    0 <= i < 4 * (y * width + x) ==> image@.pixels[i] == masked_byte(
                        before,
                        dib_data@,
                        i,
                    ),
                forall|i: int|
                    4 * (y * width + x) <= i < image@.pixels.len() ==> image@.pixels[i]
                        == before.pixels[i],
            decreases width - x,
        {
            let ghost p = y * width + x;
            proof {
                crate::pipeline::raster::lemma_offset_in_bounds(image@, x as int, y as int);
                lemma_pixel_coordinates(width as int, x as int, y as int);
            }
            if mask_bit_at(dib_data, &layout, x, y) {
                image.set_alpha(x, y, 0);
            }
            assert forall|i: int| 4 * p <= i < 4 * p + 4 implies image@.pixels[i] == masked_byte(
                before,
                dib_data@,
                i,
            ) by {
                assert(i / 4 == p);
            }
            x += 1;
        }
        assert(y * width + width == (y + 1) * width) by (nonlinear_arith);
        y += 1;
    }
    assert(image@.pixels =~= masked(before, dib_data@).pixels);
    Ok(())
}

/// The pixel at column `x` of row `y` is pixel number `y * width + x`.
pub proof fn lemma_pixel_coordinates(width: int, x: int, y: int)
    requires
        0 <= x < width,
        0 <= y,
    ensures
        (y * width + x) % width == x,
        (y * width + x) / width == y,
{
    vstd::arithmetic::div_mod::lemma_fundamental_div_mod_converse(y * width + x, width, y, x);
}

/// The transparency mask is complete: it holds a row for every row of the
/// bitmap.
pub open spec fn mask_complete(dib: Seq<u8>) -> bool {
    and_mask_offset(dib) + mask_row_size(dib) * dib_height(dib) <= dib.len()
}

/// Every byte of the transparency mask has the value `v`.
pub open spec fn mask_filled_with(dib: Seq<u8>, v: u8) -> bool {
    forall|i: int| and_mask_offset(dib) <= i < dib.len() ==> dib[i] == v
}

/// The mask byte of every pixel of a bitmap with a complete mask lies
/// inside the mask.
proof fn lemma_mask_byte_present(dib: Seq<u8>, x: int, y: int)
    requires
        dib.len() >= DIB_HEADER_MIN,
        layout_fits(dib),
        mask_complete(dib),
        0 <= x < dib_width(dib),
        0 <= y < dib_height(dib),
    ensures
        and_mask_offset(dib) <= mask_byte_index(dib, x, y) < dib.len(),
{
    let row = mask_row_size(dib);
    let h = dib_height(dib);
    assert(x / 8 < row);
    assert(0 <= (h - 1 - y) * row && (h - 1 - y) * row + row <= row * h) by (nonlinear_arith)
        requires
            0 <= y < h,
            0 <= row,
    ;
}

/// A fully set transparency mask makes every pixel transparent: for an
/// image no larger than its bitmap, whose mask is complete and holds only
/// set bits, every pixel has alpha 0 after the mask is applied.
pub proof fn lemma_full_mask_clears_alpha(img: ImageView, dib: Seq<u8>, x: int, y: int)
    requires
        img.wf(),
        img.contains(x, y),
        dib.len() >= DIB_HEADER_MIN,
        layout_fits(dib),
        mask_complete(dib),
        mask_filled_with(dib, 0xFF),
        img.width <= dib_width(dib),
        img.height <= dib_height(dib),
    ensures
        and_masked(img, dib) == Ok::<ImageView, CursorError>(masked(img, dib)),
        masked(img, dib).alpha(x, y) == 0,
        masked(img, dib).width == img.width,
        masked(img, dib).height == img.height,
{
    crate::pipeline::raster::lemma_offset_in_bounds(img, x, y);
    lemma_pixel_coordinates(img.width as int, x, y);
    lemma_mask_byte_present(dib, x, y);
    let i = img.offset(x, y) + 3;
    assert(i / 4 == y * img.width + x);
    let shift = (7 - x % 8) as u8;
    assert((0xFFu8 >> shift) & 1u8 == 1u8) by (bit_vector)
        requires
            shift < 8,
    ;
    assert(mask_bit(dib, x, y));
    assert(masked(img, dib).pixels[i] == masked_byte(img, dib, i));
}

/// A fully clear transparency mask changes nothing: alpha stays what the
/// colour layer gave, 255 wherever that layer was opaque.
pub proof fn lemma_empty_mask_keeps_image(img: ImageView, dib: Seq<u8>)
    requires
        dib.len() >= DIB_HEADER_MIN,
        layout_fits(dib),
        mask_filled_with(dib, 0),
    ensures
        and_masked(img, dib) == Ok::<ImageView, CursorError>(img),
{
    if dib.len() > and_mask_offset(dib) {
        assert forall|i: int| 0 <= i < img.pixels.len() implies masked_byte(img, dib, i)
            == img.pixels[i] by {
            if i % 4 == 3 && img.width > 0 {
                let x = (i / 4) % (img.width as int);
                let y = (i / 4) / (img.width as int);
                if 0 <= x < dib_width(dib) && 0 <= y < dib_height(dib) && mask_byte_index(
                    dib,
                    x,
                    y,
                ) < dib.len() {
                    let row = mask_row_size(dib);
                    let h = dib_height(dib);
                    assert(0 <= (h - 1 - y) * row) by (nonlinear_arith)
                        requires
                            0 <= y < h,
                            0 <= row,
                    ;
                    let shift = (7 - x % 8) as u8;
                    assert((0u8 >> shift) & 1u8 == 0u8) by (bit_vector)
                        requires
                            shift < 8,
                    ;
                    assert(!mask_bit(dib, x, y));
                }
            }
        }
        assert(masked(img, dib).pixels =~= img.pixels);
    }
}

} // verus!
