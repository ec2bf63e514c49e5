//! Transformations of decoded frames: uniform scaling and the integer
//! parts of drop-shadow compositing.

use crate::error::CursorError;
use crate::pipeline::raster::{lemma_offset_in_bounds, resize_lanczos3, ImageView, RgbaImage};
use crate::pipeline::win2xcur::cur::{CursorFrame, CursorImage, CursorImageView};
use vstd::prelude::*;

verus! {

/// A uniform scale factor, given as a ratio.
#[derive(Clone, Copy, Debug, PartialEq, Eq, Structural)]
pub struct ScaleFactor {
    pub numerator: u32,
    pub denominator: u32,
}

/// `value` times `numerator / denominator`, rounded to the nearest integer
/// with halves rounded up. A zero denominator gives the largest value for
/// a positive product and 0 otherwise.
pub open spec fn scaled(value: int, numerator: int, denominator: int) -> int {
    if denominator == 0 {
        if value > 0 && numerator > 0 {
            u64::MAX as int
        } else {
            0
        }
    } else {
        (2 * (value * numerator) + denominator) / (2 * denominator)
    }
}

/// A scaled length, capped at the largest 32-bit value.
pub open spec fn scaled_length(len: u32, numerator: u32, denominator: u32) -> u32 {
    if scaled(len as int, numerator as int, denominator as int) > u32::MAX {
        u32::MAX
    } else {
        scaled(len as int, numerator as int, denominator as int) as u32
    }
}

/// A scaled hotspot coordinate, capped at the largest 16-bit value.
pub open spec fn scaled_hotspot(coordinate: u16, numerator: u32, denominator: u32) -> u16 {
    if scaled(coordinate as int, numerator as int, denominator as int) > u16::MAX {
        u16::MAX
    } else {
        scaled(coordinate as int, numerator as int, denominator as int) as u16
    }
}

/// Computes [`scaled`], capped at the largest 64-bit value.
fn scale_value(value: u32, numerator: u32, denominator: u32) -> (r: u64)
    ensures
        r == scaled(value as int, numerator as int, denominator as int),
{
    if denominator == 0 {
        if value > 0 && numerator > 0 {
            u64::MAX
        } else {
            0
        }
    } else {
        assert(0 <= value * numerator <= 0xffff_ffff * 0xffff_ffff) by (nonlinear_arith)
            requires
                0 <= value <= 0xffff_ffff,
                0 <= numerator <= 0xffff_ffff,
        ;
        let product: u128 = (value as u128) * (numerator as u128);
        let q: u128 = (2 * product + denominator as u128) / (2 * (denominator as u128));
        proof {
            let d = denominator as int;
            let p = product as int;
            assert(q == (2 * p + d) / (2 * d));
            vstd::arithmetic::div_mod::lemma_fundamental_div_mod(2 * p + d, 2 * d);
            assert(q <= p + 1) by (nonlinear_arith)
                requires
                    2 * p + d == (2 * d) * q + (2 * p + d) % (2 * d),
                    0 <= (2 * p + d) % (2 * d),
                    d >= 1,
                    p >= 0,
            ;
        }
        q as u64
    }
}

/// Computes [`scaled_length`].
pub fn scale_length(len: u32, numerator: u32, denominator: u32) -> (r: u32)
    ensures
        r == scaled_length(len, numerator, denominator),
{
    let v = scale_value(len, numerator, denominator);
    if v > u32::MAX as u64 {
        u32::MAX
    } else {
        v as u32
    }
}

/// Computes [`scaled_hotspot`].
pub fn scale_hotspot(coordinate: u16, numerator: u32, denominator: u32) -> (r: u16)
    ensures
        r == scaled_hotspot(coordinate, numerator, denominator),
{
    let v = scale_value(coordinate as u32, numerator, denominator);
    if v > u16::MAX as u64 {
        u16::MAX
    } else {
        v as u16
    }
}

/// Whether an image of width `source_width` can be resampled to `width`
/// by `height`: the result and the intermediate buffer are addressable.
pub open spec fn resize_fits(source_width: u32, width: u32, height: u32) -> bool {
    &&& 4 * (width * height) <= isize::MAX
    &&& 16 * (source_width * height) <= isize::MAX
}

/// Tests [`resize_fits`].
pub fn can_resize(source_width: u32, width: u32, height: u32) -> (r: bool)
    ensures
        r == resize_fits(source_width, width, height),
{
    assert(0 <= width * height <= 0xffff_ffff * 0xffff_ffff) by (nonlinear_arith)
        requires
            0 <= width <= 0xffff_ffff,
            0 <= height <= 0xffff_ffff,
    ;
    assert(0 <= source_width * height <= 0xffff_ffff * 0xffff_ffff) by (nonlinear_arith)
        requires
            0 <= source_width <= 0xffff_ffff,
            0 <= height <= 0xffff_ffff,
    ;
    let out: u128 = 4 * ((width as u128) * (height as u128));
    let tmp: u128 = 16 * ((source_width as u128) * (height as u128));
    out <= isize::MAX as u128 && tmp <= isize::MAX as u128
}

/// The larger of two sizes.
pub open spec fn larger(a: u32, b: u32) -> u32 {
    if a >= b {
        a
    } else {
        b
    }
}

/// What scaling does to an image: its dimensions and its hotspot are
/// scaled, its nominal size is the larger new dimension. The pixels are
/// resampled; where the dimensions do not change they stay.
pub open spec fn is_scaled(
    before: CursorImageView,
    after: CursorImageView,
    scale: ScaleFactor,
) -> bool {
    &&& after.image.width == scaled_length(
        before.image.width,
        scale.numerator,
        scale.denominator,
    )
    &&& after.image.height == scaled_length(
        before.image.height,
        scale.numerator,
        scale.denominator,
    )
    &&& after.nominal_size == larger(after.image.width, after.image.height)
    &&& after.hotspot.0 == scaled_hotspot(before.hotspot.0, scale.numerator, scale.denominator)
    &&& after.hotspot.1 == scaled_hotspot(before.hotspot.1, scale.numerator, scale.denominator)
    &&& after.image.wf()
    &&& (after.image.width == before.image.width && after.image.height == before.image.height
        && after.image.width > 0 && after.image.height > 0 ==> after.image == before.image)
}

/// Whether an image can be scaled.
pub open spec fn scale_fits(image: CursorImageView, scale: ScaleFactor) -> bool {
    resize_fits(
        image.image.width,
        scaled_length(image.image.width, scale.numerator, scale.denominator),
        scaled_length(image.image.height, scale.numerator, scale.denominator),
    )
}

/// Scales one image.
pub fn scale_image(cursor: &mut CursorImage, scale: ScaleFactor) -> (r: Result<(), CursorError>)
    ensures
        scale_fits(old(cursor)@, scale) ==> r is Ok && is_scaled(
            old(cursor)@,
            final(cursor)@,
            scale,
        ),
        !scale_fits(old(cursor)@, scale) ==> r == Err::<(), CursorError>(CursorError::Validation)
            && final(cursor)@ == old(cursor)@,
{
    let width = cursor.image.width();
    let height = cursor.image.height();
    let new_width = scale_length(width, scale.numerator, scale.denominator);
    let new_height = scale_length(height, scale.numerator, scale.denominator);
    if !can_resize(width, new_width, new_height) {
        return Err(CursorError::Validation);
    }
    cursor.image = resize_lanczos3(&cursor.image, new_width, new_height);
    cursor.nominal_size = if new_width >= new_height {
        new_width
    } else {
        new_height
    };
    cursor.hotspot = (
        scale_hotspot(cursor.hotspot.0, scale.numerator, scale.denominator),
        scale_hotspot(cursor.hotspot.1, scale.numerator, scale.denominator),
    );
    Ok(())
}

/// Whether every image of a frame can be scaled.
pub open spec fn frame_scale_fits(frame: CursorFrame, scale: ScaleFactor) -> bool {
    forall|j: int| 0 <= j < frame.images@.len() ==> scale_fits(#[trigger] frame.images@[j]@, scale)
}

/// Whether every image of every frame can be scaled.
pub open spec fn frames_scale_fit(frames: Seq<CursorFrame>, scale: ScaleFactor) -> bool {
    forall|i: int| 0 <= i < frames.len() ==> frame_scale_fits(#[trigger] frames[i], scale)
}

/// What scaling does to a frame: every image is scaled, the delay stays.
pub open spec fn is_scaled_frame(
    before: CursorFrame,
    after: CursorFrame,
    scale: ScaleFactor,
) -> bool {
    &&& after.delay == before.delay
    &&& after.images@.len() == before.images@.len()
    &&& forall|j: int|
        0 <= j < before.images@.len() ==> is_scaled(
            #[trigger] before.images@[j]@,
            after.images@[j]@,
            scale,
        )
}

/// Tests whether an image can be scaled.
fn image_scale_fits(cursor: &CursorImage, scale: ScaleFactor) -> (r: bool)
    ensures
        r == scale_fits(cursor@, scale),
{
    let width = cursor.image.width();
    let height = cursor.image.height();
    can_resize(
        width,
        scale_length(width, scale.numerator, scale.denominator),
        scale_length(height, scale.numerator, scale.denominator),
    )
}

/// Tests whether every image of every frame can be scaled.
fn all_scale_fit(frames: &Vec<CursorFrame>, scale: ScaleFactor) -> (r: bool)
    ensures
        r == frames_scale_fit(frames@, scale),
{
    let mut i: usize = 0;
    while i < frames.len()
        invariant
            i <= frames@.len(),
            forall|k: int| 0 <= k < i ==> frame_scale_fits(#[trigger] frames@[k], scale),
        decreases frames@.len() - i,
    {
        let frame = &frames[i];
        let mut j: usize = 0;
        while j < frame.images.len()
            invariant
                j <= frame.images@.len(),
                i < frames@.len(),
                *frame == frames@[i as int],
                forall|k: int| 0 <= k < j ==> scale_fits(#[trigger] frame.images@[k]@, scale),
            decreases frame.images@.len() - j,
        {
            if !image_scale_fits(&frame.images[j], scale) {
                assert(!scale_fits(frame.images@[j as int]@, scale));
                assert(!frame_scale_fits(frames@[i as int], scale));
                return false;
            }
            j += 1;
        }
        i += 1;
    }
    true
}

/// Scales every image of a frame.
fn scale_frame(frame: &mut CursorFrame, scale: ScaleFactor)
    requires
        frame_scale_fits(*old(frame), scale),
    ensures
        is_scaled_frame(*old(frame), *final(frame), scale),
{
    let mut j: usize = 0;
    while j < frame.images.len()
        invariant
            j <= frame.images@.len(),
            frame.delay == old(frame).delay,
            frame.images@.len() == old(frame).images@.len(),
            forall|k: int|
                0 <= k < j ==> is_scaled(
                    #[trigger] old(frame).images@[k]@,
                    frame.images@[k]@,
                    scale,
                ),
            forall|k: int|
                j <= k < frame.images@.len() ==> frame.images@[k] == old(frame).images@[k],
            frame_scale_fits(*old(frame), scale),
        decreases frame.images@.len() - j,
    {
        assert(scale_fits(old(frame).images@[j as int]@, scale));
        let scaled = scale_image(&mut frame.images[j], scale);
        assert(scaled is Ok);
        j += 1;
    }
}

/// Resizes every image by a uniform factor, rescales its hotspot by the
/// same factor and recomputes its nominal size.
///
/// Fails with [`CursorError::Validation`], leaving the frames untouched,
/// exactly when a scaled image would not be addressable.
pub fn scale_frames(frames: &mut Vec<CursorFrame>, scale: ScaleFactor) -> (r: Result<
    (),
    CursorError,
>)
    ensures
        final(frames)@.len() == old(frames)@.len(),
        frames_scale_fit(old(frames)@, scale) ==> r is Ok && forall|i: int|
            0 <= i < old(frames)@.len() ==> is_scaled_frame(
                #[trigger] old(frames)@[i],
                final(frames)@[i],
                scale,
            ),
        !frames_scale_fit(old(frames)@, scale) ==> r == Err::<(), CursorError>(
            CursorError::Validation,
        ) && final(frames)@ == old(frames)@,
{
    if !all_scale_fit(frames, scale) {
        return Err(CursorError::Validation);
    }
    let mut i: usize = 0;
    while i < frames.len()
        invariant
            i <= frames@.len(),
            frames@.len() == old(frames)@.len(),
            frames_scale_fit(old(frames)@, scale),
            forall|k: int|
                0 <= k < i ==> is_scaled_frame(#[trigger] old(frames)@[k], frames@[k], scale),
            forall|k: int| i <= k < frames@.len() ==> frames@[k] == old(frames)@[k],
        decreases frames@.len() - i,
    {
        assert(frame_scale_fits(old(frames)@[i as int], scale));
        scale_frame(&mut frames[i], scale);
        i += 1;
    }
    Ok(())
}

/// One channel of a pixel laid over another: the weighted mean of the
/// two colours, rounded down. `total` is the alpha of the result, and the
/// weights are the alpha `sa` of the upper pixel and what it leaves of the
/// alpha `da` of the lower one, all in units of 1/65025.
pub open spec fn blended_channel(s: int, d: int, sa: int, da: int) -> int {
    (s * (sa * 255) + d * (da * (255 - sa))) / (sa * 255 + da * (255 - sa))
}

/// A pixel laid over another with the alpha-over rule. The alpha of the
/// result is `sa + da * (1 - sa)` on the scale of 0 to 1; two transparent
/// pixels give transparent black.
pub open spec fn blended(src: Seq<u8>, dst: Seq<u8>) -> Seq<u8> {
    let sa = src[3] as int;
    let da = dst[3] as int;
    let total = sa * 255 + da * (255 - sa);
    if total == 0 {
        seq![0u8, 0u8, 0u8, 0u8]
    } else {
        seq![
            blended_channel(src[0] as int, dst[0] as int, sa, da) as u8,
            blended_channel(src[1] as int, dst[1] as int, sa, da) as u8,
            blended_channel(src[2] as int, dst[2] as int, sa, da) as u8,
            (total / 255) as u8,
        ]
    }
}

/// Blends one channel.
fn blend_channel(s: u8, d: u8, sa: u8, da: u8) -> (r: u8)
    requires
        sa as int * 255 + da as int * (255 - sa as int) > 0,
    ensures
        r == blended_channel(s as int, d as int, sa as int, da as int),
{
    let upper: u64 = (sa as u64) * 255;
    let rest: u64 = 255 - sa as u64;
    assert(0 <= (da as int) * (rest as int) <= 255 * 255) by (nonlinear_arith)
        requires
            0 <= rest <= 255,
            0 <= da <= 255,
    ;
    let lower: u64 = (da as u64) * rest;
    assert((s as int) * (upper as int) <= 255 * (upper as int) && (d as int) * (lower as int)
        <= 255 * (lower as int) && 0 <= (s as int) * (upper as int) && 0 <= (d as int) * (
    lower as int)) by (nonlinear_arith)
        requires
            0 <= s <= 255,
            0 <= d <= 255,
            0 <= upper,
            0 <= lower,
    ;
    let total: u64 = upper + lower;
    let mixed: u64 = (s as u64) * upper + (d as u64) * lower;
    let q = mixed / total;
    assert(q <= 255) by (nonlinear_arith)
        requires
            q == mixed / total,
            mixed <= 255 * total,
            total > 0,
            0 <= mixed,
    ;
    q as u8
}

/// Lays one pixel over another.
pub fn blend_over(src: [u8; 4], dst: [u8; 4]) -> (r: [u8; 4])
    ensures
        r@ == blended(src@, dst@),
{
    let sa = src[3];
    let da = dst[3];
    let upper: u64 = (sa as u64) * 255;
    let rest: u64 = 255 - sa as u64;
    assert(0 <= (da as int) * (rest as int) <= 255 * 255) by (nonlinear_arith)
        requires
            0 <= rest <= 255,
            0 <= da <= 255,
    ;
    let lower: u64 = (da as u64) * rest;
    let total: u64 = upper + lower;
    if total == 0 {
        let r = [0u8, 0u8, 0u8, 0u8];
        assert(r@ =~= blended(src@, dst@));
        return r;
    }
    let r = [
        blend_channel(src[0], dst[0], sa, da),
        blend_channel(src[1], dst[1], sa, da),
        blend_channel(src[2], dst[2], sa, da),
        (total / 255) as u8,
    ];
    assert(r@ =~= blended(src@, dst@));
    r
}

/// What laying `src` over `dst` gives: inside `src` every pixel is
/// blended, the rest of `dst` stays.
pub open spec fn composited(dst: ImageView, src: ImageView) -> ImageView {
    ImageView {
        width: dst.width,
        height: dst.height,
        pixels: Seq::new(
            dst.pixels.len(),
            |i: int|
                if dst.width > 0 && (i / 4) % (dst.width as int) < src.width && (i / 4) / (
                dst.width as int) < src.height {
                    blended(
                        src.pixel((i / 4) % (dst.width as int), (i / 4) / (dst.width as int)),
                        dst.pixel((i / 4) % (dst.width as int), (i / 4) / (dst.width as int)),
                    )[i % 4]
                } else {
                    dst.pixels[i]
                },
        ),
    }
}

/// Lays `src` over `dst`, with the top left corners aligned.
pub fn composite_over(dst: &mut RgbaImage, src: &RgbaImage)
    ensures
        final(dst)@ == composited(old(dst)@, src@),
{
    let width = dst.width();
    let height = dst.height();
    let src_width = src.width();
    let src_height = src.height();
    let ghost before = dst@;
    let ghost want = composited(before, src@);
    if width == 0 {
        assert(dst@.pixels.len() == 0) by (nonlinear_arith)
            requires
                dst@.pixels.len() == 4 * (dst@.width * dst@.height),
                dst@.width == 0,
        ;
        assert(dst@.pixels =~= want.pixels);
        return ;
    }
    let mut y: u32 = 0;
    while y < height
        invariant
            y <= height,
            width > 0,
            dst@.width == width == before.width,
            dst@.height == height == before.height,
            src@.width == src_width,
            src@.height == src_height,
            src@.wf(),
            dst@.wf(),
            before.wf(),
            want == composited(before, src@),
            forall|i: int| 0 <= i < 4 * (y * width) ==> dst@.pixels[i] == want.pixels[i],
            forall|i: int|
                4 * (y * width) <= i < dst@.pixels.len() ==> dst@.pixels[i] == before.pixels[i],
        decreases height - y,
    {
        let mut x: u32 = 0;
        while x < width
            invariant
                x <= width,
                y < height,
                width > 0,
                dst@.width == width == before.width,
                dst@.height == height == before.height,
                src@.width == src_width,
                src@.height == src_height,
                src@.wf(),
                dst@.wf(),
                before.wf(),
                want == composited(before, src@),
                forall|i: int| 0 <= i < 4 * (y * width + x) ==> dst@.pixels[i] == want.pixels[i],
                forall|i: int|
                    4 * (y * width + x) <= i < dst@.pixels.len() ==> dst@.pixels[i]
                        == before.pixels[i],
            decreases width - x,
        {
            let ghost p = y * width + x;
            proof {
                lemma_offset_in_bounds(dst@, x as int, y as int);
                crate::pipeline::win2xcur::dib::lemma_pixel_coordinates(
                    width as int,
                    x as int,
                    y as int,
                );
            }
            if x < src_width && y < src_height {
                let upper = src.get_pixel(x, y);
                let lower = dst.get_pixel(x, y);
                assert(lower@ =~= before.pixel(x as int, y as int));
                let mixed = blend_over(upper, lower);
                dst.put_pixel(x, y, mixed);
            }
            assert forall|i: int| 4 * p <= i < 4 * p + 4 implies dst@.pixels[i]
                == want.pixels[i] by {
                assert(i / 4 == p);
            }
            x += 1;
        }
        assert(y * width + width == (y + 1) * width) by (nonlinear_arith);
        y += 1;
    }
    assert(dst@.pixels =~= want.pixels);
}

/// The colour and strength of a drop shadow, and how far it is moved
/// from the image, in pixels to the right and down.
#[derive(Clone, Copy, Debug)]
pub struct ShadowLayout {
    pub color: [u8; 3],
    pub opacity: u8,
    pub x_offset: u32,
    pub y_offset: u32,
}

/// The width or height of the canvas of a shadow: the image and three
/// times the offset.
pub open spec fn canvas_length(length: u32, offset: u32) -> int {
    length + 3 * offset
}

/// Whether the canvas of a shadow can be built for an image.
pub open spec fn canvas_fits(image: ImageView, layout: ShadowLayout) -> bool {
    &&& canvas_length(image.width, layout.x_offset) <= u32::MAX
    &&& canvas_length(image.height, layout.y_offset) <= u32::MAX
    &&& 4 * (canvas_length(image.width, layout.x_offset) * canvas_length(
        image.height,
        layout.y_offset,
    )) <= usize::MAX
}

/// Whether a pixel of the canvas lies in the image moved by the offset.
pub open spec fn in_moved_image(image: ImageView, layout: ShadowLayout, x: int, y: int) -> bool {
    &&& layout.x_offset <= x < layout.x_offset + image.width
    &&& layout.y_offset <= y < layout.y_offset + image.height
}

/// Byte `i` of the alpha mask of an image: the canvas is white and
/// transparent, and carries the alpha of the image moved by the offset.
pub open spec fn mask_byte(image: ImageView, layout: ShadowLayout, i: int) -> u8 {
    let w = canvas_length(image.width, layout.x_offset);
    let x = (i / 4) % w;
    let y = (i / 4) / w;
    if i % 4 != 3 {
        255
    } else if in_moved_image(image, layout, x, y) {
        image.alpha(x - layout.x_offset, y - layout.y_offset)
    } else {
        0
    }
}

/// The alpha mask of an image.
pub open spec fn alpha_mask_of(image: ImageView, layout: ShadowLayout) -> ImageView {
    ImageView {
        width: canvas_length(image.width, layout.x_offset) as u32,
        height: canvas_length(image.height, layout.y_offset) as u32,
        pixels: Seq::new(
            (4 * (canvas_length(image.width, layout.x_offset) * canvas_length(
                image.height,
                layout.y_offset,
            ))) as nat,
            |i: int| mask_byte(image, layout, i),
        ),
    }
}

/// Tests whether the canvas of a shadow can be built.
pub fn shadow_fits(image: &RgbaImage, layout: &ShadowLayout) -> (r: bool)
    ensures
        r == canvas_fits(image@, *layout),
{
    let w: u64 = image.width() as u64 + 3 * (layout.x_offset as u64);
    let h: u64 = image.height() as u64 + 3 * (layout.y_offset as u64);
    if w > u32::MAX as u64 || h > u32::MAX as u64 {
        return false;
    }
    assert(0 <= w * h <= 0xffff_ffff * 0xffff_ffff) by (nonlinear_arith)
        requires
            0 <= w <= 0xffff_ffff,
            0 <= h <= 0xffff_ffff,
    ;
    let bytes: u128 = 4 * ((w as u128) * (h as u128));
    bytes <= usize::MAX as u128
}

/// Builds the alpha mask of an image: a canvas that is larger than the
/// image by three times the offset, white and transparent, which carries
/// the alpha channel of the image moved by the offset. Blurring this mask
/// gives the shape of the shadow.
pub fn alpha_mask(image: &RgbaImage, layout: &ShadowLayout) -> (mask: RgbaImage)
    requires
        canvas_fits(image@, *layout),
    ensures
        mask@ == alpha_mask_of(image@, *layout),
        mask@.wf(),
{
    let width: u32 = image.width() + 3 * layout.x_offset;
    let height: u32 = image.height() + 3 * layout.y_offset;
    let iw = image.width();
    let ih = image.height();
    let ghost want = alpha_mask_of(image@, *layout);
    let mut data: Vec<u8> = Vec::new();
    let mut y: u32 = 0;
    while y < height
        invariant
            y <= height,
            width == canvas_length(image@.width, layout.x_offset),
            height == canvas_length(image@.height, layout.y_offset),
            iw == image@.width,
            ih == image@.height,
            image@.wf(),
            want == alpha_mask_of(image@, *layout),
            data@.len() == 4 * (y * width),
            forall|i: int| 0 <= i < data@.len() ==> data@[i] == want.pixels[i],
        decreases height - y,
    {
        let mut x: u32 = 0;
        while x < width
            invariant
                x <= width,
                y < height,
                width == canvas_length(image@.width, layout.x_offset),
                height == canvas_length(image@.height, layout.y_offset),
                iw == image@.width,
                ih == image@.height,
                image@.wf(),
                want == alpha_mask_of(image@, *layout),
                data@.len() == 4 * (y * width + x),
                forall|i: int| 0 <= i < data@.len() ==> data@[i] == want.pixels[i],
            decreases width - x,
        {
            let ghost p = y * width + x;
            proof {
                crate::pipeline::win2xcur::dib::lemma_pixel_coordinates(
                    width as int,
                    x as int,
                    y as int,
                );
                assert(p < width * height) by (nonlinear_arith)
                    requires
                        p == y * width + x,
                        0 <= x < width,
                        0 <= y < height,
                ;
            }
            let alpha = if x >= layout.x_offset && x - layout.x_offset < iw && y >= layout.y_offset
                && y - layout.y_offset < ih {
                let pixel = image.get_pixel(x - layout.x_offset, y - layout.y_offset);
                proof {
                    lemma_offset_in_bounds(
                        image@,
                        x - layout.x_offset,
                        y - layout.y_offset,
                    );
                    assert(pixel@[3] == image@.alpha(x - layout.x_offset, y - layout.y_offset));
                }
                pixel[3]
            } else {
                0
            };
            assert(alpha == mask_byte(image@, *layout, 4 * p + 3));
            assert(want.pixels.len() == 4 * (width * height));
            data.push(255);
            data.push(255);
            data.push(255);
            data.push(alpha);
            assert forall|i: int| 4 * p <= i < 4 * p + 4 implies data@[i] == want.pixels[i] by {
                assert(i / 4 == p);
            }
            x += 1;
        }
        assert(y * width + width == (y + 1) * width) by (nonlinear_arith);
        y += 1;
    }
    assert(data@.len() == 4 * (width * height)) by (nonlinear_arith)
        requires
            data@.len() == 4 * (height * width),
    ;
    assert(data@ =~= want.pixels);
    RgbaImage::from_raw(width, height, data).unwrap()
}

/// The shadow that a blurred mask casts: the colour of the shadow, with
/// the alpha of the mask weakened by the opacity.
pub open spec fn shadow_of(blurred: ImageView, layout: ShadowLayout) -> ImageView {
    ImageView {
        width: blurred.width,
        height: blurred.height,
        pixels: Seq::new(
            blurred.pixels.len(),
            |i: int|
                if i % 4 == 3 {
                    (blurred.pixels[i] as int * layout.opacity as int / 255) as u8
                } else {
                    layout.color@[i % 4]
                },
        ),
    }
}

/// Builds the shadow layer from a blurred alpha mask.
pub fn shadow_layer(blurred: &RgbaImage, layout: &ShadowLayout) -> (shadow: RgbaImage)
    ensures
        shadow@ == shadow_of(blurred@, *layout),
        shadow@.wf(),
{
    let raw = blurred.as_raw();
    let count = raw.len() / 4;
    let ghost want = shadow_of(blurred@, *layout);
    let mut data: Vec<u8> = Vec::new();
    let mut p: usize = 0;
    while p < count
        invariant
            p <= count,
            raw@ == blurred@.pixels,
            raw@.len() == 4 * count,
            raw@.len() <= usize::MAX,
            want == shadow_of(blurred@, *layout),
            data@.len() == 4 * p,
            forall|i: int| 0 <= i < 4 * p ==> data@[i] == want.pixels[i],
        decreases count - p,
    {
        let alpha = raw[4 * p + 3];
        assert(alpha as int * layout.opacity as int <= 255 * 255 && 0 <= alpha as int
            * layout.opacity as int) by (nonlinear_arith)
            requires
                0 <= alpha <= 255,
                0 <= layout.opacity <= 255,
        ;
        let weak: u8 = ((alpha as u32) * (layout.opacity as u32) / 255) as u8;
        data.push(layout.color[0]);
        data.push(layout.color[1]);
        data.push(layout.color[2]);
        data.push(weak);
        p += 1;
    }
    assert(data@ =~= want.pixels);
    RgbaImage::from_raw(blurred.width(), blurred.height(), data).unwrap()
}

/// Whether the pixel at column `x`, row `y` is part of the content of an
/// image: whether it is not fully transparent.
pub open spec fn has_content_at(image: ImageView, x: int, y: int) -> bool {
    image.contains(x, y) && image.alpha(x, y) > 0
}

/// The smallest box around the content of an image.
pub struct ContentBox {
    pub min_x: u32,
    pub max_x: u32,
    pub min_y: u32,
    pub max_y: u32,
}

/// Whether an image has no content.
pub open spec fn is_blank(image: ImageView) -> bool {
    forall|x: int, y: int| !has_content_at(image, x, y)
}

/// Whether a box is the tightest one around the content of an image: all
/// content lies inside, and each of its four sides touches content.
pub open spec fn is_content_box(image: ImageView, b: ContentBox) -> bool {
    &&& forall|x: int, y: int| #[trigger]
        has_content_at(image, x, y) ==> b.min_x <= x <= b.max_x && b.min_y <= y <= b.max_y
    &&& exists|y: int| has_content_at(image, b.min_x as int, y)
    &&& exists|y: int| has_content_at(image, b.max_x as int, y)
    &&& exists|x: int| has_content_at(image, x, b.min_y as int)
    &&& exists|x: int| has_content_at(image, x, b.max_y as int)
}

/// An image has at most one content box, and none when it is blank.
pub proof fn lemma_content_box_unique(image: ImageView, a: ContentBox, b: ContentBox)
    requires
        is_content_box(image, a),
        is_content_box(image, b),
    ensures
        a == b,
        !is_blank(image),
{
    let left = choose|y: int| has_content_at(image, a.min_x as int, y);
    let right = choose|y: int| has_content_at(image, a.max_x as int, y);
    let top = choose|x: int| has_content_at(image, x, a.min_y as int);
    let bottom = choose|x: int| has_content_at(image, x, a.max_y as int);
    assert(has_content_at(image, a.min_x as int, left));
    assert(has_content_at(image, a.max_x as int, right));
    assert(has_content_at(image, top, a.min_y as int));
    assert(has_content_at(image, bottom, a.max_y as int));
    let other_left = choose|y: int| has_content_at(image, b.min_x as int, y);
    let other_right = choose|y: int| has_content_at(image, b.max_x as int, y);
    let other_top = choose|x: int| has_content_at(image, x, b.min_y as int);
    let other_bottom = choose|x: int| has_content_at(image, x, b.max_y as int);
    assert(has_content_at(image, b.min_x as int, other_left));
    assert(has_content_at(image, b.max_x as int, other_right));
    assert(has_content_at(image, other_top, b.min_y as int));
    assert(has_content_at(image, other_bottom, b.max_y as int));
}

/// Whether the pixel at column `x`, row `y` comes before the pixel at
/// column `at_x`, row `at_y` in reading order.
pub open spec fn read_before(x: int, y: int, at_x: int, at_y: int) -> bool {
    y < at_y || (y == at_y && x < at_x)
}

/// Finds the tightest box around the content of an image, if it has any.
pub fn content_box(image: &RgbaImage) -> (r: Option<ContentBox>)
    ensures
        r is None ==> is_blank(image@),
        r matches Some(b) ==> is_content_box(image@, b),
{
    let width = image.width();
    let height = image.height();
    let mut found = false;
    let mut b = ContentBox { min_x: 0, max_x: 0, min_y: 0, max_y: 0 };
    let mut y: u32 = 0;
    while y < height
        invariant
            y <= height,
            width == image@.width,
            height == image@.height,
            !found ==> forall|px: int, py: int|
                read_before(px, py, 0, y as int) ==> !has_content_at(image@, px, py),
            found ==> {
                &&& forall|px: int, py: int| #[trigger]
                    has_content_at(image@, px, py) && read_before(px, py, 0, y as int) ==> b.min_x
                        <= px <= b.max_x && b.min_y <= py <= b.max_y
                &&& exists|py: int| has_content_at(image@, b.min_x as int, py)
                &&& exists|py: int| has_content_at(image@, b.max_x as int, py)
                &&& exists|px: int| has_content_at(image@, px, b.min_y as int)
                &&& exists|px: int| has_content_at(image@, px, b.max_y as int)
            },
        decreases height - y,
    {
        let mut x: u32 = 0;
        while x < width
            invariant
                x <= width,
                y < height,
                width == image@.width,
                height == image@.height,
                !found ==> forall|px: int, py: int|
                    read_before(px, py, x as int, y as int) ==> !has_content_at(image@, px, py),
                found ==> {
                    &&& forall|px: int, py: int| #[trigger]
                        has_content_at(image@, px, py) && read_before(px, py, x as int, y as int)
                            ==> b.min_x <= px <= b.max_x && b.min_y <= py <= b.max_y
                    &&& exists|py: int| has_content_at(image@, b.min_x as int, py)
                    &&& exists|py: int| has_content_at(image@, b.max_x as int, py)
                    &&& exists|px: int| has_content_at(image@, px, b.min_y as int)
                    &&& exists|px: int| has_content_at(image@, px, b.max_y as int)
                },
            decreases width - x,
        {
            let pixel = image.get_pixel(x, y);
            proof {
                lemma_offset_in_bounds(image@, x as int, y as int);
                assert(pixel@[3] == image@.alpha(x as int, y as int));
            }
            let ghost old_b = b;
            let ghost was_found = found;
            if pixel[3] > 0 {
                assert(has_content_at(image@, x as int, y as int));
                if !found {
                    b = ContentBox { min_x: x, max_x: x, min_y: y, max_y: y };
                    found = true;
                } else {
                    if x < b.min_x {
                        b.min_x = x;
                    }
                    if x > b.max_x {
                        b.max_x = x;
                    }
                    if y < b.min_y {
                        b.min_y = y;
                    }
                    if y > b.max_y {
                        b.max_y = y;
                    }
                }
            }
            proof {
                if found {
                    if was_found {
                        let a = choose|py: int| has_content_at(image@, old_b.min_x as int, py);
                        let c = choose|py: int| has_content_at(image@, old_b.max_x as int, py);
                        let d = choose|px: int| has_content_at(image@, px, old_b.min_y as int);
                        let e = choose|px: int| has_content_at(image@, px, old_b.max_y as int);
                        assert(has_content_at(image@, old_b.min_x as int, a));
                        assert(has_content_at(image@, old_b.max_x as int, c));
                        assert(has_content_at(image@, d, old_b.min_y as int));
                        assert(has_content_at(image@, e, old_b.max_y as int));
                        assert(has_content_at(image@, b.min_x as int, if b.min_x == old_b.min_x {
                            a
                        } else {
                            y as int
                        }));
                        assert(has_content_at(image@, b.max_x as int, if b.max_x == old_b.max_x {
                            c
                        } else {
                            y as int
                        }));
                        assert(has_content_at(image@, if b.min_y == old_b.min_y {
                            d
                        } else {
                            x as int
                        }, b.min_y as int));
                        assert(has_content_at(image@, if b.max_y == old_b.max_y {
                            e
                        } else {
                            x as int
                        }, b.max_y as int));
                    }
                    assert forall|px: int, py: int| #[trigger]
                        has_content_at(image@, px, py) && read_before(
                            px,
                            py,
                            x + 1,
                            y as int,
                        ) implies b.min_x <= px <= b.max_x && b.min_y <= py <= b.max_y by {
                        if !(px == x && py == y) {
                            assert(read_before(px, py, x as int, y as int));
                        }
                    }
                }
            }
            x += 1;
        }
        y += 1;
    }
    if found {
        assert forall|px: int, py: int| #[trigger] has_content_at(image@, px, py) implies b.min_x
            <= px <= b.max_x && b.min_y <= py <= b.max_y by {
            assert(read_before(px, py, 0, height as int));
        }
        Some(b)
    } else {
        assert forall|px: int, py: int| !has_content_at(image@, px, py) by {
            if image@.contains(px, py) {
                assert(read_before(px, py, 0, height as int));
            }
        }
        None
    }
}

/// The larger of two lengths.
pub open spec fn at_least(length: int, minimum: u32) -> int {
    if length >= minimum {
        length
    } else {
        minimum as int
    }
}

/// An image cut to a box, but not below a minimum size: the result shows
/// the image from the top left corner of the box on, and is transparent
/// black where that reaches past the image.
pub open spec fn cut_to(
    image: ImageView,
    b: ContentBox,
    min_width: u32,
    min_height: u32,
) -> ImageView {
    let w = at_least(b.max_x - b.min_x + 1, min_width);
    let h = at_least(b.max_y - b.min_y + 1, min_height);
    ImageView {
        width: w as u32,
        height: h as u32,
        pixels: Seq::new(
            (4 * (w * h)) as nat,
            |i: int|
                if image.contains(b.min_x + (i / 4) % w, b.min_y + (i / 4) / w) {
                    image.pixels[image.offset(b.min_x + (i / 4) % w, b.min_y + (i / 4) / w) + i % 4]
                } else {
                    0
                },
        ),
    }
}

/// A transparent black image.
pub open spec fn blank(width: u32, height: u32) -> ImageView {
    ImageView {
        width,
        height,
        pixels: Seq::new((4 * (width * height)) as nat, |i: int| 0u8),
    }
}

/// Whether an image can be trimmed: an image of the minimum size, and one
/// as large as the larger of the image and the minimum, are addressable.
pub open spec fn trim_fits(image: ImageView, min_width: u32, min_height: u32) -> bool {
    4 * (at_least(image.width as int, min_width) * at_least(image.height as int, min_height))
        <= usize::MAX
}

/// Trims an image to the tightest box around its content, but not below
/// a minimum size. An image without content becomes a transparent image
/// of the minimum size.
pub fn trim_to_content(image: &RgbaImage, min_width: u32, min_height: u32) -> (r: RgbaImage)
    requires
        trim_fits(image@, min_width, min_height),
    ensures
        r@.wf(),
        is_blank(image@) ==> r@ == blank(min_width, min_height),
        !is_blank(image@) ==> exists|b: ContentBox|
            #![trigger is_content_box(image@, b)]
            is_content_box(image@, b) && r@ == cut_to(image@, b, min_width, min_height),
{
    let width = image.width();
    let height = image.height();
    proof {
        let aw = at_least(width as int, min_width);
        let ah = at_least(height as int, min_height);
        assert(min_width * min_height <= aw * ah && 0 <= min_width * min_height)
            by (nonlinear_arith)
            requires
                0 <= min_width <= aw,
                0 <= min_height <= ah,
        ;
    }
    let b = match content_box(image) {
        None => {
            let r = RgbaImage::new(min_width, min_height);
            assert(r@.pixels =~= blank(min_width, min_height).pixels);
            return r;
        },
        Some(b) => b,
    };
    proof {
        let px = choose|px: int| has_content_at(image@, px, b.min_y as int);
        assert(has_content_at(image@, px, b.min_y as int));
        let py = choose|py: int| has_content_at(image@, b.max_x as int, py);
        assert(has_content_at(image@, b.max_x as int, py));
        let qy = choose|qy: int| has_content_at(image@, b.min_x as int, qy);
        assert(has_content_at(image@, b.min_x as int, qy));
        let qx = choose|qx: int| has_content_at(image@, qx, b.max_y as int);
        assert(has_content_at(image@, qx, b.max_y as int));
    }
    let content_width: u32 = if b.max_x - b.min_x + 1 >= min_width {
        b.max_x - b.min_x + 1
    } else {
        min_width
    };
    let content_height: u32 = if b.max_y - b.min_y + 1 >= min_height {
        b.max_y - b.min_y + 1
    } else {
        min_height
    };
    let ghost want = cut_to(image@, b, min_width, min_height);
    proof {
        let aw = at_least(width as int, min_width);
        let ah = at_least(height as int, min_height);
        assert(content_width * content_height <= aw * ah && 0 <= content_width * content_height)
            by (nonlinear_arith)
            requires
                0 <= content_width <= aw,
                0 <= content_height <= ah,
        ;
    }
    let mut data: Vec<u8> = Vec::new();
    let mut y: u32 = 0;
    while y < content_height
        invariant
            y <= content_height,
            width == image@.width,
            height == image@.height,
            image@.wf(),
            b.min_x <= b.max_x < width,
            b.min_y <= b.max_y < height,
            content_width == at_least(b.max_x - b.min_x + 1, min_width),
            content_height == at_least(b.max_y - b.min_y + 1, min_height),
            want == cut_to(image@, b, min_width, min_height),
            data@.len() == 4 * (y * content_width),
            forall|i: int| 0 <= i < data@.len() ==> data@[i] == want.pixels[i],
        decreases content_height - y,
    {
        let mut x: u32 = 0;
        while x < content_width
            invariant
                x <= content_width,
                y < content_height,
                width == image@.width,
                height == image@.height,
                image@.wf(),
                b.min_x <= b.max_x < width,
                b.min_y <= b.max_y < height,
                content_width == at_least(b.max_x - b.min_x + 1, min_width),
                content_height == at_least(b.max_y - b.min_y + 1, min_height),
                want == cut_to(image@, b, min_width, min_height),
                data@.len() == 4 * (y * content_width + x),
                forall|i: int| 0 <= i < data@.len() ==> data@[i] == want.pixels[i],
            decreases content_width - x,
        {
            let ghost p = y * content_width + x;
            proof {
                crate::pipeline::win2xcur::dib::lemma_pixel_coordinates(
                    content_width as int,
                    x as int,
                    y as int,
                );
                assert(p < content_width * content_height) by (nonlinear_arith)
                    requires
                        p == y * content_width + x,
                        0 <= x < content_width,
                        0 <= y < content_height,
                ;
                assert(want.pixels.len() == 4 * (content_width * content_height));
            }
            let src_x: u64 = b.min_x as u64 + x as u64;
            let src_y: u64 = b.min_y as u64 + y as u64;
            let pixel: [u8; 4] = if src_x < width as u64 && src_y < height as u64 {
                let pixel = image.get_pixel(src_x as u32, src_y as u32);
                proof {
                    lemma_offset_in_bounds(image@, src_x as int, src_y as int);
                    assert forall|c: int| 0 <= c < 4 implies pixel@[c] == image@.pixels[
                        image@.offset(src_x as int, src_y as int) + c
                    ] by {}
                }
                pixel
            } else {
                [0u8, 0u8, 0u8, 0u8]
            };
            data.push(pixel[0]);
            data.push(pixel[1]);
            data.push(pixel[2]);
            data.push(pixel[3]);
            assert forall|i: int| 4 * p <= i < 4 * p + 4 implies data@[i] == want.pixels[i] by {
                assert(i / 4 == p);
            }
            x += 1;
        }
        assert(y * content_width + content_width == (y + 1) * content_width)
            by (nonlinear_arith);
        y += 1;
    }
    assert(data@.len() == 4 * (content_width * content_height)) by (nonlinear_arith)
        requires
            data@.len() == 4 * (content_height * content_width),
    ;
    assert(data@ =~= want.pixels);
    assert(!is_blank(image@)) by {
        let px = choose|px: int| has_content_at(image@, px, b.min_y as int);
        assert(has_content_at(image@, px, b.min_y as int));
    }
    RgbaImage::from_raw(content_width, content_height, data).unwrap()
}

/// The image with its shadow: the shadow layer on a transparent canvas,
/// the image over it, trimmed to the content but not below the size of
/// the image.
pub open spec fn is_shadowed(image: ImageView, shadow: ImageView, r: ImageView) -> bool {
    let canvas = composited(composited(blank(shadow.width, shadow.height), shadow), image);
    &&& is_blank(canvas) ==> r == blank(image.width, image.height)
    &&& !is_blank(canvas) ==> exists|b: ContentBox|
        #![trigger is_content_box(canvas, b)]
        is_content_box(canvas, b) && r == cut_to(canvas, b, image.width, image.height)
}

/// Puts a shadow under an image.
///
/// `blurred` is the blurred alpha mask of the image. It is coloured and
/// weakened into the shadow layer, the image is laid over it, and the
/// result is trimmed to its content, but not below the size of the image.
pub fn compose_shadow(image: &RgbaImage, blurred: &RgbaImage, layout: &ShadowLayout) -> (r:
    RgbaImage)
    requires
        trim_fits(blurred@, image@.width, image@.height),
    ensures
        r@.wf(),
        is_shadowed(image@, shadow_of(blurred@, *layout), r@),
{
    let shadow = shadow_layer(blurred, layout);
    let w = blurred.width();
    let h = blurred.height();
    proof {
        let aw = at_least(w as int, image@.width);
        let ah = at_least(h as int, image@.height);
        assert(w * h <= aw * ah && 0 <= w * h) by (nonlinear_arith)
            requires
                0 <= w <= aw,
                0 <= h <= ah,
        ;
    }
    let mut result = RgbaImage::new(w, h);
    assert(result@.pixels =~= blank(w, h).pixels);
    composite_over(&mut result, &shadow);
    composite_over(&mut result, image);
    let iw = image.width();
    let ih = image.height();
    trim_to_content(&result, iw, ih)
}

} // verus!
