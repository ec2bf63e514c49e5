//! The conversion of decoded frames to an Xcursor file: hotspot overrides,
//! uniform scaling, synthesis of missing sizes, and serialisation.

use crate::error::CursorError;
use crate::pipeline::raster::resize_lanczos3;
use crate::pipeline::win2xcur::ani::{ani_color_warnings, parse_ani, AniParser};
use crate::pipeline::win2xcur::cur::{
    color_warnings, frame_views, parse_cur, CurParser, CursorFrame, CursorFrameView,
    CursorImage, CursorImageView,
};
use crate::pipeline::win2xcur::utils::{
    can_resize, frames_scale_fit, is_scaled_frame, resize_fits, scale_frames, scale_hotspot,
    scaled_hotspot, ScaleFactor,
};
use crate::pipeline::win2xcur::xcursor_writer::{all_chunks, to_x11};
use crate::pipeline::win2xcur::{detected_format, CursorFormat};
use crate::pipeline::xcursor_format::{encodable, xcursor_encoding};
use std::collections::HashMap;
use vstd::prelude::*;
use vstd::std_specs::hash::group_hash_axioms;

verus! {

broadcast use group_hash_axioms;

/// The parameters of one conversion.
#[derive(Debug)]
pub struct ConversionOptions {
    /// A uniform scale factor applied to every image.
    pub scale: Option<ScaleFactor>,
    /// Hotspots that replace the decoded ones, by nominal size.
    pub hotspot_overrides: HashMap<u32, (u32, u32)>,
    /// The nominal sizes that every frame must offer.
    pub target_sizes: Vec<u32>,
}

impl ConversionOptions {
    /// Options that change nothing.
    pub fn new() -> (r: ConversionOptions)
        ensures
            r.scale is None,
            r.hotspot_overrides@ == Map::<u32, (u32, u32)>::empty(),
            r.target_sizes@ == Seq::<u32>::empty(),
    {
        ConversionOptions {
            scale: None,
            hotspot_overrides: HashMap::new(),
            target_sizes: Vec::new(),
        }
    }

    /// Sets the uniform scale factor `numerator / denominator`.
    pub fn with_scale(self, numerator: u32, denominator: u32) -> (r: ConversionOptions)
        ensures
            r.scale == Some(ScaleFactor { numerator, denominator }),
            r.hotspot_overrides@ == self.hotspot_overrides@,
            r.target_sizes@ == self.target_sizes@,
    {
        let mut options = self;
        options.scale = Some(ScaleFactor { numerator, denominator });
        options
    }

    /// Sets the hotspot of the images of nominal size `size`.
    pub fn with_hotspot_override(self, size: u32, x: u32, y: u32) -> (r: ConversionOptions)
        ensures
            r.scale == self.scale,
            r.hotspot_overrides@ == self.hotspot_overrides@.insert(size, (x, y)),
            r.target_sizes@ == self.target_sizes@,
    {
        let mut options = self;
        options.hotspot_overrides.insert(size, (x, y));
        options
    }

    /// Sets the nominal sizes that every frame must offer.
    pub fn with_target_sizes(self, sizes: Vec<u32>) -> (r: ConversionOptions)
        ensures
            r.scale == self.scale,
            r.hotspot_overrides@ == self.hotspot_overrides@,
            r.target_sizes@ == sizes@,
    {
        let mut options = self;
        options.target_sizes = sizes;
        options
    }
}

/// The low 16 bits of a coordinate.
pub open spec fn truncated(v: u32) -> u16 {
    (v % 0x1_0000) as u16
}

/// A coordinate capped at the largest 16-bit value.
pub open spec fn saturated(v: u32) -> u16 {
    if v > u16::MAX {
        u16::MAX
    } else {
        v as u16
    }
}

/// An image with the hotspot that is registered for its nominal size, if
/// there is one.
pub open spec fn with_override(
    img: CursorImageView,
    overrides: Map<u32, (u32, u32)>,
) -> CursorImageView {
    if overrides.contains_key(img.nominal_size) {
        CursorImageView {
            hotspot: (
                truncated(overrides[img.nominal_size].0),
                truncated(overrides[img.nominal_size].1),
            ),
            ..img
        }
    } else {
        img
    }
}

/// What the hotspot overrides do to a frame.
pub open spec fn is_overridden(
    before: CursorFrame,
    after: CursorFrame,
    overrides: Map<u32, (u32, u32)>,
) -> bool {
    &&& after.delay == before.delay
    &&& after.images@.len() == before.images@.len()
    &&& forall|j: int|
        0 <= j < before.images@.len() ==> (#[trigger] after.images@[j])@ == with_override(
            before.images@[j]@,
            overrides,
        )
}

/// What the hotspot overrides do to a list of frames.
pub open spec fn all_overridden(
    before: Seq<CursorFrame>,
    after: Seq<CursorFrame>,
    overrides: Map<u32, (u32, u32)>,
) -> bool {
    &&& after.len() == before.len()
    &&& forall|i: int|
        0 <= i < before.len() ==> is_overridden(before[i], #[trigger] after[i], overrides)
}

/// Replaces the hotspot of every image whose nominal size has an override.
pub fn apply_hotspot_overrides(frames: &mut Vec<CursorFrame>, options: &ConversionOptions)
    ensures
        all_overridden(old(frames)@, final(frames)@, options.hotspot_overrides@),
{
    let mut i: usize = 0;
    while i < frames.len()
        invariant
            i <= frames@.len(),
            frames@.len() == old(frames)@.len(),
            forall|k: int|
                0 <= k < i ==> is_overridden(
                    old(frames)@[k],
                    #[trigger] frames@[k],
                    options.hotspot_overrides@,
                ),
            forall|k: int| i <= k < frames@.len() ==> frames@[k] == old(frames)@[k],
        decreases frames@.len() - i,
    {
        override_frame(&mut frames[i], options);
        i += 1;
    }
}

/// Replaces the hotspots of one frame.
fn override_frame(frame: &mut CursorFrame, options: &ConversionOptions)
    ensures
        is_overridden(*old(frame), *final(frame), options.hotspot_overrides@),
{
    let mut j: usize = 0;
    while j < frame.images.len()
        invariant
            j <= frame.images@.len(),
            frame.delay == old(frame).delay,
            frame.images@.len() == old(frame).images@.len(),
            forall|k: int|
                0 <= k < j ==> (#[trigger] frame.images@[k])@ == with_override(
                    old(frame).images@[k]@,
                    options.hotspot_overrides@,
                ),
            forall|k: int|
                j <= k < frame.images@.len() ==> frame.images@[k] == old(frame).images@[k],
        decreases frame.images@.len() - j,
    {
        let size = frame.images[j].nominal_size;
        match options.hotspot_overrides.get(&size) {
            Some(hotspot) => {
                let x: u16 = (hotspot.0 % 0x1_0000) as u16;
                let y: u16 = (hotspot.1 % 0x1_0000) as u16;
                frame.images[j].hotspot = (x, y);
            },
            None => {},
        }
        j += 1;
    }
}

/// Whether one of the first `k` images has the nominal size `size`.
pub open spec fn has_size(images: Seq<CursorImage>, size: u32, k: int) -> bool {
    exists|j: int| 0 <= j < k && j < images.len() && (#[trigger] images[j]).nominal_size == size
}

/// The index of the image to resample from among the first `k`: the one
/// with the largest nominal size, the last of them where several share it.
pub open spec fn source_index(images: Seq<CursorImage>, k: int) -> int
    decreases k,
{
    if k <= 1 {
        0
    } else if images[k - 1].nominal_size >= images[source_index(images, k - 1)].nominal_size {
        k - 1
    } else {
        source_index(images, k - 1)
    }
}

/// The source index names an image.
pub proof fn lemma_source_index_bounds(images: Seq<CursorImage>, k: int)
    requires
        1 <= k <= images.len(),
    ensures
        0 <= source_index(images, k) < k,
    decreases k,
{
    if k > 1 {
        lemma_source_index_bounds(images, k - 1);
    }
}

/// Those of the first `k` target sizes that the images do not offer, in
/// order. A size that is requested twice is listed twice.
pub open spec fn missing_sizes(images: Seq<CursorImage>, targets: Seq<u32>, k: int) -> Seq<u32>
    decreases k,
{
    if k <= 0 {
        Seq::empty()
    } else if has_size(images, targets[k - 1], images.len() as int) {
        missing_sizes(images, targets, k - 1)
    } else {
        missing_sizes(images, targets, k - 1).push(targets[k - 1])
    }
}

/// The hotspot of an image synthesized at nominal size `size`: the
/// override for that size, or the hotspot of the source rescaled in
/// proportion to the nominal sizes.
pub open spec fn synthesized_hotspot(
    source: CursorImageView,
    size: u32,
    overrides: Map<u32, (u32, u32)>,
) -> (u16, u16) {
    if overrides.contains_key(size) {
        (saturated(overrides[size].0), saturated(overrides[size].1))
    } else {
        (
            scaled_hotspot(source.hotspot.0, size, source.nominal_size),
            scaled_hotspot(source.hotspot.1, size, source.nominal_size),
        )
    }
}

/// What a synthesized image is: an exact square of its nominal size,
/// resampled from the source, with the synthesized hotspot.
pub open spec fn is_synthesized(
    source: CursorImageView,
    made: CursorImageView,
    size: u32,
    overrides: Map<u32, (u32, u32)>,
) -> bool {
    &&& made.nominal_size == size
    &&& made.image.width == size
    &&& made.image.height == size
    &&& made.image.wf()
    &&& made.hotspot == synthesized_hotspot(source, size, overrides)
    &&& (source.image.width == size && source.image.height == size && size > 0 ==> made.image
        == source.image)
}

/// Whether every missing size of a frame can be synthesized.
pub open spec fn synthesis_fits(frame: CursorFrame, targets: Seq<u32>) -> bool {
    let missing = missing_sizes(frame.images@, targets, targets.len() as int);
    frame.images@.len() > 0 ==> forall|k: int|
        0 <= k < missing.len() ==> resize_fits(
            frame.images@[source_index(frame.images@, frame.images@.len() as int)].image@.width,
            #[trigger] missing[k],
            missing[k],
        )
}

/// What synthesis does to a frame: the images that were there stay, and
/// one image follows for every missing target size, in the order of the
/// targets. A frame without images stays empty.
pub open spec fn is_completed(
    before: CursorFrame,
    after: CursorFrame,
    options: ConversionOptions,
) -> bool {
    let missing = missing_sizes(
        before.images@,
        options.target_sizes@,
        options.target_sizes@.len() as int,
    );
    let n = before.images@.len() as int;
    &&& after.delay == before.delay
    &&& forall|j: int|
        0 <= j < n && j < after.images@.len() ==> after.images@[j] == before.images@[j]
    &&& if n == 0 {
        after.images@.len() == 0
    } else {
        &&& after.images@.len() == n + missing.len()
        &&& forall|k: int|
            0 <= k < missing.len() ==> is_synthesized(
                before.images@[source_index(before.images@, n)]@,
                (#[trigger] after.images@[n + k])@,
                missing[k],
                options.hotspot_overrides@,
            )
    }
}

/// Tests whether one of the images has the nominal size `size`.
fn offers_size(images: &Vec<CursorImage>, size: u32) -> (r: bool)
    ensures
        r == has_size(images@, size, images@.len() as int),
{
    let mut j: usize = 0;
    while j < images.len()
        invariant
            j <= images@.len(),
            !has_size(images@, size, j as int),
        decreases images@.len() - j,
    {
        if images[j].nominal_size == size {
            return true;
        }
        j += 1;
    }
    false
}

/// Finds the image to resample from.
fn find_source(images: &Vec<CursorImage>) -> (r: usize)
    requires
        images@.len() > 0,
    ensures
        r == source_index(images@, images@.len() as int),
        r < images@.len(),
{
    let mut best: usize = 0;
    let mut k: usize = 1;
    while k < images.len()
        invariant
            1 <= k <= images@.len(),
            best == source_index(images@, k as int),
            best < k,
        decreases images@.len() - k,
    {
        if images[k].nominal_size >= images[best].nominal_size {
            best = k;
        }
        k += 1;
    }
    best
}

/// Lists the target sizes that a frame does not offer.
fn list_missing(images: &Vec<CursorImage>, targets: &Vec<u32>) -> (r: Vec<u32>)
    ensures
        r@ == missing_sizes(images@, targets@, targets@.len() as int),
{
    let mut missing: Vec<u32> = Vec::new();
    let mut k: usize = 0;
    while k < targets.len()
        invariant
            k <= targets@.len(),
            missing@ == missing_sizes(images@, targets@, k as int),
        decreases targets@.len() - k,
    {
        if !offers_size(images, targets[k]) {
            missing.push(targets[k]);
        }
        k += 1;
    }
    missing
}

/// Tests whether every size of a list can be resampled from a source of
/// the given width.
fn all_resizes_fit(source_width: u32, sizes: &Vec<u32>) -> (r: bool)
    ensures
        r == forall|k: int|
            0 <= k < sizes@.len() ==> resize_fits(source_width, #[trigger] sizes@[k], sizes@[k]),
{
    let mut k: usize = 0;
    while k < sizes.len()
        invariant
            k <= sizes@.len(),
            forall|j: int|
                0 <= j < k ==> resize_fits(source_width, #[trigger] sizes@[j], sizes@[j]),
        decreases sizes@.len() - k,
    {
        if !can_resize(source_width, sizes[k], sizes[k]) {
            return false;
        }
        k += 1;
    }
    true
}

/// Synthesizes one image of nominal size `size` from `source`.
fn synthesize(source: &CursorImage, size: u32, options: &ConversionOptions) -> (made: CursorImage)
    requires
        resize_fits(source.image@.width, size, size),
    ensures
        is_synthesized(source@, made@, size, options.hotspot_overrides@),
{
    let scaled_img = resize_lanczos3(&source.image, size, size);
    let hotspot: (u16, u16) = match options.hotspot_overrides.get(&size) {
        Some(value) => (
            if value.0 > 0xffff {
                0xffffu16
            } else {
                value.0 as u16
            },
            if value.1 > 0xffff {
                0xffffu16
            } else {
                value.1 as u16
            },
        ),
        None => (
            scale_hotspot(source.hotspot.0, size, source.nominal_size),
            scale_hotspot(source.hotspot.1, size, source.nominal_size),
        ),
    };
    CursorImage { image: scaled_img, hotspot, nominal_size: size }
}

/// Adds to a frame an image for every target size that it does not offer.
///
/// Fails with [`CursorError::Validation`], leaving the frame untouched,
/// exactly when a missing size cannot be resampled.
pub fn complete_frame(frame: &mut CursorFrame, options: &ConversionOptions) -> (r: Result<
    (),
    CursorError,
>)
    ensures
        synthesis_fits(*old(frame), options.target_sizes@) ==> r is Ok && is_completed(
            *old(frame),
            *final(frame),
            *options,
        ),
        !synthesis_fits(*old(frame), options.target_sizes@) ==> r == Err::<(), CursorError>(
            CursorError::Validation,
        ) && *final(frame) == *old(frame),
{
    if frame.images.len() == 0 {
        return Ok(());
    }
    let source_at = find_source(&frame.images);
    let missing = list_missing(&frame.images, &options.target_sizes);
    let source_width = frame.images[source_at].image.width();
    if !all_resizes_fit(source_width, &missing) {
        return Err(CursorError::Validation);
    }
    let n = frame.images.len();
    let mut k: usize = 0;
    while k < missing.len()
        invariant
            k <= missing@.len(),
            n == old(frame).images@.len(),
            n > 0,
            source_at == source_index(old(frame).images@, n as int),
            source_at < n,
            frame.delay == old(frame).delay,
            frame.images@.len() == n + k,
            forall|j: int| 0 <= j < n ==> frame.images@[j] == old(frame).images@[j],
            forall|j: int|
                0 <= j < missing@.len() ==> resize_fits(
                    old(frame).images@[source_at as int].image@.width,
                    #[trigger] missing@[j],
                    missing@[j],
                ),
            forall|j: int|
                0 <= j < k ==> is_synthesized(
                    old(frame).images@[source_at as int]@,
                    (#[trigger] frame.images@[n + j])@,
                    missing@[j],
                    options.hotspot_overrides@,
                ),
        decreases missing@.len() - k,
    {
        let made = synthesize(&frame.images[source_at], missing[k], options);
        frame.images.push(made);
        k += 1;
    }
    Ok(())
}

/// Whether every frame can be completed.
pub open spec fn all_synthesis_fits(frames: Seq<CursorFrame>, targets: Seq<u32>) -> bool {
    forall|i: int| 0 <= i < frames.len() ==> synthesis_fits(#[trigger] frames[i], targets)
}

/// What synthesis does to a list of frames.
pub open spec fn all_completed(
    before: Seq<CursorFrame>,
    after: Seq<CursorFrame>,
    options: ConversionOptions,
) -> bool {
    &&& after.len() == before.len()
    &&& forall|i: int|
        0 <= i < before.len() ==> is_completed(before[i], #[trigger] after[i], options)
}

/// Adds to every frame an image for every target size that it does not
/// offer, resampled from the largest image of the frame.
///
/// Fails with [`CursorError::Validation`] exactly when a missing size of
/// some frame cannot be resampled.
pub fn synthesize_target_sizes(frames: &mut Vec<CursorFrame>, options: &ConversionOptions) -> (r:
    Result<(), CursorError>)
    ensures
        all_synthesis_fits(old(frames)@, options.target_sizes@) ==> r is Ok && all_completed(
            old(frames)@,
            final(frames)@,
            *options,
        ),
        !all_synthesis_fits(old(frames)@, options.target_sizes@) ==> r == Err::<(), CursorError>(
            CursorError::Validation,
        ),
{
    let mut i: usize = 0;
    while i < frames.len()
        invariant
            i <= frames@.len(),
            frames@.len() == old(frames)@.len(),
            forall|k: int|
                0 <= k < i ==> synthesis_fits(#[trigger] old(frames)@[k], options.target_sizes@),
            forall|k: int|
                0 <= k < i ==> is_completed(old(frames)@[k], #[trigger] frames@[k], *options),
            forall|k: int| i <= k < frames@.len() ==> frames@[k] == old(frames)@[k],
        decreases frames@.len() - i,
    {
        match complete_frame(&mut frames[i], options) {
            Ok(()) => {},
            Err(e) => {
                assert(!synthesis_fits(old(frames)@[i as int], options.target_sizes@));
                return Err(e);
            },
        }
        i += 1;
    }
    Ok(())
}

/// What the optional scaling does to a list of frames.
pub open spec fn all_scaled(
    before: Seq<CursorFrame>,
    after: Seq<CursorFrame>,
    scale: Option<ScaleFactor>,
) -> bool {
    match scale {
        None => after == before,
        Some(factor) => {
            &&& after.len() == before.len()
            &&& forall|i: int|
                0 <= i < before.len() ==> is_scaled_frame(#[trigger] before[i], after[i], factor)
        },
    }
}

/// Whether the optional scaling can be done.
pub open spec fn scaling_fits(frames: Seq<CursorFrame>, scale: Option<ScaleFactor>) -> bool {
    match scale {
        None => true,
        Some(factor) => frames_scale_fit(frames, factor),
    }
}

/// The stages that lead from decoded frames to the frames that are
/// written: first the hotspot overrides give `overridden`, then the
/// optional scaling gives `scaled`, then the synthesis of missing target
/// sizes gives `completed`.
pub open spec fn is_prepared(
    frames: Seq<CursorFrame>,
    options: ConversionOptions,
    overridden: Seq<CursorFrame>,
    scaled: Seq<CursorFrame>,
    completed: Seq<CursorFrame>,
) -> bool {
    &&& all_overridden(frames, overridden, options.hotspot_overrides@)
    &&& all_scaled(overridden, scaled, options.scale)
    &&& all_completed(scaled, completed, options)
}

/// Why a conversion can fail: a frame cannot be scaled, a missing size
/// cannot be synthesized, or the prepared frames do not fit an Xcursor
/// file.
pub open spec fn preparation_fails(
    frames: Seq<CursorFrame>,
    options: ConversionOptions,
    overridden: Seq<CursorFrame>,
    scaled: Seq<CursorFrame>,
    completed: Seq<CursorFrame>,
) -> bool {
    &&& all_overridden(frames, overridden, options.hotspot_overrides@)
    &&& {
        ||| !scaling_fits(overridden, options.scale)
        ||| {
            &&& all_scaled(overridden, scaled, options.scale)
            &&& !all_synthesis_fits(scaled, options.target_sizes@)
        }
        ||| {
            &&& all_scaled(overridden, scaled, options.scale)
            &&& all_completed(scaled, completed, options)
            &&& !encodable(all_chunks(completed))
        }
    }
}

/// Converts decoded frames to an Xcursor file.
///
/// The frames pass through the hotspot overrides, the optional uniform
/// scaling and the synthesis of missing target sizes, and are then
/// serialised. The pixels of resampled images are whatever the resampling
/// filter gives; everything else of the result is determined. Every
/// failure is a [`CursorError::Validation`] and has one of the causes of
/// [`preparation_fails`].
pub fn convert_to_x11(frames: Vec<CursorFrame>, options: &ConversionOptions) -> (r: Result<
    Vec<u8>,
    CursorError,
>)
    ensures
        r matches Ok(bytes) ==> exists|
            overridden: Seq<CursorFrame>,
            scaled: Seq<CursorFrame>,
            completed: Seq<CursorFrame>,
        |
            #![trigger is_prepared(frames@, *options, overridden, scaled, completed)]
            is_prepared(frames@, *options, overridden, scaled, completed) && encodable(
                all_chunks(completed),
            ) && bytes@ == xcursor_encoding(all_chunks(completed)),
        r matches Err(e) ==> e == CursorError::Validation && exists|
            overridden: Seq<CursorFrame>,
            scaled: Seq<CursorFrame>,
            completed: Seq<CursorFrame>,
        |
            #![trigger preparation_fails(frames@, *options, overridden, scaled, completed)]
            preparation_fails(frames@, *options, overridden, scaled, completed),
{
    let mut frames = frames;
    let ghost given = frames@;
    if !options.hotspot_overrides.is_empty() {
        apply_hotspot_overrides(&mut frames, options);
    } else {
        proof {
            lemma_no_overrides(frames@, options.hotspot_overrides@);
        }
    }
    let ghost overridden = frames@;
    match options.scale {
        Some(factor) => {
            match scale_frames(&mut frames, factor) {
                Ok(()) => {},
                Err(e) => {
                    assert(preparation_fails(given, *options, overridden, overridden, overridden));
                    return Err(e);
                },
            }
        },
        None => {},
    }
    let ghost scaled = frames@;
    if options.target_sizes.len() > 0 {
        match synthesize_target_sizes(&mut frames, options) {
            Ok(()) => {},
            Err(e) => {
                assert(preparation_fails(given, *options, overridden, scaled, scaled));
                return Err(e);
            },
        }
    } else {
        proof {
            lemma_no_targets(frames@, *options);
        }
    }
    let ghost completed = frames@;
    assert(is_prepared(given, *options, overridden, scaled, completed));
    match to_x11(frames.as_slice()) {
        Ok(bytes) => Ok(bytes),
        Err(e) => {
            assert(preparation_fails(given, *options, overridden, scaled, completed));
            Err(e)
        },
    }
}

/// Without overrides, no hotspot changes.
pub proof fn lemma_no_overrides(frames: Seq<CursorFrame>, overrides: Map<u32, (u32, u32)>)
    requires
        overrides.is_empty(),
    ensures
        all_overridden(frames, frames, overrides),
{
    assert forall|i: int| 0 <= i < frames.len() implies is_overridden(
        frames[i],
        #[trigger] frames[i],
        overrides,
    ) by {
        assert forall|j: int| 0 <= j < frames[i].images@.len() implies (
        #[trigger] frames[i].images@[j])@ == with_override(frames[i].images@[j]@, overrides) by {
            assert(!overrides.dom().contains(frames[i].images@[j].nominal_size));
        }
    }
}

/// Without target sizes, no image is added.
pub proof fn lemma_no_targets(frames: Seq<CursorFrame>, options: ConversionOptions)
    requires
        options.target_sizes@.len() == 0,
    ensures
        all_synthesis_fits(frames, options.target_sizes@),
        all_completed(frames, frames, options),
{
}

/// The frames that a Windows cursor file holds: those of a `.cur` file
/// where it opens like one, those of an `.ani` file where it opens like
/// one. Anything else is a format error.
pub open spec fn decoded_frames(data: Seq<u8>) -> Result<Seq<CursorFrameView>, CursorError> {
    match detected_format(data) {
        Some(CursorFormat::Cur) => match parse_cur(data) {
            Ok(images) => Ok(seq![CursorFrameView { images, delay: 0 }]),
            Err(e) => Err(e),
        },
        Some(CursorFormat::Ani) => parse_ani(data),
        None => Err(CursorError::Format),
    }
}

/// The warnings that a Windows cursor file deserves: those of its
/// directory, or of the directories of its frames. A file that is no
/// cursor file has none.
pub open spec fn decoding_warnings(data: Seq<u8>) -> Seq<Seq<char>> {
    match detected_format(data) {
        Some(CursorFormat::Cur) => color_warnings(data),
        Some(CursorFormat::Ani) => ani_color_warnings(data),
        None => Seq::empty(),
    }
}

/// Collects the warnings that a Windows cursor file of either kind
/// deserves. They do not keep the file from being decoded.
pub fn windows_cursor_warnings(data: &[u8]) -> (lines: Vec<String>)
    ensures
        lines.deep_view() == decoding_warnings(data@),
{
    match CursorFormat::detect(data) {
        Some(CursorFormat::Cur) => CurParser::color_warnings(data),
        Some(CursorFormat::Ani) => AniParser::color_warnings(data),
        None => {
            let lines: Vec<String> = Vec::new();
            assert(lines.deep_view() =~= Seq::<Seq<char>>::empty());
            lines
        },
    }
}

/// Decodes a Windows cursor file of either kind.
pub fn decode_windows_cursor(data: &[u8]) -> (r: Result<Vec<CursorFrame>, CursorError>)
    ensures
        match decoded_frames(data@) {
            Ok(frames) => r is Ok && frame_views(r->Ok_0@) == frames,
            Err(e) => r is Err && r->Err_0 == e,
        },
{
    match CursorFormat::detect(data) {
        Some(CursorFormat::Cur) => match CurParser::parse(data) {
            Ok(frames) => {
                assert(frame_views(frames@) =~= seq![frames@[0]@]);
                Ok(frames)
            },
            Err(e) => Err(e),
        },
        Some(CursorFormat::Ani) => AniParser::parse(data),
        None => Err(CursorError::Format),
    }
}

/// Converts the bytes of a Windows cursor file to the bytes of an Xcursor
/// file.
///
/// A file that cannot be decoded fails with the error of
/// [`decoded_frames`]; the decoded frames are converted as
/// [`convert_to_x11`] says.
pub fn convert_windows_cursor(data: &[u8], options: &ConversionOptions) -> (r: Result<
    Vec<u8>,
    CursorError,
>)
    ensures
        decoded_frames(data@) matches Err(e) ==> r is Err && r->Err_0 == e,
        decoded_frames(data@) is Ok ==> exists|frames: Seq<CursorFrame>|
            #![trigger frame_views(frames)]
            frame_views(frames) == decoded_frames(data@)->Ok_0 && converted(frames, *options, r),
{
    let frames = match decode_windows_cursor(data) {
        Ok(frames) => frames,
        Err(e) => {
            return Err(e);
        },
    };
    let ghost decoded = frames@;
    let r = convert_to_x11(frames, options);
    assert(converted(decoded, *options, r));
    r
}

/// What [`convert_to_x11`] promises of its result.
pub open spec fn converted(
    frames: Seq<CursorFrame>,
    options: ConversionOptions,
    r: Result<Vec<u8>, CursorError>,
) -> bool {
    match r {
        Ok(bytes) => exists|
            overridden: Seq<CursorFrame>,
            scaled: Seq<CursorFrame>,
            completed: Seq<CursorFrame>,
        |
            #![trigger is_prepared(frames, options, overridden, scaled, completed)]
            is_prepared(frames, options, overridden, scaled, completed) && encodable(
                all_chunks(completed),
            ) && bytes@ == xcursor_encoding(all_chunks(completed)),
        Err(e) => e == CursorError::Validation && exists|
            overridden: Seq<CursorFrame>,
            scaled: Seq<CursorFrame>,
            completed: Seq<CursorFrame>,
        |
            #![trigger preparation_fails(frames, options, overridden, scaled, completed)]
            preparation_fails(frames, options, overridden, scaled, completed),
    }
}

/// Converts every file of a batch, each on its own: the result of a file
/// does not depend on the others.
pub fn batch_convert(files: &Vec<Vec<u8>>, options: &ConversionOptions) -> (results: Vec<
    Result<Vec<u8>, CursorError>,
>)
    ensures
        results@.len() == files@.len(),
        forall|i: int|
            0 <= i < files@.len() ==> conversion_result(
                files@[i]@,
                *options,
                #[trigger] results@[i],
            ),
{
    let mut results: Vec<Result<Vec<u8>, CursorError>> = Vec::new();
    let mut i: usize = 0;
    while i < files.len()
        invariant
            i <= files@.len(),
            results@.len() == i,
            forall|k: int|
                0 <= k < i ==> conversion_result(files@[k]@, *options, #[trigger] results@[k]),
        decreases files@.len() - i,
    {
        let r = convert_windows_cursor(files[i].as_slice(), options);
        results.push(r);
        i += 1;
    }
    results
}

/// What [`convert_windows_cursor`] promises of its result.
pub open spec fn conversion_result(
    data: Seq<u8>,
    options: ConversionOptions,
    r: Result<Vec<u8>, CursorError>,
) -> bool {
    &&& decoded_frames(data) matches Err(e) ==> r is Err && r->Err_0 == e
    &&& decoded_frames(data) is Ok ==> exists|frames: Seq<CursorFrame>|
        #![trigger frame_views(frames)]
        frame_views(frames) == decoded_frames(data)->Ok_0 && converted(frames, options, r)
}

} // verus!
