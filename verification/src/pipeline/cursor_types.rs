//! Cursors as the pipeline describes them to the interactive layer.

use vstd::prelude::*;

verus! {

/// One animation step of a size variant: its image file and how long it
/// is shown.
#[derive(Debug)]
pub struct Frame {
    pub png_path: String,
    pub delay_ms: u32,
}

/// The frames of one nominal size of a cursor, with the hotspot of that
/// size.
#[derive(Debug)]
pub struct SizeVariant {
    pub size: u32,
    pub frames: Vec<Frame>,
    pub hotspot: (u32, u32),
}

/// A cursor: its X11 name, the Windows names that stand for it, its size
/// variants in ascending order of size, and where it was loaded from.
#[derive(Debug)]
pub struct CursorMeta {
    pub x11_name: String,
    pub win_names: Vec<String>,
    pub variants: Vec<SizeVariant>,
    pub src_cursor_path: Option<String>,
}

/// The mathematical content of a [`Frame`].
pub struct FrameView {
    pub png_path: Seq<char>,
    pub delay_ms: u32,
}

impl View for Frame {
    type V = FrameView;

    open spec fn view(&self) -> FrameView {
        FrameView { png_path: self.png_path@, delay_ms: self.delay_ms }
    }
}

/// The mathematical content of a [`SizeVariant`].
pub struct VariantView {
    pub size: u32,
    pub frames: Seq<FrameView>,
    pub hotspot: (u32, u32),
}

/// The views of a list of frames.
pub open spec fn frame_list(frames: Seq<Frame>) -> Seq<FrameView> {
    Seq::new(frames.len(), |i: int| frames[i]@)
}

impl View for SizeVariant {
    type V = VariantView;

    open spec fn view(&self) -> VariantView {
        VariantView { size: self.size, frames: frame_list(self.frames@), hotspot: self.hotspot }
    }
}

/// The views of a list of variants.
pub open spec fn variant_list(variants: Seq<SizeVariant>) -> Seq<VariantView> {
    Seq::new(variants.len(), |i: int| variants[i]@)
}

} // verus!
