//! Cursors as the interactive layer edits them.

use vstd::prelude::*;

verus! {

/// One animation step of a size variant: its image file and how long it
/// is shown.
#[derive(Debug)]
pub struct Frame {
    pub png_path: String,
    pub delay_ms: u32,
}

/// The frames of one nominal size of a cursor, with the hotspot of that
/// size.
#[derive(Debug)]
pub struct SizeVariant {
    pub size: u32,
    pub frames: Vec<Frame>,
    pub hotspot: (u32, u32),
}

/// A cursor: its X11 name and its size variants, in ascending order of
/// size.
#[derive(Debug)]
pub struct CursorMeta {
    pub x11_name: String,
    pub variants: Vec<SizeVariant>,
}

impl Default for CursorMeta {
    fn default() -> (r: CursorMeta)
        ensures
            r.x11_name@ == Seq::<char>::empty(),
            r.variants@ == Seq::<SizeVariant>::empty(),
    {
        CursorMeta { x11_name: String::new(), variants: Vec::new() }
    }
}

} // verus!
