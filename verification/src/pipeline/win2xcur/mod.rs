//! Decoding of Windows cursors and their conversion to the Xcursor format.

pub mod ani;
pub mod ani_layout;
pub mod converter;
pub mod cur;
pub mod dib;
pub mod utils;
pub mod xcursor_writer;

use crate::bytes::has_bytes_at;
use crate::error::CursorError;
use crate::pipeline::win2xcur::ani::{acon_type, riff_signature, AniParser};
use crate::pipeline::win2xcur::converter::{
    conversion_result, convert_windows_cursor, ConversionOptions,
};
use crate::pipeline::win2xcur::cur::{cur_magic, CurParser};
use vstd::prelude::*;

verus! {

/// The kinds of Windows cursor file.
#[derive(Debug, Clone, Copy, PartialEq, Eq, Structural)]
pub enum CursorFormat {
    /// A static cursor.
    Cur,
    /// An animated cursor.
    Ani,
}

/// The kind of file that a buffer opens like: a static cursor where it
/// opens with the cursor magic, an animated one where it opens as a RIFF
/// container of type `ACON`.
pub open spec fn detected_format(data: Seq<u8>) -> Option<CursorFormat> {
    if has_bytes_at(data, 0, cur_magic()) {
        Some(CursorFormat::Cur)
    } else if has_bytes_at(data, 0, riff_signature()) && has_bytes_at(data, 8, acon_type()) {
        Some(CursorFormat::Ani)
    } else {
        None
    }
}

impl CursorFormat {
    /// Tells the kind of a cursor file from its first bytes.
    pub fn detect(data: &[u8]) -> (r: Option<CursorFormat>)
        ensures
            r == detected_format(data@),
    {
        if data.len() < 4 {
            return None;
        }
        if CurParser::can_parse(data) {
            Some(CursorFormat::Cur)
        } else if AniParser::can_parse(data) {
            Some(CursorFormat::Ani)
        } else {
            None
        }
    }
}

/// Decodes a Windows cursor file of either kind and converts it to an
/// Xcursor file.
pub fn parse_and_convert(data: &[u8], options: &ConversionOptions) -> (r: Result<
    Vec<u8>,
    CursorError,
>)
    ensures
        conversion_result(data@, *options, r),
{
    convert_windows_cursor(data, options)
}

} // verus!
