//! Decoding of Xcursor files and extraction of their images.

pub mod extractor;
pub mod png_writer;
pub mod xcursor_reader;

use crate::error::CursorError;
use crate::pipeline::xcur2png::extractor::{
    extract_to_pngs, is_extraction_of, ExtractOptions, Extraction,
};
use vstd::prelude::*;

verus! {

/// The prefix of the files extracted from a cursor: the one that is
/// given, else the stem of the cursor's file name, else `cursor`.
pub open spec fn chosen_prefix(prefix: Option<&str>, file_stem: Option<&str>) -> Seq<char> {
    match prefix {
        Some(p) => p@,
        None => match file_stem {
            Some(s) => s@,
            None => "cursor"@,
        },
    }
}

/// Extracts every image of an Xcursor file as PNG, with a sidecar
/// document, under the chosen prefix and numbered from `initial_suffix`.
pub fn extract_cursor(
    data: &[u8],
    file_stem: Option<&str>,
    prefix: Option<&str>,
    initial_suffix: usize,
) -> (r: Result<Extraction, CursorError>)
    ensures
        exists|options: ExtractOptions|
            #![trigger is_extraction_of(data@, options, r)]
            {
                &&& options.prefix@ == chosen_prefix(prefix, file_stem)
                &&& options.initial_suffix == initial_suffix
                &&& options.write_config
                &&& options.config_name is None
                &&& options.extract_all_sizes
                &&& is_extraction_of(data@, options, r)
            },
{
    let name: &str = match prefix {
        Some(p) => p,
        None => match file_stem {
            Some(s) => s,
            None => "cursor",
        },
    };
    let options = ExtractOptions::new().with_prefix(name).with_initial_suffix(initial_suffix);
    let r = extract_to_pngs(data, &options);
    assert(is_extraction_of(data@, options, r));
    r
}

} // verus!
