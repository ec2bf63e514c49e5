//! PNG files and the tab-separated sidecar document that lists them.

use crate::error::CursorError;
use crate::pipeline::raster::{encode_png, png_encoding, RgbaImage};
use crate::text::{decimal, push_decimal, push_str};
use vstd::prelude::*;

verus! {

/// One line of the sidecar document: an extracted image with its nominal
/// size, hotspot and delay.
#[derive(Debug)]
pub struct PngWriteConfig {
    pub filename: String,
    pub size: u32,
    pub xhot: u32,
    pub yhot: u32,
    pub delay: u32,
}

/// The line of the sidecar document for an entry: size, hotspot, file name
/// and delay, separated by tabs.
pub open spec fn config_line(config: PngWriteConfig) -> Seq<char> {
    decimal(config.size as nat) + seq!['\t'] + decimal(config.xhot as nat) + seq!['\t'] + decimal(
        config.yhot as nat,
    ) + seq!['\t'] + config.filename@ + seq!['\t'] + decimal(config.delay as nat)
}

/// The comment line that opens a sidecar document.
pub open spec fn config_header() -> Seq<char> {
    "#size\txhot\tyhot\tPath to PNG image\tdelay"@
}

/// The first `k` lines of a sidecar document behind its header, each
/// closed by a line feed.
pub open spec fn config_lines(configs: Seq<PngWriteConfig>, k: int) -> Seq<char>
    decreases k,
{
    if k <= 0 {
        Seq::empty()
    } else {
        config_lines(configs, k - 1) + config_line(configs[k - 1]) + seq!['\n']
    }
}

/// A whole sidecar document: the header line, then one line per entry.
pub open spec fn config_document(configs: Seq<PngWriteConfig>) -> Seq<char> {
    config_header() + seq!['\n'] + config_lines(configs, configs.len() as int)
}

/// Formats one line of the sidecar document.
pub fn format_config_line(config: &PngWriteConfig) -> (line: String)
    ensures
        line@ == config_line(*config),
{
    let mut line = String::new();
    push_decimal(&mut line, config.size as u64);
    line.push('\t');
    push_decimal(&mut line, config.xhot as u64);
    line.push('\t');
    push_decimal(&mut line, config.yhot as u64);
    line.push('\t');
    push_str(&mut line, config.filename.as_str());
    line.push('\t');
    push_decimal(&mut line, config.delay as u64);
    assert(line@ =~= config_line(*config));
    line
}

/// Renders the sidecar document for a list of entries.
pub fn render_config_file(configs: &Vec<PngWriteConfig>) -> (content: String)
    ensures
        content@ == config_document(configs@),
{
    let mut content = String::new();
    push_str(&mut content, "#size\txhot\tyhot\tPath to PNG image\tdelay");
    content.push('\n');
    assert(content@ =~= config_header() + seq!['\n']);
    let mut k: usize = 0;
    while k < configs.len()
        invariant
            k <= configs@.len(),
            content@ == config_header() + seq!['\n'] + config_lines(configs@, k as int),
        decreases configs@.len() - k,
    {
        let line = format_config_line(&configs[k]);
        let ghost before = content@;
        push_str(&mut content, line.as_str());
        content.push('\n');
        assert(content@ =~= before + config_line(configs@[k as int]) + seq!['\n']);
        assert(content@ =~= config_header() + seq!['\n'] + config_lines(configs@, k + 1));
        k += 1;
    }
    content
}

/// Encodes an image as a PNG file.
///
/// The bytes are those that the PNG encoder gives; where it refuses the
/// image, the result is [`CursorError::Validation`].
pub fn png_file(image: &RgbaImage) -> (r: Result<Vec<u8>, CursorError>)
    ensures
        match png_encoding(image@) {
            Some(bytes) => r is Ok && r->Ok_0@ == bytes,
            None => r == Err::<Vec<u8>, CursorError>(CursorError::Validation),
        },
{
    match encode_png(image) {
        Some(bytes) => Ok(bytes),
        None => Err(CursorError::Validation),
    }
}

} // verus!
