//! The Hyprcursor shape format: manifests, shape metadata, the sidecar
//! documents of extracted cursors, and the packaging of shapes into
//! archives.

use crate::error::CursorError;
use crate::pipeline::archive::{
    all_accepted, archive_add, archive_contents, archive_finish, archive_names, archive_new,
    archive_of, lemma_accepted_before,
};
use crate::pipeline::single_precision::{quotient_in_hundredths, single_hundredths};
use crate::pipeline::toml_source::{
    optional_texts, row_views, toml_is_valid, toml_rows, toml_rows_at, toml_string,
    toml_string_at, toml_strings, toml_strings_at, toml_valid,
};
use crate::pipeline::xcur2png::extractor::{
    extract_to_pngs, is_extraction_of, ExtractOptions, ExtractedFile, Extraction,
};
use crate::text::{
    decimal, digit_char, digit_to_char, find_char, first_index, line_spans, lines, parse_u32,
    parse_unsigned, parts_of, push_decimal, push_str, slice_equals, slice_of, slice_string, split,
    split_spans, to_chars, trim, trimmed,
};
use vstd::prelude::*;
use vstd::string::StringSliceAdditionalSpecFns;

verus! {

/// The key and the value of a line of the form `key = value`, both
/// without surrounding white space. Empty lines, comment lines, which
/// start with `#`, and lines without `=` have none.
pub open spec fn key_value(line: Seq<char>) -> Option<(Seq<char>, Seq<char>)> {
    let t = trimmed(line);
    if t.len() == 0 || t[0] == '#' || first_index(t, '=', 0) >= t.len() {
        None
    } else {
        Some(
            (
                trimmed(t.subrange(0, first_index(t, '=', 0))),
                trimmed(t.subrange(first_index(t, '=', 0) + 1, t.len() as int)),
            ),
        )
    }
}

/// Reads the key and the value of a line.
pub fn scan_key_value(line: &[char]) -> (r: Option<(&[char], &[char])>)
    ensures
        match key_value(line@) {
            Some((key, value)) => r is Some && r->Some_0.0@ == key && r->Some_0.1@ == value,
            None => r is None,
        },
{
    let t = trim(line);
    if t.len() == 0 || t[0] == '#' {
        return None;
    }
    let at = find_char(t, '=', 0);
    if at >= t.len() {
        return None;
    }
    let key = trim(vstd::slice::slice_subrange(t, 0, at));
    let value = trim(vstd::slice::slice_subrange(t, at + 1, t.len()));
    Some((key, value))
}

/// The manifest of a theme.
#[derive(Debug)]
pub struct HyprManifest {
    pub name: String,
    pub description: String,
    pub version: String,
    pub cursors_directory: String,
}

/// The mathematical content of a [`HyprManifest`].
pub struct ManifestView {
    pub name: Seq<char>,
    pub description: Seq<char>,
    pub version: Seq<char>,
    pub cursors_directory: Seq<char>,
}

impl View for HyprManifest {
    type V = ManifestView;

    open spec fn view(&self) -> ManifestView {
        ManifestView {
            name: self.name@,
            description: self.description@,
            version: self.version@,
            cursors_directory: self.cursors_directory@,
        }
    }
}

/// A manifest after one more line: a known key sets its field, anything
/// else changes nothing.
pub open spec fn manifest_step(m: ManifestView, line: Seq<char>) -> ManifestView {
    match key_value(line) {
        None => m,
        Some((key, value)) => if key == "name"@ {
            ManifestView { name: value, ..m }
        } else if key == "description"@ {
            ManifestView { description: value, ..m }
        } else if key == "version"@ {
            ManifestView { version: value, ..m }
        } else if key == "cursors_directory"@ {
            ManifestView { cursors_directory: value, ..m }
        } else {
            m
        },
    }
}

/// The manifest that the first `k` lines of a document give. Every field
/// starts empty; a later line replaces what an earlier one set.
pub open spec fn manifest_after(all: Seq<Seq<char>>, k: int) -> ManifestView
    decreases k,
{
    if k <= 0 {
        ManifestView {
            name: Seq::empty(),
            description: Seq::empty(),
            version: Seq::empty(),
            cursors_directory: Seq::empty(),
        }
    } else {
        manifest_step(manifest_after(all, k - 1), all[k - 1])
    }
}

/// The manifest that a document in `key = value` notation gives.
pub open spec fn manifest_of(content: Seq<char>) -> ManifestView {
    manifest_after(lines(content), lines(content).len() as int)
}

impl HyprManifest {
    /// The line that announces the manifest: name, version, description.
    pub fn log_info(&self) -> (line: String)
        ensures
            line@ == "Manifest: "@ + self.name@ + " v"@ + self.version@ + " - "@
                + self.description@,
    {
        let mut line = String::new();
        crate::text::push_str(&mut line, "Manifest: ");
        crate::text::push_str(&mut line, self.name.as_str());
        crate::text::push_str(&mut line, " v");
        crate::text::push_str(&mut line, self.version.as_str());
        crate::text::push_str(&mut line, " - ");
        crate::text::push_str(&mut line, self.description.as_str());
        assert(line@ =~= "Manifest: "@ + self.name@ + " v"@ + self.version@ + " - "@
            + self.description@);
        line
    }
}

/// Reads a manifest in `key = value` notation.
pub fn parse_manifest_hl(content: &str) -> (m: HyprManifest)
    ensures
        m@ == manifest_of(content@),
{
    let text = to_chars(content);
    let spans = line_spans(text.as_slice());
    let mut m = HyprManifest {
        name: String::new(),
        description: String::new(),
        version: String::new(),
        cursors_directory: String::new(),
    };
    let mut k: usize = 0;
    while k < spans.len()
        invariant
            k <= spans@.len(),
            text@ == content@,
            crate::text::spans_inside(spans@, text@.len()),
            parts_of(text@, spans@) == lines(text@),
            m@ == manifest_after(lines(text@), k as int),
        decreases spans@.len() - k,
    {
        let line = slice_of(text.as_slice(), spans[k]);
        assert(line@ == lines(text@)[k as int]) by {
            assert(parts_of(text@, spans@)[k as int] == line@);
        }
        match scan_key_value(line) {
            None => {},
            Some((key, value)) => {
                if slice_equals(key, "name") {
                    m.name = slice_string(value);
                } else if slice_equals(key, "description") {
                    m.description = slice_string(value);
                } else if slice_equals(key, "version") {
                    m.version = slice_string(value);
                } else if slice_equals(key, "cursors_directory") {
                    m.cursors_directory = slice_string(value);
                }
            },
        }
        k += 1;
    }
    m
}

/// One image of a shape: its file, its size and its delay.
#[derive(Debug)]
pub struct HyprImage {
    pub file: String,
    pub size: u32,
    pub delay: u32,
}

/// The mathematical content of a [`HyprImage`].
pub struct HyprImageView {
    pub file: Seq<char>,
    pub size: u32,
    pub delay: u32,
}

impl View for HyprImage {
    type V = HyprImageView;

    open spec fn view(&self) -> HyprImageView {
        HyprImageView { file: self.file@, size: self.size, delay: self.delay }
    }
}

/// The metadata of a shape. The hotspot of a shape is not read here: it
/// travels inside the metadata document, which is packed as it is.
#[derive(Debug)]
pub struct HyprShape {
    pub directory: String,
    pub resize_algorithm: String,
    pub images: Vec<HyprImage>,
    pub overrides: Vec<String>,
}

/// The mathematical content of a [`HyprShape`].
pub struct ShapeView {
    pub directory: Seq<char>,
    pub resize_algorithm: Seq<char>,
    pub images: Seq<HyprImageView>,
    pub overrides: Seq<Seq<char>>,
}

/// The views of a list of images.
pub open spec fn image_entries(images: Seq<HyprImage>) -> Seq<HyprImageView> {
    Seq::new(images.len(), |i: int| images[i]@)
}

/// The texts of a list of strings.
pub open spec fn string_views(names: Seq<String>) -> Seq<Seq<char>> {
    Seq::new(names.len(), |i: int| names[i]@)
}

impl View for HyprShape {
    type V = ShapeView;

    open spec fn view(&self) -> ShapeView {
        ShapeView {
            directory: self.directory@,
            resize_algorithm: self.resize_algorithm@,
            images: image_entries(self.images@),
            overrides: string_views(self.overrides@),
        }
    }
}

/// A number as a field of a document holds it: what the text spells, or 0
/// where it spells no 32-bit number.
pub open spec fn number_or_zero(text: Seq<char>) -> u32 {
    match parse_unsigned(text, u32::MAX as int) {
        Some(v) => v as u32,
        None => 0,
    }
}

/// Reads a number field.
pub fn read_number(text: &[char]) -> (n: u32)
    ensures
        n == number_or_zero(text@),
{
    match parse_u32(text) {
        Some(v) => v,
        None => 0,
    }
}

/// The image that the value of a `define_size` line declares: size, file
/// and delay, separated by commas. A value with fewer than three parts
/// declares none.
pub open spec fn declared_image(value: Seq<char>) -> Option<HyprImageView> {
    let parts = split(value, ',');
    if parts.len() >= 3 {
        Some(
            HyprImageView {
                size: number_or_zero(trimmed(parts[0])),
                file: trimmed(parts[1]),
                delay: number_or_zero(trimmed(parts[2])),
            },
        )
    } else {
        None
    }
}

/// Reads the value of a `define_size` line.
pub fn read_declared_image(value: &[char]) -> (r: Option<HyprImage>)
    ensures
        match declared_image(value@) {
            Some(image) => r is Some && r->Some_0@ == image,
            None => r is None,
        },
{
    let spans = split_spans(value, ',');
    if spans.len() < 3 {
        return None;
    }
    assert(parts_of(value@, spans@)[0] == crate::text::span_of(value@, spans@[0]));
    assert(parts_of(value@, spans@)[1] == crate::text::span_of(value@, spans@[1]));
    assert(parts_of(value@, spans@)[2] == crate::text::span_of(value@, spans@[2]));
    let size = read_number(trim(slice_of(value, spans[0])));
    let file = slice_string(trim(slice_of(value, spans[1])));
    let delay = read_number(trim(slice_of(value, spans[2])));
    Some(HyprImage { file, size, delay })
}

/// A shape after one more line of its metadata.
pub open spec fn shape_step(s: ShapeView, line: Seq<char>) -> ShapeView {
    match key_value(line) {
        None => s,
        Some((key, value)) => if key == "resize_algorithm"@ {
            ShapeView { resize_algorithm: value, ..s }
        } else if key == "define_size"@ {
            match declared_image(value) {
                Some(image) => ShapeView { images: s.images.push(image), ..s },
                None => s,
            }
        } else if key == "define_override"@ {
            ShapeView { overrides: s.overrides.push(value), ..s }
        } else {
            s
        },
    }
}

/// The shape that the first `k` lines of a metadata document give. The
/// resize algorithm starts as `none`; images and overrides keep the order
/// of their lines.
pub open spec fn shape_after(name: Seq<char>, all: Seq<Seq<char>>, k: int) -> ShapeView
    decreases k,
{
    if k <= 0 {
        ShapeView {
            directory: name,
            resize_algorithm: "none"@,
            images: Seq::empty(),
            overrides: Seq::empty(),
        }
    } else {
        shape_step(shape_after(name, all, k - 1), all[k - 1])
    }
}

/// The shape that a metadata document in `key = value` notation gives.
pub open spec fn shape_of(name: Seq<char>, content: Seq<char>) -> ShapeView {
    shape_after(name, lines(content), lines(content).len() as int)
}

/// Reads the metadata of a shape in `key = value` notation.
pub fn parse_meta_hl(content: &str, shape_name: &str) -> (shape: HyprShape)
    ensures
        shape@ == shape_of(shape_name@, content@),
{
    let text = to_chars(content);
    let spans = line_spans(text.as_slice());
    let mut shape = HyprShape {
        directory: shape_name.to_owned(),
        resize_algorithm: "none".to_owned(),
        images: Vec::new(),
        overrides: Vec::new(),
    };
    assert(image_entries(shape.images@) =~= Seq::empty());
    assert(string_views(shape.overrides@) =~= Seq::empty());
    let mut k: usize = 0;
    while k < spans.len()
        invariant
            k <= spans@.len(),
            text@ == content@,
            crate::text::spans_inside(spans@, text@.len()),
            parts_of(text@, spans@) == lines(text@),
            shape@ == shape_after(shape_name@, lines(text@), k as int),
        decreases spans@.len() - k,
    {
        let line = slice_of(text.as_slice(), spans[k]);
        assert(line@ == lines(text@)[k as int]) by {
            assert(parts_of(text@, spans@)[k as int] == line@);
        }
        match scan_key_value(line) {
            None => {},
            Some((key, value)) => {
                if slice_equals(key, "resize_algorithm") {
                    shape.resize_algorithm = slice_string(value);
                } else if slice_equals(key, "define_size") {
                    match read_declared_image(value) {
                        Some(image) => {
                            let ghost before = image_entries(shape.images@);
                            shape.images.push(image);
                            assert(image_entries(shape.images@) =~= before.push(image@));
                        },
                        None => {},
                    }
                } else if slice_equals(key, "define_override") {
                    let ghost before = string_views(shape.overrides@);
                    let name = slice_string(value);
                    shape.overrides.push(name);
                    assert(string_views(shape.overrides@) =~= before.push(value@));
                }
            },
        }
        k += 1;
    }
    shape
}

/// One line of the sidecar document of an extracted cursor.
#[derive(Debug)]
pub struct XConfigEntry {
    pub size: u32,
    pub hotspot_x: u32,
    pub hotspot_y: u32,
    pub image: String,
    pub delay: u32,
}

/// The mathematical content of an [`XConfigEntry`].
pub struct XConfigView {
    pub size: u32,
    pub hotspot_x: u32,
    pub hotspot_y: u32,
    pub image: Seq<char>,
    pub delay: u32,
}

impl View for XConfigEntry {
    type V = XConfigView;

    open spec fn view(&self) -> XConfigView {
        XConfigView {
            size: self.size,
            hotspot_x: self.hotspot_x,
            hotspot_y: self.hotspot_y,
            image: self.image@,
            delay: self.delay,
        }
    }
}

/// The views of a list of entries.
pub open spec fn xconfig_views(entries: Seq<XConfigEntry>) -> Seq<XConfigView> {
    Seq::new(entries.len(), |i: int| entries[i]@)
}

/// The entry that a line of a sidecar document holds: five or more fields
/// separated by tabs, of which the first five are size, hotspot, file
/// name and delay. Empty lines, comment lines and shorter lines hold
/// none.
pub open spec fn xconfig_entry(line: Seq<char>) -> Option<XConfigView> {
    let t = trimmed(line);
    let parts = split(t, '\t');
    if t.len() == 0 || t[0] == '#' || parts.len() < 5 {
        None
    } else {
        Some(
            XConfigView {
                size: number_or_zero(parts[0]),
                hotspot_x: number_or_zero(parts[1]),
                hotspot_y: number_or_zero(parts[2]),
                image: parts[3],
                delay: number_or_zero(parts[4]),
            },
        )
    }
}

/// The entries that the first `k` lines of a sidecar document hold.
pub open spec fn xconfig_after(all: Seq<Seq<char>>, k: int) -> Seq<XConfigView>
    decreases k,
{
    if k <= 0 {
        Seq::empty()
    } else {
        match xconfig_entry(all[k - 1]) {
            Some(entry) => xconfig_after(all, k - 1).push(entry),
            None => xconfig_after(all, k - 1),
        }
    }
}

/// The entries that a sidecar document holds.
pub open spec fn xconfig_of(content: Seq<char>) -> Seq<XConfigView> {
    xconfig_after(lines(content), lines(content).len() as int)
}

/// Reads one line of a sidecar document.
pub fn read_xconfig_entry(line: &[char]) -> (r: Option<XConfigEntry>)
    ensures
        match xconfig_entry(line@) {
            Some(entry) => r is Some && r->Some_0@ == entry,
            None => r is None,
        },
{
    let t = trim(line);
    if t.len() == 0 || t[0] == '#' {
        return None;
    }
    let spans = split_spans(t, '\t');
    if spans.len() < 5 {
        return None;
    }
    assert(parts_of(t@, spans@)[0] == crate::text::span_of(t@, spans@[0]));
    assert(parts_of(t@, spans@)[1] == crate::text::span_of(t@, spans@[1]));
    assert(parts_of(t@, spans@)[2] == crate::text::span_of(t@, spans@[2]));
    assert(parts_of(t@, spans@)[3] == crate::text::span_of(t@, spans@[3]));
    assert(parts_of(t@, spans@)[4] == crate::text::span_of(t@, spans@[4]));
    Some(
        XConfigEntry {
            size: read_number(slice_of(t, spans[0])),
            hotspot_x: read_number(slice_of(t, spans[1])),
            hotspot_y: read_number(slice_of(t, spans[2])),
            image: slice_string(slice_of(t, spans[3])),
            delay: read_number(slice_of(t, spans[4])),
        },
    )
}

/// Reads the sidecar document of an extracted cursor.
pub fn parse_xconfig(content: &str) -> (entries: Vec<XConfigEntry>)
    ensures
        xconfig_views(entries@) == xconfig_of(content@),
{
    let text = to_chars(content);
    let spans = line_spans(text.as_slice());
    let mut entries: Vec<XConfigEntry> = Vec::new();
    let mut k: usize = 0;
    assert(xconfig_views(entries@) =~= Seq::empty());
    while k < spans.len()
        invariant
            k <= spans@.len(),
            text@ == content@,
            crate::text::spans_inside(spans@, text@.len()),
            parts_of(text@, spans@) == lines(text@),
            xconfig_views(entries@) == xconfig_after(lines(text@), k as int),
        decreases spans@.len() - k,
    {
        let line = slice_of(text.as_slice(), spans[k]);
        assert(line@ == lines(text@)[k as int]) by {
            assert(parts_of(text@, spans@)[k as int] == line@);
        }
        match read_xconfig_entry(line) {
            Some(entry) => {
                let ghost before = xconfig_views(entries@);
                entries.push(entry);
                assert(xconfig_views(entries@) =~= before.push(entry@));
            },
            None => {},
        }
        k += 1;
    }
    entries
}

/// Whether a shape is valid: it has a directory, and none of its images
/// declares the size 0.
pub open spec fn shape_valid(shape: ShapeView) -> bool {
    &&& shape.directory.len() > 0
    &&& forall|i: int| 0 <= i < shape.images.len() ==> (#[trigger] shape.images[i]).size != 0
}

/// Whether a delay is suspiciously short: not 0, but under 10
/// milliseconds.
pub open spec fn is_short_delay(delay: u32) -> bool {
    0 < delay < 10
}

/// The line that warns of an image with a suspiciously short delay.
pub open spec fn delay_warning(image: HyprImageView) -> Seq<char> {
    "Warning: Very short delay ("@ + decimal(image.delay as nat) + "ms) for image "@ + image.file
}

/// The warnings for those of the first `k` images whose delay is
/// suspiciously short, in order.
pub open spec fn delay_warnings(images: Seq<HyprImageView>, k: int) -> Seq<Seq<char>>
    decreases k,
{
    if k <= 0 {
        Seq::empty()
    } else if is_short_delay(images[k - 1].delay) {
        delay_warnings(images, k - 1).push(delay_warning(images[k - 1]))
    } else {
        delay_warnings(images, k - 1)
    }
}

impl HyprShape {
    /// The warnings that the shape deserves: one line for every image
    /// whose delay is suspiciously short.
    pub fn warnings(&self) -> (lines: Vec<String>)
        ensures
            string_views(lines@) == delay_warnings(self@.images, self@.images.len() as int),
    {
        let mut lines: Vec<String> = Vec::new();
        let mut i: usize = 0;
        assert(string_views(lines@) =~= Seq::empty());
        while i < self.images.len()
            invariant
                i <= self.images@.len(),
                string_views(lines@) == delay_warnings(self@.images, i as int),
            decreases self.images@.len() - i,
        {
            let delay = self.images[i].delay;
            if delay > 0 && delay < 10 {
                let mut line = String::new();
                push_str(&mut line, "Warning: Very short delay (");
                push_decimal(&mut line, delay as u64);
                push_str(&mut line, "ms) for image ");
                push_str(&mut line, self.images[i].file.as_str());
                let ghost before = string_views(lines@);
                assert(line@ =~= delay_warning(self@.images[i as int]));
                lines.push(line);
                assert(string_views(lines@) =~= before.push(
                    delay_warning(self@.images[i as int]),
                ));
            }
            i += 1;
        }
        lines
    }

    /// Checks the shape.
    ///
    /// Fails with [`CursorError::Validation`] exactly when the directory
    /// is empty or an image declares the size 0.
    pub fn validate(&self) -> (r: Result<(), CursorError>)
        ensures
            shape_valid(self@) ==> r is Ok,
            !shape_valid(self@) ==> r == Err::<(), CursorError>(CursorError::Validation),
    {
        if self.directory.as_str().unicode_len() == 0 {
            return Err(CursorError::Validation);
        }
        let mut i: usize = 0;
        while i < self.images.len()
            invariant
                i <= self.images@.len(),
                self.directory@.len() > 0,
                forall|k: int| 0 <= k < i ==> (#[trigger] self@.images[k]).size != 0,
            decreases self.images@.len() - i,
        {
            if self.images[i].size == 0 {
                assert(self@.images[i as int].size == 0);
                return Err(CursorError::Validation);
            }
            i += 1;
        }
        Ok(())
    }
}

/// The text under a key of a TOML document, or a default.
pub open spec fn toml_text_or(content: Seq<char>, key: Seq<char>, default: Seq<char>) -> Seq<char> {
    match toml_string_at(content, key) {
        Some(text) => text,
        None => default,
    }
}

/// Reads the text under a key of a TOML document, or a default.
fn read_toml_text(content: &str, key: &str, default: &str) -> (text: String)
    ensures
        text@ == toml_text_or(content@, key@, default@),
{
    match toml_string(content, key) {
        Some(text) => text,
        None => default.to_owned(),
    }
}

/// The manifest that a TOML document gives: its four strings, with empty
/// defaults except for the cursors directory, which defaults to
/// `cursors`. A document that is no TOML is a configuration error.
pub open spec fn toml_manifest_of(content: Seq<char>) -> Result<ManifestView, CursorError> {
    if !toml_valid(content) {
        Err(CursorError::Config)
    } else {
        Ok(
            ManifestView {
                name: toml_text_or(content, "name"@, ""@),
                description: toml_text_or(content, "description"@, ""@),
                version: toml_text_or(content, "version"@, ""@),
                cursors_directory: toml_text_or(content, "cursors_directory"@, "cursors"@),
            },
        )
    }
}

/// Reads a manifest in TOML notation.
pub fn parse_manifest_toml(content: &str) -> (r: Result<HyprManifest, CursorError>)
    ensures
        match toml_manifest_of(content@) {
            Ok(m) => r is Ok && r->Ok_0@ == m,
            Err(e) => r is Err && r->Err_0 == e,
        },
{
    if !toml_is_valid(content) {
        return Err(CursorError::Config);
    }
    Ok(
        HyprManifest {
            name: read_toml_text(content, "name", ""),
            description: read_toml_text(content, "description", ""),
            version: read_toml_text(content, "version", ""),
            cursors_directory: read_toml_text(content, "cursors_directory", "cursors"),
        },
    )
}

/// A 64-bit integer reduced to 32 bits, as a cast does it.
pub open spec fn wrapped(v: i64) -> u32 {
    (v as int % 0x1_0000_0000) as u32
}

/// Computes [`wrapped`].
pub fn wrap_to_u32(v: i64) -> (r: u32)
    ensures
        r == wrapped(v),
{
    if v >= 0 {
        ((v as u64) % 0x1_0000_0000) as u32
    } else {
        let below: u64 = (-(v + 1)) as u64;
        let low: u64 = below % 0x1_0000_0000;
        (0xffff_ffffu64 - low) as u32
    }
}

/// The image that a row of the `sizes` array declares: absent fields
/// count as 0 and as the empty name.
pub open spec fn row_image(row: (Option<i64>, Option<Seq<char>>, Option<i64>)) -> HyprImageView {
    HyprImageView {
        size: match row.0 {
            Some(v) => wrapped(v),
            None => 0,
        },
        file: match row.1 {
            Some(t) => t,
            None => Seq::empty(),
        },
        delay: match row.2 {
            Some(v) => wrapped(v),
            None => 0,
        },
    }
}

/// The images that the first `k` elements of the `sizes` array declare:
/// one for every element that is a table.
pub open spec fn toml_images(
    rows: Seq<Option<(Option<i64>, Option<Seq<char>>, Option<i64>)>>,
    k: int,
) -> Seq<HyprImageView>
    decreases k,
{
    if k <= 0 {
        Seq::empty()
    } else {
        match rows[k - 1] {
            Some(row) => toml_images(rows, k - 1).push(row_image(row)),
            None => toml_images(rows, k - 1),
        }
    }
}

/// The overrides that the first `k` elements of the `overrides` array
/// name: one for every element that is a string.
pub open spec fn toml_overrides(items: Seq<Option<Seq<char>>>, k: int) -> Seq<Seq<char>>
    decreases k,
{
    if k <= 0 {
        Seq::empty()
    } else {
        match items[k - 1] {
            Some(name) => toml_overrides(items, k - 1).push(name),
            None => toml_overrides(items, k - 1),
        }
    }
}

/// The shape that a metadata document in TOML notation gives. A document
/// that is no TOML is a configuration error.
pub open spec fn toml_shape_of(name: Seq<char>, content: Seq<char>) -> Result<
    ShapeView,
    CursorError,
> {
    if !toml_valid(content) {
        Err(CursorError::Config)
    } else {
        let rows = toml_rows_at(content, "sizes"@, "size"@, "file"@, "delay"@);
        let items = toml_strings_at(content, "overrides"@);
        Ok(
            ShapeView {
                directory: name,
                resize_algorithm: toml_text_or(content, "resize_algorithm"@, "none"@),
                images: toml_images(rows, rows.len() as int),
                overrides: toml_overrides(items, items.len() as int),
            },
        )
    }
}

/// Reads the metadata of a shape in TOML notation.
pub fn parse_meta_toml(content: &str, shape_name: &str) -> (r: Result<HyprShape, CursorError>)
    ensures
        match toml_shape_of(shape_name@, content@) {
            Ok(shape) => r is Ok && r->Ok_0@ == shape,
            Err(e) => r is Err && r->Err_0 == e,
        },
{
    if !toml_is_valid(content) {
        return Err(CursorError::Config);
    }
    let rows = toml_rows(content, "sizes", "size", "file", "delay");
    let ghost row_list = row_views(rows@);
    let mut images: Vec<HyprImage> = Vec::new();
    let mut k: usize = 0;
    assert(image_entries(images@) =~= Seq::empty());
    while k < rows.len()
        invariant
            k <= rows@.len(),
            row_list == row_views(rows@),
            image_entries(images@) == toml_images(row_list, k as int),
        decreases rows@.len() - k,
    {
        assert(row_list[k as int] == crate::pipeline::toml_source::row_view(rows@[k as int]));
        match &rows[k] {
            Some(row) => {
                let size = match row.number {
                    Some(v) => wrap_to_u32(v),
                    None => 0,
                };
                let file = match &row.text {
                    Some(t) => t.clone(),
                    None => String::new(),
                };
                let delay = match row.second_number {
                    Some(v) => wrap_to_u32(v),
                    None => 0,
                };
                let ghost before = image_entries(images@);
                let image = HyprImage { file, size, delay };
                images.push(image);
                assert(image_entries(images@) =~= before.push(image@));
            },
            None => {},
        }
        k += 1;
    }
    let items = toml_strings(content, "overrides");
    let ghost item_list = optional_texts(items@);
    let mut overrides: Vec<String> = Vec::new();
    let mut j: usize = 0;
    assert(string_views(overrides@) =~= Seq::empty());
    while j < items.len()
        invariant
            j <= items@.len(),
            item_list == optional_texts(items@),
            string_views(overrides@) == toml_overrides(item_list, j as int),
        decreases items@.len() - j,
    {
        assert(item_list[j as int] == (match items@[j as int] {
            Some(t) => Some(t@),
            None => None::<Seq<char>>,
        }));
        match &items[j] {
            Some(name) => {
                let ghost before = string_views(overrides@);
                overrides.push(name.clone());
                assert(string_views(overrides@) =~= before.push(name@));
            },
            None => {},
        }
        j += 1;
    }
    Ok(
        HyprShape {
            directory: shape_name.to_owned(),
            resize_algorithm: read_toml_text(content, "resize_algorithm", "none"),
            images,
            overrides,
        },
    )
}

/// Whether a character is alphanumeric, as `char::is_alphanumeric` tells.
pub uninterp spec fn is_alphanumeric(c: char) -> bool;

/// `char::is_alphanumeric`: whether the character is a letter or a number
/// of some script.
pub assume_specification[ char::is_alphanumeric ](c: char) -> (r: bool)
    ensures
        r == is_alphanumeric(c),
;

/// Whether a directory name can name a shape: it holds alphanumeric
/// characters, `_`, `-` and `.` only.
pub open spec fn valid_shape_name(name: Seq<char>) -> bool {
    forall|i: int|
        0 <= i < name.len() ==> is_alphanumeric(#[trigger] name[i]) || name[i] == '_' || name[i]
            == '-' || name[i] == '.'
}

/// Tests whether a directory name can name a shape.
pub fn is_valid_shape_name(name: &str) -> (r: bool)
    ensures
        r == valid_shape_name(name@),
{
    let chars = to_chars(name);
    let mut i: usize = 0;
    while i < chars.len()
        invariant
            i <= chars@.len(),
            chars@ == name@,
            forall|k: int|
                0 <= k < i ==> is_alphanumeric(#[trigger] chars@[k]) || chars@[k] == '_'
                    || chars@[k] == '-' || chars@[k] == '.',
        decreases chars@.len() - i,
    {
        let c = chars[i];
        if !(c.is_alphanumeric() || c == '_' || c == '-' || c == '.') {
            return false;
        }
        i += 1;
    }
    true
}

/// A name with every space replaced by an underscore.
pub open spec fn underscored(name: Seq<char>) -> Seq<char> {
    Seq::new(
        name.len(),
        |i: int|
            if name[i] == ' ' {
                '_'
            } else {
                name[i]
            },
    )
}

/// The name of the directory of a compiled theme: `theme_` and the name
/// of the theme, with underscores for spaces.
pub fn theme_dir_name(theme_name: &str) -> (dir: String)
    ensures
        dir@ == "theme_"@ + underscored(theme_name@),
{
    let chars = to_chars(theme_name);
    let mut dir = String::new();
    crate::text::push_str(&mut dir, "theme_");
    let mut i: usize = 0;
    while i < chars.len()
        invariant
            i <= chars@.len(),
            chars@ == theme_name@,
            dir@ == "theme_"@ + underscored(theme_name@).take(i as int),
        decreases chars@.len() - i,
    {
        let c = if chars[i] == ' ' {
            '_'
        } else {
            chars[i]
        };
        dir.push(c);
        i += 1;
        assert(dir@ =~= "theme_"@ + underscored(theme_name@).take(i as int));
    }
    assert(underscored(theme_name@).take(chars@.len() as int) =~= underscored(theme_name@));
    dir
}

/// The two notations of manifests and metadata.
#[derive(Clone, Copy, Debug, PartialEq, Eq, Structural)]
pub enum Notation {
    /// Lines of the form `key = value`.
    Hl,
    /// TOML.
    Toml,
}

/// Which of the two documents of a directory is read: the one in
/// `key = value` notation where it exists, else the one in TOML.
pub fn choose_notation(has_hl: bool, has_toml: bool) -> (r: Option<Notation>)
    ensures
        r == (if has_hl {
            Some(Notation::Hl)
        } else if has_toml {
            Some(Notation::Toml)
        } else {
            None::<Notation>
        }),
{
    if has_hl {
        Some(Notation::Hl)
    } else if has_toml {
        Some(Notation::Toml)
    } else {
        None
    }
}

/// The manifest that a document in a notation gives.
pub open spec fn manifest_in(notation: Notation, content: Seq<char>) -> Result<
    ManifestView,
    CursorError,
> {
    match notation {
        Notation::Hl => Ok(manifest_of(content)),
        Notation::Toml => toml_manifest_of(content),
    }
}

/// Reads a manifest in either notation.
pub fn parse_manifest(notation: Notation, content: &str) -> (r: Result<HyprManifest, CursorError>)
    ensures
        match manifest_in(notation, content@) {
            Ok(m) => r is Ok && r->Ok_0@ == m,
            Err(e) => r is Err && r->Err_0 == e,
        },
{
    match notation {
        Notation::Hl => Ok(parse_manifest_hl(content)),
        Notation::Toml => parse_manifest_toml(content),
    }
}

/// The shape that a metadata document in a notation gives.
pub open spec fn shape_in(notation: Notation, name: Seq<char>, content: Seq<char>) -> Result<
    ShapeView,
    CursorError,
> {
    match notation {
        Notation::Hl => Ok(shape_of(name, content)),
        Notation::Toml => toml_shape_of(name, content),
    }
}

/// Reads the metadata of a shape in either notation.
pub fn parse_meta(notation: Notation, content: &str, shape_name: &str) -> (r: Result<
    HyprShape,
    CursorError,
>)
    ensures
        match shape_in(notation, shape_name@, content@) {
            Ok(shape) => r is Ok && r->Ok_0@ == shape,
            Err(e) => r is Err && r->Err_0 == e,
        },
{
    match notation {
        Notation::Hl => Ok(parse_meta_hl(content, shape_name)),
        Notation::Toml => parse_meta_toml(content, shape_name),
    }
}

/// A file of a shape directory: its name and its bytes.
#[derive(Debug)]
pub struct ShapeFile {
    pub name: String,
    pub content: Vec<u8>,
}

/// The names of a list of files.
pub open spec fn file_names(files: Seq<ShapeFile>) -> Seq<Seq<char>> {
    Seq::new(files.len(), |i: int| files[i].name@)
}

/// The index of the first of the first `k` files that has a name, or `k`.
pub open spec fn file_index(names: Seq<Seq<char>>, name: Seq<char>, k: int) -> int
    decreases k,
{
    if k <= 0 {
        0
    } else if file_index(names, name, k - 1) < k - 1 {
        file_index(names, name, k - 1)
    } else if names[k - 1] == name {
        k - 1
    } else {
        k
    }
}

/// Where a name is found among the first `k` files.
pub proof fn lemma_file_index(names: Seq<Seq<char>>, name: Seq<char>, k: int)
    requires
        0 <= k <= names.len(),
    ensures
        0 <= file_index(names, name, k) <= k,
        file_index(names, name, k) < k ==> names[file_index(names, name, k)] == name,
        file_index(names, name, k) == k ==> forall|j: int| 0 <= j < k ==> names[j] != name,
    decreases k,
{
    if k > 0 {
        lemma_file_index(names, name, k - 1);
    }
}

/// Finds the first file of a name.
pub fn find_file(files: &Vec<ShapeFile>, name: &str) -> (r: Option<usize>)
    ensures
        match r {
            Some(i) => i < files@.len() && i == file_index(
                file_names(files@),
                name@,
                files@.len() as int,
            ),
            None => file_index(file_names(files@), name@, files@.len() as int) == files@.len(),
        },
{
    let mut i: usize = 0;
    while i < files.len()
        invariant
            i <= files@.len(),
            file_index(file_names(files@), name@, i as int) == i,
        decreases files@.len() - i,
    {
        if crate::model::mapping::str_equal(files[i].name.as_str(), name) {
            proof {
                lemma_stays_found(file_names(files@), name@, i as int, files@.len() as int);
            }
            return Some(i);
        }
        i += 1;
    }
    None
}

/// A file that is found among the first files is found among all.
pub proof fn lemma_stays_found(names: Seq<Seq<char>>, name: Seq<char>, i: int, n: int)
    requires
        0 <= i < n <= names.len(),
        file_index(names, name, i) == i,
        names[i] == name,
    ensures
        file_index(names, name, n) == i,
    decreases n - i,
{
    if n > i + 1 {
        lemma_stays_found(names, name, i, n - 1);
    }
}

/// Whether a shape can be packed from the files of its directory: it is
/// valid, it declares an image, and the file of every image is there.
pub open spec fn packable(shape: ShapeView, names: Seq<Seq<char>>) -> bool {
    &&& shape_valid(shape)
    &&& shape.images.len() > 0
    &&& forall|i: int|
        0 <= i < shape.images.len() ==> file_index(
            names,
            (#[trigger] shape.images[i]).file,
            names.len() as int,
        ) < names.len()
}

/// The names of the files that the archive of a shape holds after the
/// first `k` images: the metadata document, then the image files.
pub open spec fn packed_names(meta_name: Seq<char>, shape: ShapeView, k: int) -> Seq<Seq<char>>
    decreases k,
{
    if k <= 0 {
        seq![meta_name]
    } else {
        packed_names(meta_name, shape, k - 1).push(shape.images[k - 1].file)
    }
}

/// The contents of the files that the archive of a shape holds after the
/// first `k` images.
pub open spec fn packed_contents(
    meta: Seq<u8>,
    shape: ShapeView,
    files: Seq<ShapeFile>,
    k: int,
) -> Seq<Seq<u8>>
    decreases k,
{
    if k <= 0 {
        seq![meta]
    } else {
        packed_contents(meta, shape, files, k - 1).push(
            files[file_index(
                file_names(files),
                shape.images[k - 1].file,
                files.len() as int,
            )].content@,
        )
    }
}

/// Tests whether every image of a shape has its file.
fn all_files_present(shape: &HyprShape, files: &Vec<ShapeFile>) -> (r: bool)
    ensures
        r == forall|i: int|
            0 <= i < shape@.images.len() ==> file_index(
                file_names(files@),
                (#[trigger] shape@.images[i]).file,
                files@.len() as int,
            ) < files@.len(),
{
    let mut i: usize = 0;
    while i < shape.images.len()
        invariant
            i <= shape.images@.len(),
            forall|k: int|
                0 <= k < i ==> file_index(
                    file_names(files@),
                    (#[trigger] shape@.images[k]).file,
                    files@.len() as int,
                ) < files@.len(),
        decreases shape.images@.len() - i,
    {
        assert(shape@.images[i as int].file == shape.images@[i as int].file@);
        if find_file(files, shape.images[i].file.as_str()).is_none() {
            return false;
        }
        i += 1;
    }
    true
}

/// Packs a shape: the metadata document and the file of every image, in
/// the order of the images, into one deflate-compressed archive.
///
/// Fails with [`CursorError::Validation`] exactly when the shape is not
/// [`packable`]. A packable shape gives the archive of its files, and
/// fails with [`CursorError::Io`] exactly when the archive writer refuses
/// one of them or cannot finish the archive.
pub fn package_shape(
    shape: &HyprShape,
    meta_name: &str,
    meta_content: &[u8],
    files: &Vec<ShapeFile>,
) -> (r: Result<Vec<u8>, CursorError>)
    ensures
        !packable(shape@, file_names(files@)) ==> r == Err::<Vec<u8>, CursorError>(
            CursorError::Validation,
        ),
        packable(shape@, file_names(files@)) ==> match archive_of(
            packed_names(meta_name@, shape@, shape@.images.len() as int),
            packed_contents(meta_content@, shape@, files@, shape@.images.len() as int),
        ) {
            Some(bytes) => r is Ok && r->Ok_0@ == bytes,
            None => r == Err::<Vec<u8>, CursorError>(CursorError::Io),
        },
{
    match shape.validate() {
        Ok(()) => {},
        Err(e) => {
            return Err(e);
        },
    }
    if !all_files_present(shape, files) {
        return Err(CursorError::Validation);
    }
    if shape.images.len() == 0 {
        return Err(CursorError::Validation);
    }
    let ghost count = shape@.images.len() as int;
    let ghost names = packed_names(meta_name@, shape@, count);
    let ghost contents = packed_contents(meta_content@, shape@, files@, count);
    proof {
        lemma_packed_prefix(meta_name@, meta_content@, shape@, files@, 0, count);
    }
    let mut zip = archive_new();
    assert(names.take(0) =~= archive_names(zip));
    assert(contents.take(0) =~= archive_contents(zip));
    assert(names[0] == names.take(1)[0] && contents[0] == contents.take(1)[0]);
    assert(all_accepted(names, contents, 0));
    if !archive_add(&mut zip, meta_name, meta_content) {
        proof {
            assert(!all_accepted(names, contents, 1));
            if all_accepted(names, contents, count + 1) {
                lemma_accepted_before(names, contents, 1, count + 1);
            }
        }
        return Err(CursorError::Io);
    }
    assert(archive_names(zip) =~= packed_names(meta_name@, shape@, 0));
    assert(archive_contents(zip) =~= packed_contents(meta_content@, shape@, files@, 0));
    assert(all_accepted(names, contents, 1));
    let mut k: usize = 0;
    while k < shape.images.len()
        invariant
            k <= shape.images@.len(),
            count == shape@.images.len(),
            names == packed_names(meta_name@, shape@, count),
            contents == packed_contents(meta_content@, shape@, files@, count),
            packable(shape@, file_names(files@)),
            archive_names(zip) == packed_names(meta_name@, shape@, k as int),
            archive_contents(zip) == packed_contents(meta_content@, shape@, files@, k as int),
            all_accepted(names, contents, k + 1),
        decreases shape.images@.len() - k,
    {
        let name = shape.images[k].file.as_str();
        assert(shape@.images[k as int].file == name@);
        let at = match find_file(files, name) {
            Some(at) => at,
            None => {
                return Err(CursorError::Io);
            },
        };
        proof {
            lemma_packed_prefix(meta_name@, meta_content@, shape@, files@, k as int, count);
            lemma_packed_prefix(meta_name@, meta_content@, shape@, files@, k + 1, count);
            let next_names = packed_names(meta_name@, shape@, k + 1);
            let next_contents = packed_contents(meta_content@, shape@, files@, k + 1);
            assert(names[k + 1] == names.take(k + 2)[k + 1]);
            assert(contents[k + 1] == contents.take(k + 2)[k + 1]);
            assert(next_names[k + 1] == name@);
            assert(next_contents[k + 1] == files@[at as int].content@);
            assert(names.take(k + 1) == archive_names(zip));
            assert(contents.take(k + 1) == archive_contents(zip));
        }
        if !archive_add(&mut zip, name, files[at].content.as_slice()) {
            proof {
                assert(!all_accepted(names, contents, k + 2));
                if all_accepted(names, contents, count + 1) {
                    lemma_accepted_before(names, contents, k + 2, count + 1);
                }
            }
            return Err(CursorError::Io);
        }
        assert(all_accepted(names, contents, k + 2));
        k += 1;
    }
    match archive_finish(zip) {
        Some(bytes) => Ok(bytes),
        None => Err(CursorError::Io),
    }
}

/// The files that an archive holds after the first `k` images are the
/// first of those that it holds after the first `n`.
pub proof fn lemma_packed_prefix(
    meta_name: Seq<char>,
    meta: Seq<u8>,
    shape: ShapeView,
    files: Seq<ShapeFile>,
    k: int,
    n: int,
)
    requires
        0 <= k <= n,
    ensures
        packed_names(meta_name, shape, n).len() == n + 1,
        packed_contents(meta, shape, files, n).len() == n + 1,
        packed_names(meta_name, shape, n).take(k + 1) == packed_names(meta_name, shape, k),
        packed_contents(meta, shape, files, n).take(k + 1) == packed_contents(
            meta,
            shape,
            files,
            k,
        ),
    decreases n,
{
    if k < n {
        lemma_packed_prefix(meta_name, meta, shape, files, k, n - 1);
        assert(packed_names(meta_name, shape, n).take(k + 1) =~= packed_names(
            meta_name,
            shape,
            n - 1,
        ).take(k + 1));
        assert(packed_contents(meta, shape, files, n).take(k + 1) =~= packed_contents(
            meta,
            shape,
            files,
            n - 1,
        ).take(k + 1));
    } else {
        if n > 0 {
            lemma_packed_prefix(meta_name, meta, shape, files, n - 1, n - 1);
        }
        assert(packed_names(meta_name, shape, n).take(n + 1) =~= packed_names(
            meta_name,
            shape,
            n,
        ));
        assert(packed_contents(meta, shape, files, n).take(n + 1) =~= packed_contents(
            meta,
            shape,
            files,
            n,
        ));
    }
}

/// A packed shape: the name of its archive, the bytes of the archive, and
/// the warnings that the shape deserves.
#[derive(Debug)]
pub struct ShapePackage {
    pub file_name: String,
    pub bytes: Vec<u8>,
    pub warnings: Vec<String>,
}

/// The name of the metadata document of a notation.
pub open spec fn meta_file_name(notation: Notation) -> Seq<char> {
    match notation {
        Notation::Hl => "meta.hl"@,
        Notation::Toml => "meta.toml"@,
    }
}

/// Reads the metadata of a shape, checks it against the files of its
/// directory, and packs it into the archive `<shape>.hlc`.
///
/// Fails with the error of the metadata parser, with
/// [`CursorError::Validation`] where the shape is not [`packable`], and
/// with [`CursorError::Io`] where the archive writer refuses a file.
pub fn process_shape(
    shape_name: &str,
    notation: Notation,
    meta: &str,
    files: &Vec<ShapeFile>,
) -> (r: Result<ShapePackage, CursorError>)
    ensures
        is_processed(shape_name@, notation, meta@, files@, r),
{
    let shape = match parse_meta(notation, meta, shape_name) {
        Ok(shape) => shape,
        Err(e) => {
            return Err(e);
        },
    };
    let meta_name: &str = match notation {
        Notation::Hl => "meta.hl",
        Notation::Toml => "meta.toml",
    };
    let bytes = match package_shape(&shape, meta_name, meta.as_bytes(), files) {
        Ok(bytes) => bytes,
        Err(e) => {
            return Err(e);
        },
    };
    let mut file_name = shape_name.to_owned();
    push_str(&mut file_name, ".hlc");
    Ok(ShapePackage { file_name, bytes, warnings: shape.warnings() })
}

/// The index of the last of the first `k` parts of a path that names
/// something: a part that is neither empty nor `.`. It is -1 where there
/// is none.
pub open spec fn last_named(parts: Seq<Seq<char>>, k: int) -> int
    decreases k,
{
    if k <= 0 {
        -1
    } else if parts[k - 1].len() > 0 && parts[k - 1] != "."@ {
        k - 1
    } else {
        last_named(parts, k - 1)
    }
}

/// The file name of a path with `/` as separator: its last part that
/// names something, unless that is `..`.
pub open spec fn path_file_name(path: Seq<char>) -> Option<Seq<char>> {
    let parts = split(path, '/');
    let at = last_named(parts, parts.len() as int);
    if at < 0 || parts[at] == ".."@ {
        None
    } else {
        Some(parts[at])
    }
}

/// Finds the file name of a path.
pub fn file_name_of(path: &str) -> (r: Option<String>)
    ensures
        match path_file_name(path@) {
            Some(name) => r is Some && r->Some_0@ == name,
            None => r is None,
        },
{
    let text = to_chars(path);
    let spans = split_spans(text.as_slice(), '/');
    let mut k = spans.len();
    while k > 0
        invariant
            k <= spans@.len(),
            text@ == path@,
            crate::text::spans_inside(spans@, text@.len()),
            parts_of(text@, spans@) == split(text@, '/'),
            last_named(split(text@, '/'), k as int) == last_named(
                split(text@, '/'),
                spans@.len() as int,
            ),
        decreases k,
    {
        let part = slice_of(text.as_slice(), spans[k - 1]);
        assert(parts_of(text@, spans@)[k - 1] == part@);
        if part.len() > 0 && !slice_equals(part, ".") {
            if slice_equals(part, "..") {
                return None;
            }
            return Some(slice_string(part));
        }
        k -= 1;
    }
    None
}

/// A quotient written with two decimals, as single precision gives it.
pub open spec fn fraction_text(x: u32, size: u32) -> Seq<char> {
    let h = single_hundredths(x as int, size as int);
    decimal((h / 100) as nat) + "."@ + seq![digit_char((h / 10) % 10), digit_char(h % 10)]
}

/// Appends a quotient written with two decimals.
pub fn push_fraction(out: &mut String, x: u32, size: u32)
    requires
        size > 0,
    ensures
        final(out)@ == old(out)@ + fraction_text(x, size),
{
    let h: u64 = quotient_in_hundredths(x, size);
    push_decimal(out, h / 100);
    push_str(out, ".");
    out.push(digit_to_char(((h / 10) % 10) as u8));
    out.push(digit_to_char((h % 10) as u8));
    assert(out@ =~= old(out)@ + fraction_text(x, size));
}

/// The two hotspot lines of a metadata document: the hotspot of the first
/// entry as fractions of its size, or zeros where that size is 0.
pub open spec fn hotspot_lines(first: XConfigView) -> Seq<char> {
    if first.size > 0 {
        "hotspot_x = "@ + fraction_text(first.hotspot_x, first.size) + "\n"@ + "hotspot_y = "@
            + fraction_text(first.hotspot_y, first.size) + "\n"@
    } else {
        "hotspot_x = 0.0\n"@ + "hotspot_y = 0.0\n"@
    }
}

/// The `define_size` lines of the first `k` entries, or `None` where an
/// entry names no file.
pub open spec fn size_lines(entries: Seq<XConfigView>, k: int) -> Option<Seq<char>>
    decreases k,
{
    if k <= 0 {
        Some(Seq::empty())
    } else {
        match (size_lines(entries, k - 1), path_file_name(entries[k - 1].image)) {
            (Some(before), Some(name)) => Some(
                before + "define_size = "@ + decimal(entries[k - 1].size as nat) + ", "@ + name
                    + ", "@ + decimal(entries[k - 1].delay as nat) + "\n"@,
            ),
            _ => None,
        }
    }
}

/// The `define_override` lines of the first `k` names.
pub open spec fn override_lines(names: Seq<Seq<char>>, k: int) -> Seq<char>
    decreases k,
{
    if k <= 0 {
        Seq::empty()
    } else {
        override_lines(names, k - 1) + "define_override = "@ + names[k - 1] + "\n"@
    }
}

/// The metadata document of an extracted cursor: the resize algorithm,
/// the hotspot, an empty line, one `define_size` line per entry, an empty
/// line, and one `define_override` line per alias. There is none where an
/// entry names no file.
pub open spec fn meta_text(
    algorithm: Seq<char>,
    entries: Seq<XConfigView>,
    overrides: Seq<Seq<char>>,
) -> Option<Seq<char>> {
    match size_lines(entries, entries.len() as int) {
        None => None,
        Some(sizes) => Some(
            "resize_algorithm = "@ + algorithm + "\n"@ + hotspot_lines(entries[0]) + "\n"@ + sizes
                + "\n"@ + override_lines(overrides, overrides.len() as int),
        ),
    }
}

/// Writes the metadata document of an extracted cursor.
pub fn render_meta(algorithm: &str, entries: &Vec<XConfigEntry>, overrides: &Vec<String>) -> (r:
    Option<String>)
    requires
        entries@.len() > 0,
    ensures
        match meta_text(algorithm@, xconfig_views(entries@), string_views(overrides@)) {
            Some(text) => r is Some && r->Some_0@ == text,
            None => r is None,
        },
{
    let ghost views = xconfig_views(entries@);
    let ghost names = string_views(overrides@);
    let mut text = String::new();
    push_str(&mut text, "resize_algorithm = ");
    push_str(&mut text, algorithm);
    push_str(&mut text, "\n");
    let first = &entries[0];
    assert(views[0] == first@);
    if first.size > 0 {
        push_str(&mut text, "hotspot_x = ");
        push_fraction(&mut text, first.hotspot_x, first.size);
        push_str(&mut text, "\n");
        push_str(&mut text, "hotspot_y = ");
        push_fraction(&mut text, first.hotspot_y, first.size);
        push_str(&mut text, "\n");
    } else {
        push_str(&mut text, "hotspot_x = 0.0\n");
        push_str(&mut text, "hotspot_y = 0.0\n");
    }
    push_str(&mut text, "\n");
    let ghost head = text@;
    assert(head =~= "resize_algorithm = "@ + algorithm@ + "\n"@ + hotspot_lines(views[0]) + "\n"@);
    let mut k: usize = 0;
    while k < entries.len()
        invariant
            k <= entries@.len(),
            views == xconfig_views(entries@),
            size_lines(views, k as int) is Some,
            text@ == head + size_lines(views, k as int)->Some_0,
        decreases entries@.len() - k,
    {
        let entry = &entries[k];
        assert(views[k as int] == entry@);
        let name = match file_name_of(entry.image.as_str()) {
            Some(name) => name,
            None => {
                proof {
                    lemma_size_lines_none(views, k + 1, entries@.len() as int);
                }
                return None;
            },
        };
        let ghost before = text@;
        push_str(&mut text, "define_size = ");
        push_decimal(&mut text, entry.size as u64);
        push_str(&mut text, ", ");
        push_str(&mut text, name.as_str());
        push_str(&mut text, ", ");
        push_decimal(&mut text, entry.delay as u64);
        push_str(&mut text, "\n");
        k += 1;
        assert(text@ =~= head + size_lines(views, k as int)->Some_0);
    }
    push_str(&mut text, "\n");
    let ghost upper = text@;
    let mut j: usize = 0;
    while j < overrides.len()
        invariant
            j <= overrides@.len(),
            names == string_views(overrides@),
            text@ == upper + override_lines(names, j as int),
        decreases overrides@.len() - j,
    {
        assert(names[j as int] == overrides@[j as int]@);
        push_str(&mut text, "define_override = ");
        push_str(&mut text, overrides[j].as_str());
        push_str(&mut text, "\n");
        j += 1;
        assert(text@ =~= upper + override_lines(names, j as int));
    }
    assert(text@ =~= meta_text(algorithm@, views, names)->Some_0);
    Some(text)
}

/// Once an entry names no file, no longer list of entries has lines.
pub proof fn lemma_size_lines_none(entries: Seq<XConfigView>, k: int, n: int)
    requires
        0 <= k <= n,
        size_lines(entries, k) is None,
    ensures
        size_lines(entries, n) is None,
    decreases n - k,
{
    if k < n {
        lemma_size_lines_none(entries, k, n - 1);
    }
}

/// The sources of one shape: its name, its image files, and its metadata
/// document.
#[derive(Debug)]
pub struct ShapeSource {
    pub name: String,
    pub files: Vec<ExtractedFile>,
    pub meta: String,
}

/// What the sources of a shape are, given what was extracted from its
/// cursor: the extracted files, and the metadata document that is written
/// from the entries of the sidecar document.
pub open spec fn is_shape_source(
    source: ShapeSource,
    name: Seq<char>,
    extraction: Extraction,
    algorithm: Seq<char>,
    overrides: Seq<Seq<char>>,
) -> bool {
    &&& source.name@ == name
    &&& source.files == extraction.files
    &&& extraction.config is Some
    &&& meta_text(algorithm, xconfig_of(extraction.config->Some_0.content@), overrides) == Some(
        source.meta@,
    )
}

/// Whether an extraction gives entries to write metadata from.
pub open spec fn has_entries(extraction: Extraction) -> bool {
    extraction.config is Some && xconfig_of(extraction.config->Some_0.content@).len() > 0
}

/// Builds the sources of a shape from what was extracted from its cursor.
///
/// Gives `Ok(None)` where the extraction has no sidecar document or the
/// document lists no image, and fails with [`CursorError::Validation`]
/// where an entry names no file.
pub fn shape_source_from(
    name: &str,
    extraction: Extraction,
    resize_algo: Option<&str>,
    overrides: &Vec<String>,
) -> (r: Result<Option<ShapeSource>, CursorError>)
    ensures
        !has_entries(extraction) ==> r == Ok::<Option<ShapeSource>, CursorError>(None),
        has_entries(extraction) ==> match meta_text(
            resize_algorithm(resize_algo),
            xconfig_of(extraction.config->Some_0.content@),
            string_views(overrides@),
        ) {
            None => r == Err::<Option<ShapeSource>, CursorError>(CursorError::Validation),
            Some(text) => r is Ok && r->Ok_0 is Some && is_shape_source(
                r->Ok_0->Some_0,
                name@,
                extraction,
                resize_algorithm(resize_algo),
                string_views(overrides@),
            ),
        },
{
    let Extraction { files, config } = extraction;
    let document = match config {
        Some(document) => document,
        None => {
            return Ok(None);
        },
    };
    let entries = parse_xconfig(document.content.as_str());
    if entries.len() == 0 {
        return Ok(None);
    }
    let algo: &str = match resize_algo {
        Some(a) => a,
        None => "none",
    };
    match render_meta(algo, &entries, overrides) {
        Some(meta) => Ok(Some(ShapeSource { name: name.to_owned(), files, meta })),
        None => Err(CursorError::Validation),
    }
}

/// The resize algorithm that is written: the one that is given, or
/// `none`.
pub open spec fn resize_algorithm(resize_algo: Option<&str>) -> Seq<char> {
    match resize_algo {
        Some(a) => a@,
        None => "none"@,
    }
}

/// The options under which a cursor is extracted for a shape: every size,
/// numbered from 0, under the name of the shape, with a sidecar document.
pub open spec fn source_options(options: ExtractOptions, name: Seq<char>) -> bool {
    &&& options.prefix@ == name
    &&& options.initial_suffix == 0
    &&& options.write_config
    &&& options.config_name is None
    &&& options.extract_all_sizes
}

/// What converting an Xcursor file into the sources of a shape gives: the
/// error of the extraction; a validation error where the extraction gives
/// no entries or an entry names no file; and otherwise the extracted files
/// with the metadata document that is written from the entries.
pub open spec fn is_source_of(
    data: Seq<u8>,
    stem: Seq<char>,
    resize_algo: Option<&str>,
    overrides: Seq<Seq<char>>,
    r: Result<ShapeSource, CursorError>,
) -> bool {
    exists|options: ExtractOptions, extracted: Result<Extraction, CursorError>|
        #![trigger is_extraction_of(data, options, extracted)]
        {
            &&& source_options(options, stem)
            &&& is_extraction_of(data, options, extracted)
            &&& match extracted {
                Err(e) => r is Err && r->Err_0 == e,
                Ok(extraction) => if !has_entries(extraction) {
                    r is Err && r->Err_0 == CursorError::Validation
                } else {
                    match r {
                        Ok(source) => is_shape_source(
                            source,
                            stem,
                            extraction,
                            resize_algorithm(resize_algo),
                            overrides,
                        ),
                        Err(e) => e == CursorError::Validation && meta_text(
                            resize_algorithm(resize_algo),
                            xconfig_of(extraction.config->Some_0.content@),
                            overrides,
                        ) is None,
                    }
                },
            }
        }
}

/// Converts an Xcursor file into the sources of a shape: its images as PNG
/// files, and a metadata document with the hotspot of the first image as
/// a fraction of its size.
///
/// Fails with the error of the extraction, and with
/// [`CursorError::Validation`] where the extraction gives no entries or
/// an entry names no file.
pub fn extract_xcursor_to_hypr_source(
    data: &[u8],
    stem: &str,
    resize_algo: Option<&str>,
    overrides: &Vec<String>,
) -> (r: Result<ShapeSource, CursorError>)
    ensures
        is_source_of(data@, stem@, resize_algo, string_views(overrides@), r),
{
    let options = ExtractOptions::new().with_prefix(stem).with_config(true);
    let extracted = extract_to_pngs(data, &options);
    assert(is_extraction_of(data@, options, extracted));
    match extracted {
        Err(e) => Err(e),
        Ok(extraction) => match shape_source_from(stem, extraction, resize_algo, overrides) {
            Err(e) => Err(e),
            Ok(None) => Err(CursorError::Validation),
            Ok(Some(source)) => Ok(source),
        },
    }
}

/// A cursor of an X11 theme: the stem of its file name, the bytes of the
/// file, and the names of the links that point to it.
#[derive(Debug)]
pub struct ThemeCursor {
    pub stem: String,
    pub data: Vec<u8>,
    pub aliases: Vec<String>,
}

/// What extracting the sources of one theme cursor gives: the sources,
/// nothing where the cursor gives no entries, or an error.
pub open spec fn is_cursor_source(
    cursor: ThemeCursor,
    resize_algo: Option<&str>,
    r: Result<Option<ShapeSource>, CursorError>,
) -> bool {
    exists|options: ExtractOptions, extracted: Result<Extraction, CursorError>|
        #![trigger is_extraction_of(cursor.data@, options, extracted)]
        {
            &&& source_options(options, cursor.stem@)
            &&& is_extraction_of(cursor.data@, options, extracted)
            &&& match extracted {
                Err(e) => r is Err && r->Err_0 == e,
                Ok(extraction) => if !has_entries(extraction) {
                    r == Ok::<Option<ShapeSource>, CursorError>(None)
                } else {
                    match r {
                        Ok(found) => found is Some && is_shape_source(
                            found->Some_0,
                            cursor.stem@,
                            extraction,
                            resize_algorithm(resize_algo),
                            string_views(cursor.aliases@),
                        ),
                        Err(e) => e == CursorError::Validation && meta_text(
                            resize_algorithm(resize_algo),
                            xconfig_of(extraction.config->Some_0.content@),
                            string_views(cursor.aliases@),
                        ) is None,
                    }
                },
            }
        }
}

/// Extracts the sources of one theme cursor.
pub fn theme_cursor_source(cursor: &ThemeCursor, resize_algo: Option<&str>) -> (r: Result<
    Option<ShapeSource>,
    CursorError,
>)
    ensures
        is_cursor_source(*cursor, resize_algo, r),
{
    let options = ExtractOptions::new().with_prefix(cursor.stem.as_str()).with_config(true);
    let extracted = extract_to_pngs(cursor.data.as_slice(), &options);
    assert(is_extraction_of(cursor.data@, options, extracted));
    match extracted {
        Err(e) => Err(e),
        Ok(extraction) => shape_source_from(
            cursor.stem.as_str(),
            extraction,
            resize_algo,
            &cursor.aliases,
        ),
    }
}

/// The manifest of an extracted theme.
pub open spec fn extracted_manifest(theme_name: Seq<char>) -> Seq<char> {
    "name = "@ + theme_name + "\n"@ + "description = Automatically extracted with ani2hyprtui\n"@
        + "version = 1.0\n"@ + "cursors_directory = hyprcursors\n"@
}

/// The sources of the shapes of a whole theme.
#[derive(Debug)]
pub struct ExtractedTheme {
    /// The text of `manifest.hl`.
    pub manifest: String,
    /// The sources of the shapes, in the order of the cursors.
    pub shapes: Vec<ShapeSource>,
    /// The stems of the cursors that gave no entries and were passed over.
    pub skipped: Vec<String>,
}

/// The sources among the first `k` outcomes, in order.
pub open spec fn sources_among(
    outcomes: Seq<Result<Option<ShapeSource>, CursorError>>,
    k: int,
) -> Seq<ShapeSource>
    decreases k,
{
    if k <= 0 {
        Seq::empty()
    } else {
        match outcomes[k - 1] {
            Ok(Some(source)) => sources_among(outcomes, k - 1).push(source),
            _ => sources_among(outcomes, k - 1),
        }
    }
}

/// The stems of those of the first `k` cursors whose outcome is empty.
pub open spec fn skipped_among(
    cursors: Seq<ThemeCursor>,
    outcomes: Seq<Result<Option<ShapeSource>, CursorError>>,
    k: int,
) -> Seq<Seq<char>>
    decreases k,
{
    if k <= 0 {
        Seq::empty()
    } else {
        match outcomes[k - 1] {
            Ok(None) => skipped_among(cursors, outcomes, k - 1).push(cursors[k - 1].stem@),
            _ => skipped_among(cursors, outcomes, k - 1),
        }
    }
}

/// What converting the cursors of an X11 theme gives: with the outcome of
/// every cursor that was looked at, the sources of those that gave any,
/// in order, and the stems of those that gave none; or the error of the
/// first cursor that failed.
pub open spec fn is_theme_extraction(
    theme_name: Seq<char>,
    cursors: Seq<ThemeCursor>,
    resize_algo: Option<&str>,
    r: Result<ExtractedTheme, CursorError>,
) -> bool {
    exists|outcomes: Seq<Result<Option<ShapeSource>, CursorError>>, n: int|
        #![trigger sources_among(outcomes, n)]
        {
            &&& 0 <= n <= cursors.len()
            &&& outcomes.len() == n
            &&& forall|i: int|
                0 <= i < n ==> is_cursor_source(cursors[i], resize_algo, #[trigger] outcomes[i])
            &&& forall|i: int| 0 <= i < n - 1 ==> (#[trigger] outcomes[i]) is Ok
            &&& match r {
                Ok(theme) => {
                    &&& n == cursors.len()
                    &&& n > 0 ==> outcomes[n - 1] is Ok
                    &&& theme.manifest@ == extracted_manifest(theme_name)
                    &&& theme.shapes@ == sources_among(outcomes, n)
                    &&& string_views(theme.skipped@) == skipped_among(cursors, outcomes, n)
                },
                Err(e) => n > 0 && outcomes[n - 1] is Err && outcomes[n - 1]->Err_0 == e,
            }
        }
}

/// Converts the cursors of an X11 theme into the sources of a Hyprcursor
/// theme: a manifest, and for every cursor its images and metadata, with
/// the names of its links as overrides.
///
/// The cursors are taken in order. One that gives no entries is passed
/// over; the first one that fails ends the conversion with its error.
pub fn extract_xcursor_theme(
    theme_name: &str,
    cursors: &Vec<ThemeCursor>,
    resize_algo: Option<&str>,
) -> (r: Result<ExtractedTheme, CursorError>)
    ensures
        is_theme_extraction(theme_name@, cursors@, resize_algo, r),
{
    let mut manifest = String::new();
    push_str(&mut manifest, "name = ");
    push_str(&mut manifest, theme_name);
    push_str(&mut manifest, "\n");
    push_str(&mut manifest, "description = Automatically extracted with ani2hyprtui\n");
    push_str(&mut manifest, "version = 1.0\n");
    push_str(&mut manifest, "cursors_directory = hyprcursors\n");
    assert(manifest@ =~= extracted_manifest(theme_name@));
    let mut shapes: Vec<ShapeSource> = Vec::new();
    let mut skipped: Vec<String> = Vec::new();
    let ghost mut outcomes: Seq<Result<Option<ShapeSource>, CursorError>> = Seq::empty();
    let mut k: usize = 0;
    assert(string_views(skipped@) =~= Seq::empty());
    while k < cursors.len()
        invariant
            k <= cursors@.len(),
            outcomes.len() == k,
            forall|i: int|
                0 <= i < k ==> is_cursor_source(cursors@[i], resize_algo, #[trigger] outcomes[i]),
            forall|i: int| 0 <= i < k ==> (#[trigger] outcomes[i]) is Ok,
            shapes@ == sources_among(outcomes, k as int),
            string_views(skipped@) == skipped_among(cursors@, outcomes, k as int),
        decreases cursors@.len() - k,
    {
        let outcome = theme_cursor_source(&cursors[k], resize_algo);
        let ghost before = outcomes;
        proof {
            outcomes = outcomes.push(outcome);
            lemma_outcomes_prefix(cursors@, before, outcomes, k as int);
        }
        match outcome {
            Err(e) => {
                assert(sources_among(outcomes, k + 1) == sources_among(outcomes, k as int));
                return Err(e);
            },
            Ok(None) => {
                let ghost names = string_views(skipped@);
                skipped.push(cursors[k].stem.clone());
                assert(string_views(skipped@) =~= names.push(cursors@[k as int].stem@));
            },
            Ok(Some(source)) => {
                shapes.push(source);
            },
        }
        k += 1;
    }
    Ok(ExtractedTheme { manifest, shapes, skipped })
}

/// What was collected from the first outcomes does not change when an
/// outcome is added behind them.
pub proof fn lemma_outcomes_prefix(
    cursors: Seq<ThemeCursor>,
    before: Seq<Result<Option<ShapeSource>, CursorError>>,
    after: Seq<Result<Option<ShapeSource>, CursorError>>,
    k: int,
)
    requires
        0 <= k <= before.len(),
        before.len() <= after.len(),
        forall|i: int| 0 <= i < before.len() ==> before[i] == after[i],
    ensures
        sources_among(after, k) == sources_among(before, k),
        skipped_among(cursors, after, k) == skipped_among(cursors, before, k),
    decreases k,
{
    if k > 0 {
        lemma_outcomes_prefix(cursors, before, after, k - 1);
    }
}

/// Where a compiled theme is put.
#[derive(Debug)]
pub enum OutputLocation {
    /// In the output directory itself.
    Exact,
    /// In a directory of this name inside the output directory.
    Within(String),
    /// In a directory of this name beside the input directory.
    Beside(String),
}

/// Decides where a theme is put: in the output directory itself where
/// that is asked for, else in a directory of the given name, inside the
/// output directory where one is given and beside the input otherwise.
pub fn output_location(output_given: bool, exact_output: bool, dir_name: String) -> (r:
    OutputLocation)
    ensures
        output_given && exact_output ==> r is Exact,
        output_given && !exact_output ==> r is Within && r->Within_0 == dir_name,
        !output_given ==> r is Beside && r->Beside_0 == dir_name,
{
    if output_given {
        if exact_output {
            OutputLocation::Exact
        } else {
            OutputLocation::Within(dir_name)
        }
    } else {
        OutputLocation::Beside(dir_name)
    }
}

/// Whether the output directory is emptied before it is filled: only an
/// existing directory that was not asked for exactly.
pub fn must_clean(exists: bool, exact_output: bool) -> (r: bool)
    ensures
        r == (exists && !exact_output),
{
    exists && !exact_output
}

/// A directory below the cursors directory of a theme source.
#[derive(Debug)]
pub struct ShapeDirectory {
    /// The name of the directory.
    pub name: String,
    /// The notation of its metadata document, if it has one.
    pub notation: Option<Notation>,
    /// The text of its metadata document.
    pub meta: String,
    /// Its files.
    pub files: Vec<ShapeFile>,
}

/// What handling one shape directory gives: nothing for a directory whose
/// name cannot name a shape, a validation error for one without metadata,
/// and otherwise what packing the shape gives.
pub open spec fn is_shape_outcome(
    dir: ShapeDirectory,
    r: Option<Result<ShapePackage, CursorError>>,
) -> bool {
    if !valid_shape_name(dir.name@) {
        r is None
    } else {
        match dir.notation {
            None => r == Some(Err::<ShapePackage, CursorError>(CursorError::Validation)),
            Some(notation) => r is Some && is_processed(
                dir.name@,
                notation,
                dir.meta@,
                dir.files@,
                r->Some_0,
            ),
        }
    }
}

/// What reading, checking and packing a shape gives: the error of the
/// metadata parser; a validation error where the shape is not
/// [`packable`]; and otherwise the archive `<shape>.hlc` of the metadata
/// document and the image files, with a warning for every image whose
/// delay is suspiciously short, or [`CursorError::Io`] where the archive
/// writer refuses one of the files.
pub open spec fn is_processed(
    shape_name: Seq<char>,
    notation: Notation,
    meta: Seq<char>,
    files: Seq<ShapeFile>,
    r: Result<ShapePackage, CursorError>,
) -> bool {
    match shape_in(notation, shape_name, meta) {
        Err(e) => r is Err && r->Err_0 == e,
        Ok(shape) => if !packable(shape, file_names(files)) {
            r == Err::<ShapePackage, CursorError>(CursorError::Validation)
        } else {
            match archive_of(
                packed_names(meta_file_name(notation), shape, shape.images.len() as int),
                packed_contents(
                    vstd::utf8::encode_utf8(meta),
                    shape,
                    files,
                    shape.images.len() as int,
                ),
            ) {
                Some(bytes) => {
                    &&& r is Ok
                    &&& r->Ok_0.file_name@ == shape_name + ".hlc"@
                    &&& r->Ok_0.bytes@ == bytes
                    &&& string_views(r->Ok_0.warnings@) == delay_warnings(
                        shape.images,
                        shape.images.len() as int,
                    )
                },
                None => r == Err::<ShapePackage, CursorError>(CursorError::Io),
            }
        },
    }
}

/// Handles one shape directory.
pub fn compile_shape(dir: &ShapeDirectory) -> (r: Option<Result<ShapePackage, CursorError>>)
    ensures
        is_shape_outcome(*dir, r),
{
    if !is_valid_shape_name(dir.name.as_str()) {
        return None;
    }
    match dir.notation {
        None => Some(Err(CursorError::Validation)),
        Some(notation) => Some(
            process_shape(dir.name.as_str(), notation, dir.meta.as_str(), &dir.files),
        ),
    }
}

/// A compiled theme.
#[derive(Debug)]
pub struct CompiledTheme {
    /// The manifest of the theme.
    pub manifest: HyprManifest,
    /// The archives of the shapes, in the order of their directories.
    pub packages: Vec<ShapePackage>,
    /// The names of the directories that cannot name a shape and were
    /// passed over.
    pub skipped: Vec<String>,
}

/// The archives among the first `k` outcomes, in order.
pub open spec fn packages_among(
    outcomes: Seq<Option<Result<ShapePackage, CursorError>>>,
    k: int,
) -> Seq<ShapePackage>
    decreases k,
{
    if k <= 0 {
        Seq::empty()
    } else {
        match outcomes[k - 1] {
            Some(Ok(package)) => packages_among(outcomes, k - 1).push(package),
            _ => packages_among(outcomes, k - 1),
        }
    }
}

/// The names of those of the first `k` directories that were passed over.
pub open spec fn passed_over(
    dirs: Seq<ShapeDirectory>,
    outcomes: Seq<Option<Result<ShapePackage, CursorError>>>,
    k: int,
) -> Seq<Seq<char>>
    decreases k,
{
    if k <= 0 {
        Seq::empty()
    } else {
        match outcomes[k - 1] {
            None => passed_over(dirs, outcomes, k - 1).push(dirs[k - 1].name@),
            _ => passed_over(dirs, outcomes, k - 1),
        }
    }
}

/// What was collected from the first outcomes does not change when an
/// outcome is added behind them.
pub proof fn lemma_packages_prefix(
    dirs: Seq<ShapeDirectory>,
    before: Seq<Option<Result<ShapePackage, CursorError>>>,
    after: Seq<Option<Result<ShapePackage, CursorError>>>,
    k: int,
)
    requires
        0 <= k <= before.len(),
        before.len() <= after.len(),
        forall|i: int| 0 <= i < before.len() ==> before[i] == after[i],
    ensures
        packages_among(after, k) == packages_among(before, k),
        passed_over(dirs, after, k) == passed_over(dirs, before, k),
    decreases k,
{
    if k > 0 {
        lemma_packages_prefix(dirs, before, after, k - 1);
    }
}

/// What compiling the sources of a theme gives: the error of a manifest
/// that cannot be read; and otherwise, with the outcome of every shape
/// directory that was looked at, the manifest and the archives of the
/// shapes, in order, or the error of the first directory that failed.
pub open spec fn is_theme_compilation(
    notation: Notation,
    manifest: Seq<char>,
    dirs: Seq<ShapeDirectory>,
    r: Result<CompiledTheme, CursorError>,
) -> bool {
    &&& manifest_in(notation, manifest) matches Err(e) ==> r is Err && r->Err_0 == e
    &&& manifest_in(notation, manifest) is Ok ==> exists|
        outcomes: Seq<Option<Result<ShapePackage, CursorError>>>,
        n: int,
    |
        #![trigger packages_among(outcomes, n)]
        {
            &&& 0 <= n <= dirs.len()
            &&& outcomes.len() == n
            &&& forall|i: int| 0 <= i < n ==> is_shape_outcome(dirs[i], #[trigger] outcomes[i])
            &&& forall|i: int|
                0 <= i < n - 1 ==> !((#[trigger] outcomes[i]) matches Some(Err(_)))
            &&& match r {
                Ok(theme) => {
                    &&& n == dirs.len()
                    &&& n > 0 ==> !(outcomes[n - 1] matches Some(Err(_)))
                    &&& theme.manifest@ == manifest_in(notation, manifest)->Ok_0
                    &&& theme.packages@ == packages_among(outcomes, n)
                    &&& string_views(theme.skipped@) == passed_over(dirs, outcomes, n)
                },
                Err(e) => n > 0 && outcomes[n - 1] == Some(Err::<ShapePackage, CursorError>(e)),
            }
        }
}

/// Compiles the sources of a theme: reads the manifest, and packs every
/// shape directory into its archive.
///
/// The directories are taken in order. One whose name cannot name a shape
/// is passed over; the first one that fails ends the compilation with its
/// error. A manifest that cannot be read fails before any shape is looked
/// at.
pub fn create_cursor_theme(notation: Notation, manifest: &str, dirs: &Vec<ShapeDirectory>) -> (r:
    Result<CompiledTheme, CursorError>)
    ensures
        is_theme_compilation(notation, manifest@, dirs@, r),
{
    let parsed = match parse_manifest(notation, manifest) {
        Ok(m) => m,
        Err(e) => {
            return Err(e);
        },
    };
    let mut packages: Vec<ShapePackage> = Vec::new();
    let mut skipped: Vec<String> = Vec::new();
    let ghost mut outcomes: Seq<Option<Result<ShapePackage, CursorError>>> = Seq::empty();
    let mut k: usize = 0;
    assert(string_views(skipped@) =~= Seq::empty());
    while k < dirs.len()
        invariant
            k <= dirs@.len(),
            outcomes.len() == k,
            manifest_in(notation, manifest@) is Ok,
            parsed@ == manifest_in(notation, manifest@)->Ok_0,
            forall|i: int| 0 <= i < k ==> is_shape_outcome(dirs@[i], #[trigger] outcomes[i]),
            forall|i: int| 0 <= i < k ==> !((#[trigger] outcomes[i]) matches Some(Err(_))),
            packages@ == packages_among(outcomes, k as int),
            string_views(skipped@) == passed_over(dirs@, outcomes, k as int),
        decreases dirs@.len() - k,
    {
        let outcome = compile_shape(&dirs[k]);
        let ghost before = outcomes;
        proof {
            outcomes = outcomes.push(outcome);
            lemma_packages_prefix(dirs@, before, outcomes, k as int);
        }
        match outcome {
            None => {
                let ghost names = string_views(skipped@);
                skipped.push(dirs[k].name.clone());
                assert(string_views(skipped@) =~= names.push(dirs@[k as int].name@));
            },
            Some(Err(e)) => {
                assert(packages_among(outcomes, k + 1) == packages_among(outcomes, k as int));
                return Err(e);
            },
            Some(Ok(package)) => {
                packages.push(package);
            },
        }
        k += 1;
    }
    Ok(CompiledTheme { manifest: parsed, packages, skipped })
}

} // verus!
