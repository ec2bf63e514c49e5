//! Extraction of the images of an Xcursor file as PNG files with a
//! sidecar document.

use crate::error::CursorError;
use crate::pipeline::raster::png_encoding;
use crate::pipeline::xcur2png::png_writer::{
    config_document, png_file, render_config_file, PngWriteConfig,
};
use crate::pipeline::xcur2png::xcursor_reader::{
    indices_of_size, is_size_list, nominal_sizes, parse_xcursor, XcursorFile, XcursorImage,
};
use crate::text::{decimal_padded3, push_decimal_padded3, push_str};
use vstd::prelude::*;

verus! {

/// How the images of a file are extracted.
#[derive(Debug)]
pub struct ExtractOptions {
    /// The first part of every file name.
    pub prefix: String,
    /// The number of the first file.
    pub initial_suffix: usize,
    /// Whether the sidecar document is produced.
    pub write_config: bool,
    /// The name of the sidecar document; by default the prefix followed
    /// by `.conf`.
    pub config_name: Option<String>,
    /// Whether every size is extracted, or only the largest one.
    pub extract_all_sizes: bool,
}

impl ExtractOptions {
    /// The default options: prefix `cursor`, numbering from 0, every size,
    /// with a sidecar document.
    pub fn new() -> (r: ExtractOptions)
        ensures
            r.prefix@ == "cursor"@,
            r.initial_suffix == 0,
            r.write_config,
            r.config_name is None,
            r.extract_all_sizes,
    {
        ExtractOptions {
            prefix: "cursor".to_owned(),
            initial_suffix: 0,
            write_config: true,
            config_name: None,
            extract_all_sizes: true,
        }
    }

    /// Sets the first part of every file name.
    pub fn with_prefix(self, prefix: &str) -> (r: ExtractOptions)
        ensures
            r.prefix@ == prefix@,
            r.initial_suffix == self.initial_suffix,
            r.write_config == self.write_config,
            r.config_name == self.config_name,
            r.extract_all_sizes == self.extract_all_sizes,
    {
        let mut options = self;
        options.prefix = prefix.to_owned();
        options
    }

    /// Sets the number of the first file.
    pub fn with_initial_suffix(self, suffix: usize) -> (r: ExtractOptions)
        ensures
            r.prefix == self.prefix,
            r.initial_suffix == suffix,
            r.write_config == self.write_config,
            r.config_name == self.config_name,
            r.extract_all_sizes == self.extract_all_sizes,
    {
        let mut options = self;
        options.initial_suffix = suffix;
        options
    }

    /// Sets whether the sidecar document is produced.
    pub fn with_config(self, write: bool) -> (r: ExtractOptions)
        ensures
            r.prefix == self.prefix,
            r.initial_suffix == self.initial_suffix,
            r.write_config == write,
            r.config_name == self.config_name,
            r.extract_all_sizes == self.extract_all_sizes,
    {
        let mut options = self;
        options.write_config = write;
        options
    }

    /// Sets the name of the sidecar document.
    pub fn with_config_name(self, name: &str) -> (r: ExtractOptions)
        ensures
            r.prefix == self.prefix,
            r.initial_suffix == self.initial_suffix,
            r.write_config == self.write_config,
            r.config_name is Some && r.config_name->Some_0@ == name@,
            r.extract_all_sizes == self.extract_all_sizes,
    {
        let mut options = self;
        options.config_name = Some(name.to_owned());
        options
    }

    /// Sets whether every size is extracted, or only the largest one.
    pub fn with_all_sizes(self, extract_all: bool) -> (r: ExtractOptions)
        ensures
            r.prefix == self.prefix,
            r.initial_suffix == self.initial_suffix,
            r.write_config == self.write_config,
            r.config_name == self.config_name,
            r.extract_all_sizes == extract_all,
    {
        let mut options = self;
        options.extract_all_sizes = extract_all;
        options
    }
}

impl Default for ExtractOptions {
    fn default() -> (r: ExtractOptions)
        ensures
            r.prefix@ == "cursor"@,
            r.initial_suffix == 0,
            r.write_config,
            r.config_name is None,
            r.extract_all_sizes,
    {
        ExtractOptions::new()
    }
}

/// One extracted image: the name of its file and the bytes of the file.
#[derive(Debug)]
pub struct ExtractedFile {
    pub filename: String,
    pub png: Vec<u8>,
}

/// The sidecar document: its file name and its text.
#[derive(Debug)]
pub struct ConfigDocument {
    pub name: String,
    pub content: String,
}

/// Everything that an extraction produces.
#[derive(Debug)]
pub struct Extraction {
    /// The PNG files, in the order in which they are numbered.
    pub files: Vec<ExtractedFile>,
    /// The sidecar document, where one is asked for and not empty.
    pub config: Option<ConfigDocument>,
}

/// The largest suffix that a file name can carry.
pub const MAX_SUFFIX: usize = 999;

/// The sizes that are extracted: all of them, or the largest only.
pub open spec fn selected_sizes(sizes: Seq<u32>, all: bool) -> Seq<u32> {
    if all || sizes.len() == 0 {
        sizes
    } else {
        seq![sizes.last()]
    }
}

/// The indices of the images of the first `m` selected sizes: size after
/// size, and in file order within a size.
pub open spec fn extraction_order(nominal: Seq<u32>, selected: Seq<u32>, m: int) -> Seq<int>
    decreases m,
{
    if m <= 0 {
        Seq::empty()
    } else {
        extraction_order(nominal, selected, m - 1) + indices_of_size(
            nominal,
            selected[m - 1],
            nominal.len() as int,
        )
    }
}

/// The name of the file with number `suffix`: the prefix, an underscore,
/// the number zero-filled to three digits, and `.png`.
pub open spec fn file_name(prefix: Seq<char>, suffix: nat) -> Seq<char> {
    prefix + seq!['_'] + decimal_padded3(suffix) + ".png"@
}

/// The name of the sidecar document.
pub open spec fn config_file_name(options: ExtractOptions) -> Seq<char> {
    match options.config_name {
        Some(name) => name@,
        None => options.prefix@ + ".conf"@,
    }
}

/// The images that are extracted, in order.
pub open spec fn is_extraction_order(
    images: Seq<XcursorImage>,
    all: bool,
    order: Seq<int>,
) -> bool {
    exists|sizes: Seq<u32>|
        #![trigger is_size_list(nominal_sizes(images), sizes)]
        is_size_list(nominal_sizes(images), sizes) && order == extraction_order(
            nominal_sizes(images),
            selected_sizes(sizes, all),
            selected_sizes(sizes, all).len() as int,
        )
}

/// Whether an extraction in the given order succeeds: every image can be
/// encoded, and no file number reaches past the largest suffix.
pub open spec fn extractable(
    images: Seq<XcursorImage>,
    options: ExtractOptions,
    order: Seq<int>,
) -> bool {
    &&& order.len() > 0 ==> options.initial_suffix + order.len() <= MAX_SUFFIX
    &&& forall|p: int|
        0 <= p < order.len() ==> png_encoding(images[#[trigger] order[p]].pixels@) is Some
}

/// The sidecar entry of the image that is extracted at position `p`.
pub open spec fn is_entry_of(
    entry: PngWriteConfig,
    image: XcursorImage,
    options: ExtractOptions,
    p: int,
) -> bool {
    &&& entry.filename@ == file_name(options.prefix@, (options.initial_suffix + p) as nat)
    &&& entry.size == image.size
    &&& entry.xhot == image.xhot
    &&& entry.yhot == image.yhot
    &&& entry.delay == image.delay
}

/// What a successful extraction in the given order holds: one file per
/// image, numbered from the initial suffix, and the sidecar document that
/// lists them.
pub open spec fn is_extraction(
    images: Seq<XcursorImage>,
    options: ExtractOptions,
    order: Seq<int>,
    result: Extraction,
) -> bool {
    &&& result.files@.len() == order.len()
    &&& forall|p: int|
        0 <= p < order.len() ==> {
            &&& (#[trigger] result.files@[p]).filename@ == file_name(
                options.prefix@,
                (options.initial_suffix + p) as nat,
            )
            &&& png_encoding(images[order[p]].pixels@) == Some(result.files@[p].png@)
        }
    &&& if options.write_config && order.len() > 0 {
        &&& result.config is Some
        &&& result.config->Some_0.name@ == config_file_name(options)
        &&& exists|entries: Seq<PngWriteConfig>|
            #![trigger config_document(entries)]
            {
                &&& entries.len() == order.len()
                &&& forall|p: int|
                    0 <= p < order.len() ==> is_entry_of(
                        #[trigger] entries[p],
                        images[order[p]],
                        options,
                        p,
                    )
                &&& result.config->Some_0.content@ == config_document(entries)
            }
    } else {
        result.config is None
    }
}

/// Lists the indices of the images to extract, in order.
fn extraction_indices(xcursor: &XcursorFile, all: bool) -> (order: Vec<usize>)
    ensures
        is_extraction_order(xcursor.images@, all, order@.map_values(|i: usize| i as int)),
        forall|p: int| 0 <= p < order@.len() ==> (#[trigger] order@[p]) < xcursor.images@.len(),
{
    let ghost nominal = nominal_sizes(xcursor.images@);
    let sizes = xcursor.get_sizes();
    let mut selected: Vec<u32> = Vec::new();
    if all || sizes.len() == 0 {
        selected = sizes;
    } else {
        selected.push(sizes[sizes.len() - 1]);
    }
    assert(selected@ =~= selected_sizes(sizes@, all));
    let mut order: Vec<usize> = Vec::new();
    let mut m: usize = 0;
    assert(order@.map_values(|i: usize| i as int) =~= Seq::<int>::empty());
    while m < selected.len()
        invariant
            m <= selected@.len(),
            nominal == nominal_sizes(xcursor.images@),
            order@.map_values(|i: usize| i as int) == extraction_order(
                nominal,
                selected@,
                m as int,
            ),
            forall|p: int| 0 <= p < order@.len() ==> (#[trigger] order@[p]) < xcursor.images@.len(),
        decreases selected@.len() - m,
    {
        let size = selected[m];
        let mut k: usize = 0;
        let ghost done = extraction_order(nominal, selected@, m as int);
        assert(order@.map_values(|i: usize| i as int) =~= done + indices_of_size(
            nominal,
            size,
            0,
        ));
        while k < xcursor.images.len()
            invariant
                k <= xcursor.images@.len(),
                nominal == nominal_sizes(xcursor.images@),
                order@.map_values(|i: usize| i as int) == done + indices_of_size(
                    nominal,
                    size,
                    k as int,
                ),
                forall|p: int|
                    0 <= p < order@.len() ==> (#[trigger] order@[p]) < xcursor.images@.len(),
            decreases xcursor.images@.len() - k,
        {
            if xcursor.images[k].size == size {
                let ghost before = order@.map_values(|i: usize| i as int);
                order.push(k);
                assert(order@.map_values(|i: usize| i as int) =~= before.push(k as int));
                assert(order@.map_values(|i: usize| i as int) =~= done + indices_of_size(
                    nominal,
                    size,
                    k + 1,
                ));
            }
            k += 1;
        }
        m += 1;
    }
    order
}

/// Builds the name of the file with number `suffix`.
fn make_file_name(prefix: &str, suffix: usize) -> (name: String)
    ensures
        name@ == file_name(prefix@, suffix as nat),
{
    let mut name = String::new();
    push_str(&mut name, prefix);
    name.push('_');
    push_decimal_padded3(&mut name, suffix as u64);
    push_str(&mut name, ".png");
    assert(name@ =~= file_name(prefix@, suffix as nat));
    name
}

/// Extracts the images of a decoded file.
///
/// The images are taken size after size in ascending order, and in file
/// order within a size; with `extract_all_sizes` off only the largest
/// size is taken. Each becomes a PNG file named by the prefix and a
/// running number, and a line of the sidecar document.
///
/// Fails with [`CursorError::Validation`] exactly when an image cannot be
/// encoded or the numbering would reach past 999.
pub fn extract_images(xcursor: &XcursorFile, options: &ExtractOptions) -> (r: Result<
    Extraction,
    CursorError,
>)
    ensures
        exists|order: Seq<int>|
            #![trigger is_extraction_order(xcursor.images@, options.extract_all_sizes, order)]
            {
                &&& is_extraction_order(xcursor.images@, options.extract_all_sizes, order)
                &&& extractable(xcursor.images@, *options, order) ==> r is Ok && is_extraction(
                    xcursor.images@,
                    *options,
                    order,
                    r->Ok_0,
                )
                &&& !extractable(xcursor.images@, *options, order) ==> r == Err::<
                    Extraction,
                    CursorError,
                >(CursorError::Validation)
            },
{
    let order = extraction_indices(xcursor, options.extract_all_sizes);
    let ghost ints = order@.map_values(|i: usize| i as int);
    let count = order.len();
    if count > 0 && (options.initial_suffix > MAX_SUFFIX || count > MAX_SUFFIX
        - options.initial_suffix) {
        assert(!extractable(xcursor.images@, *options, ints));
        return Err(CursorError::Validation);
    }
    let mut files: Vec<ExtractedFile> = Vec::new();
    let mut entries: Vec<PngWriteConfig> = Vec::new();
    let mut p: usize = 0;
    while p < count
        invariant
            p <= count == order@.len(),
            ints == order@.map_values(|i: usize| i as int),
            is_extraction_order(xcursor.images@, options.extract_all_sizes, ints),
            count > 0 ==> options.initial_suffix + count <= MAX_SUFFIX,
            forall|q: int| 0 <= q < order@.len() ==> (#[trigger] order@[q]) < xcursor.images@.len(),
            files@.len() == p,
            entries@.len() == p,
            forall|q: int|
                0 <= q < p ==> {
                    &&& (#[trigger] files@[q]).filename@ == file_name(
                        options.prefix@,
                        (options.initial_suffix + q) as nat,
                    )
                    &&& png_encoding(xcursor.images@[ints[q]].pixels@) == Some(files@[q].png@)
                },
            forall|q: int|
                0 <= q < p ==> is_entry_of(
                    #[trigger] entries@[q],
                    xcursor.images@[ints[q]],
                    *options,
                    q,
                ),
        decreases count - p,
    {
        let image = &xcursor.images[order[p]];
        assert(ints[p as int] == order@[p as int] as int);
        let png = match png_file(&image.pixels) {
            Ok(bytes) => bytes,
            Err(e) => {
                assert(png_encoding(xcursor.images@[ints[p as int]].pixels@) is None);
                assert(!extractable(xcursor.images@, *options, ints));
                return Err(e);
            },
        };
        let suffix = options.initial_suffix + p;
        let filename = make_file_name(options.prefix.as_str(), suffix);
        files.push(ExtractedFile { filename, png });
        entries.push(
            PngWriteConfig {
                filename: make_file_name(options.prefix.as_str(), suffix),
                size: image.size,
                xhot: image.xhot,
                yhot: image.yhot,
                delay: image.delay,
            },
        );
        p += 1;
    }
    assert forall|q: int| 0 <= q < ints.len() implies png_encoding(
        xcursor.images@[#[trigger] ints[q]].pixels@,
    ) is Some by {
        assert(files@[q].png@ == files@[q].png@);
    }
    assert(extractable(xcursor.images@, *options, ints));
    let config = if options.write_config && count > 0 {
        let name = match &options.config_name {
            Some(name) => name.clone(),
            None => {
                let mut name = String::new();
                push_str(&mut name, options.prefix.as_str());
                push_str(&mut name, ".conf");
                assert(name@ =~= options.prefix@ + ".conf"@);
                name
            },
        };
        Some(ConfigDocument { name, content: render_config_file(&entries) })
    } else {
        None
    };
    let result = Extraction { files, config };
    assert(is_extraction(xcursor.images@, *options, ints, result));
    Ok(result)
}

/// What extracting from the bytes of a file gives: the error of the
/// decoder where the bytes do not parse, and otherwise what
/// [`extract_images`] gives for the decoded file.
pub open spec fn is_extraction_of(
    data: Seq<u8>,
    options: ExtractOptions,
    r: Result<Extraction, CursorError>,
) -> bool {
    match parse_xcursor(data) {
        Err(e) => r is Err && r->Err_0 == e,
        Ok(records) => exists|file: XcursorFile, order: Seq<int>|
            #![trigger is_extraction_order(file.images@, options.extract_all_sizes, order)]
            {
                &&& file.records() == records
                &&& file.wf()
                &&& is_extraction_order(file.images@, options.extract_all_sizes, order)
                &&& extractable(file.images@, options, order) ==> r is Ok && is_extraction(
                    file.images@,
                    options,
                    order,
                    r->Ok_0,
                )
                &&& !extractable(file.images@, options, order) ==> r == Err::<
                    Extraction,
                    CursorError,
                >(CursorError::Validation)
            },
    }
}

/// Decodes an Xcursor file and extracts its images.
pub fn extract_to_pngs(data: &[u8], options: &ExtractOptions) -> (r: Result<
    Extraction,
    CursorError,
>)
    ensures
        is_extraction_of(data@, *options, r),
{
    let xcursor = match XcursorFile::from_bytes(data) {
        Ok(file) => file,
        Err(e) => {
            return Err(e);
        },
    };
    let r = extract_images(&xcursor, options);
    let ghost order = choose|order: Seq<int>|
        #![trigger is_extraction_order(xcursor.images@, options.extract_all_sizes, order)]
        {
            &&& is_extraction_order(xcursor.images@, options.extract_all_sizes, order)
            &&& extractable(xcursor.images@, *options, order) ==> r is Ok && is_extraction(
                xcursor.images@,
                *options,
                order,
                r->Ok_0,
            )
            &&& !extractable(xcursor.images@, *options, order) ==> r == Err::<
                Extraction,
                CursorError,
            >(CursorError::Validation)
        };
    assert(is_extraction_order(xcursor.images@, options.extract_all_sizes, order));
    r
}

/// A summary of an Xcursor file.
#[derive(Debug)]
pub struct CursorMetadata {
    /// The nominal sizes, ascending.
    pub sizes: Vec<u32>,
    /// The number of images.
    pub total_images: usize,
    /// For every size, the number of its images.
    pub frames_per_size: Vec<(u32, usize)>,
}

/// Whether a summary describes a list of images.
pub open spec fn is_metadata_of(images: Seq<XcursorImage>, meta: CursorMetadata) -> bool {
    &&& is_size_list(nominal_sizes(images), meta.sizes@)
    &&& meta.total_images == images.len()
    &&& meta.frames_per_size@.len() == meta.sizes@.len()
    &&& forall|k: int|
        0 <= k < meta.sizes@.len() ==> (#[trigger] meta.frames_per_size@[k]).0 == meta.sizes@[k]
            && meta.frames_per_size@[k].1 == indices_of_size(
            nominal_sizes(images),
            meta.sizes@[k],
            images.len() as int,
        ).len()
}

/// Summarises a decoded file: its sizes, and how many images each has.
pub fn summarize(xcursor: &XcursorFile) -> (meta: CursorMetadata)
    ensures
        is_metadata_of(xcursor.images@, meta),
{
    let sizes = xcursor.get_sizes();
    let total_images = xcursor.images.len();
    let mut frames_per_size: Vec<(u32, usize)> = Vec::new();
    let mut k: usize = 0;
    while k < sizes.len()
        invariant
            k <= sizes@.len(),
            frames_per_size@.len() == k,
            forall|j: int|
                0 <= j < k ==> (#[trigger] frames_per_size@[j]).0 == sizes@[j]
                    && frames_per_size@[j].1 == indices_of_size(
                    nominal_sizes(xcursor.images@),
                    sizes@[j],
                    xcursor.images@.len() as int,
                ).len(),
        decreases sizes@.len() - k,
    {
        let count = xcursor.get_images_for_size(sizes[k]).len();
        frames_per_size.push((sizes[k], count));
        k += 1;
    }
    let cloned = sizes.clone();
    assert(cloned@ =~= sizes@);
    CursorMetadata { sizes: cloned, total_images, frames_per_size }
}

/// Decodes an Xcursor file and summarises it.
pub fn extract_metadata(data: &[u8]) -> (r: Result<CursorMetadata, CursorError>)
    ensures
        match parse_xcursor(data@) {
            Err(e) => r is Err && r->Err_0 == e,
            Ok(records) => r is Ok && exists|file: XcursorFile|
                #![trigger file.records()]
                file.records() == records && is_metadata_of(file.images@, r->Ok_0),
        },
{
    let xcursor = match XcursorFile::from_bytes(data) {
        Ok(file) => file,
        Err(e) => {
            return Err(e);
        },
    };
    let meta = summarize(&xcursor);
    assert(xcursor.records() == parse_xcursor(data@)->Ok_0);
    Ok(meta)
}

} // verus!
