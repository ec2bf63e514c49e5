//! Decoded cursor images and the decoder for static `.cur` files.

use crate::bytes::{bytes_at, has_bytes_at, le_u16, le_u32, read_u16_le, read_u32_le};
use crate::error::CursorError;
use crate::pipeline::raster::{decode_image, decoded_image, ImageView, PayloadFormat, RgbaImage};
use crate::pipeline::win2xcur::dib::{
    and_masked, apply_and_mask, bmp_from_dib, create_bmp_from_dib,
};
use vstd::prelude::*;

verus! {

/// One decoded image: straight-alpha RGBA pixels, the hotspot, and the
/// nominal size that names its size class.
#[derive(Debug)]
pub struct CursorImage {
    pub image: RgbaImage,
    pub hotspot: (u16, u16),
    pub nominal_size: u32,
}

/// One animation step: the images shown during it, one per size, and how
/// long it is displayed in milliseconds.
#[derive(Debug)]
pub struct CursorFrame {
    pub images: Vec<CursorImage>,
    pub delay: u32,
}

impl CursorImage {
    /// Whether two images hold the same pixels, hotspot and nominal size.
    pub open spec fn same_as(self, other: CursorImage) -> bool {
        &&& self.image@ == other.image@
        &&& self.hotspot == other.hotspot
        &&& self.nominal_size == other.nominal_size
    }
}

impl Clone for CursorImage {
    fn clone(&self) -> (r: CursorImage)
        ensures
            r.same_as(*self),
            r@ == self@,
    {
        CursorImage {
            image: self.image.duplicate(),
            hotspot: self.hotspot,
            nominal_size: self.nominal_size,
        }
    }
}

impl CursorFrame {
    /// Whether two frames hold the same images, in the same order, for the
    /// same time.
    pub open spec fn same_as(self, other: CursorFrame) -> bool {
        &&& self.delay == other.delay
        &&& self.same_images(other)
    }

    /// Whether two frames hold the same images in the same order.
    pub open spec fn same_images(self, other: CursorFrame) -> bool {
        &&& self.images@.len() == other.images@.len()
        &&& forall|k: int|
            0 <= k < self.images@.len() ==> (#[trigger] self.images@[k]).same_as(other.images@[k])
    }
}

impl Clone for CursorFrame {
    fn clone(&self) -> (r: CursorFrame)
        ensures
            r.same_as(*self),
            r@ == self@,
    {
        let mut images: Vec<CursorImage> = Vec::new();
        let mut k: usize = 0;
        while k < self.images.len()
            invariant
                k <= self.images@.len(),
                images@.len() == k,
                forall|j: int| 0 <= j < k ==> (#[trigger] images@[j]).same_as(self.images@[j]),
            decreases self.images@.len() - k,
        {
            images.push(self.images[k].clone());
            k += 1;
        }
        assert(image_views(images@) =~= image_views(self.images@));
        CursorFrame { images, delay: self.delay }
    }
}

/// The mathematical content of a [`CursorImage`].
pub struct CursorImageView {
    pub image: ImageView,
    pub hotspot: (u16, u16),
    pub nominal_size: u32,
}

impl View for CursorImage {
    type V = CursorImageView;

    open spec fn view(&self) -> CursorImageView {
        CursorImageView {
            image: self.image@,
            hotspot: self.hotspot,
            nominal_size: self.nominal_size,
        }
    }
}

/// The mathematical content of a [`CursorFrame`].
pub struct CursorFrameView {
    pub images: Seq<CursorImageView>,
    pub delay: u32,
}

impl View for CursorFrame {
    type V = CursorFrameView;

    open spec fn view(&self) -> CursorFrameView {
        CursorFrameView { images: image_views(self.images@), delay: self.delay }
    }
}

/// The views of a list of frames, in order.
pub open spec fn frame_views(frames: Seq<CursorFrame>) -> Seq<CursorFrameView> {
    Seq::new(frames.len(), |k: int| frames[k]@)
}

/// The views of a list of images, in order.
pub open spec fn image_views(images: Seq<CursorImage>) -> Seq<CursorImageView> {
    Seq::new(images.len(), |k: int| images[k]@)
}

/// The type field of a cursor directory.
pub const ICO_TYPE_CUR: u16 = 2;

/// The size of the directory header in bytes.
pub const ICON_DIR_SIZE: usize = 6;

/// The size of one directory entry in bytes.
pub const ICON_DIR_ENTRY_SIZE: usize = 16;

/// The four bytes that open a `.cur` file: a reserved zero word and the
/// type word 2.
pub open spec fn cur_magic() -> Seq<u8> {
    seq![0x00u8, 0x00u8, 0x02u8, 0x00u8]
}

/// The eight bytes that open a PNG file.
pub open spec fn png_signature() -> Seq<u8> {
    seq![0x89u8, 0x50u8, 0x4Eu8, 0x47u8, 0x0Du8, 0x0Au8, 0x1Au8, 0x0Au8]
}

/// One entry of the directory of a `.cur` file.
#[derive(Clone, Copy, Debug)]
pub struct IconDirEntry {
    pub width: u8,
    pub height: u8,
    pub color_count: u8,
    pub reserved: u8,
    pub hotspot_x: u16,
    pub hotspot_y: u16,
    pub size_bytes: u32,
    pub offset: u32,
}

/// Entry `i` of the directory, as its 16 bytes spell it.
pub open spec fn dir_entry_at(data: Seq<u8>, i: int) -> IconDirEntry {
    let at = ICON_DIR_SIZE + ICON_DIR_ENTRY_SIZE * i;
    IconDirEntry {
        width: data[at],
        height: data[at + 1],
        color_count: data[at + 2],
        reserved: data[at + 3],
        hotspot_x: le_u16(data, at + 4) as u16,
        hotspot_y: le_u16(data, at + 6) as u16,
        size_bytes: le_u32(data, at + 8) as u32,
        offset: le_u32(data, at + 12) as u32,
    }
}

impl IconDirEntry {
    /// The nominal size of the entry's image: the larger of its width and
    /// height, where a stored 0 stands for 256.
    pub open spec fn spec_nominal_size(self) -> u32 {
        let w: u32 = if self.width == 0 {
            256
        } else {
            self.width as u32
        };
        let h: u32 = if self.height == 0 {
            256
        } else {
            self.height as u32
        };
        if w >= h {
            w
        } else {
            h
        }
    }

    /// Computes [`IconDirEntry::spec_nominal_size`].
    pub fn nominal_size(&self) -> (n: u32)
        ensures
            n == self.spec_nominal_size(),
            1 <= n <= 256,
    {
        let w: u32 = if self.width == 0 {
            256
        } else {
            self.width as u32
        };
        let h: u32 = if self.height == 0 {
            256
        } else {
            self.height as u32
        };
        if w >= h {
            w
        } else {
            h
        }
    }

    /// Checks the entry: its reserved byte must be 0.
    pub fn validate(&self) -> (r: Result<(), CursorError>)
        ensures
            self.reserved == 0 ==> r is Ok,
            self.reserved != 0 ==> r == Err::<(), CursorError>(CursorError::Format),
    {
        if self.reserved != 0 {
            return Err(CursorError::Format);
        }
        Ok(())
    }

    /// Whether the colour count is the one value that no palette can have:
    /// a single colour. Such an entry is accepted, but worth a warning.
    pub fn has_suspicious_color_count(&self) -> (r: bool)
        ensures
            r == (self.color_count == 1),
    {
        self.color_count != 0 && self.color_count < 2
    }
}

/// The image that a directory entry names.
///
/// The payload must lie inside the file. A payload that opens with the PNG
/// signature is decoded as PNG. Any other payload is an embedded bitmap:
/// it is completed to a bitmap file, decoded, and its transparency mask is
/// applied.
pub open spec fn entry_image(data: Seq<u8>, entry: IconDirEntry) -> Result<
    CursorImageView,
    CursorError,
> {
    let payload = data.subrange(entry.offset as int, entry.offset + entry.size_bytes);
    if entry.offset + entry.size_bytes > data.len() {
        Err(CursorError::Truncated)
    } else if has_bytes_at(payload, 0, png_signature()) {
        match decoded_image(payload, PayloadFormat::Png) {
            None => Err(CursorError::Decode),
            Some(image) => Ok(
                CursorImageView {
                    image,
                    hotspot: (entry.hotspot_x, entry.hotspot_y),
                    nominal_size: entry.spec_nominal_size(),
                },
            ),
        }
    } else {
        match bmp_from_dib(payload) {
            Err(e) => Err(e),
            Ok(bmp) => match decoded_image(bmp, PayloadFormat::Bmp) {
                None => Err(CursorError::Decode),
                Some(decoded) => match and_masked(decoded, payload) {
                    Err(e) => Err(e),
                    Ok(image) => Ok(
                        CursorImageView {
                            image,
                            hotspot: (entry.hotspot_x, entry.hotspot_y),
                            nominal_size: entry.spec_nominal_size(),
                        },
                    ),
                },
            },
        }
    }
}

/// Whether the first `k` directory entries are present and valid: the
/// first entry that is cut short gives `Truncated`, the first one with a
/// non-zero reserved byte gives `Format`.
pub open spec fn directory_prefix(data: Seq<u8>, k: int) -> Result<(), CursorError>
    decreases k,
{
    if k <= 0 {
        Ok(())
    } else {
        match directory_prefix(data, k - 1) {
            Err(e) => Err(e),
            Ok(()) => if ICON_DIR_SIZE + ICON_DIR_ENTRY_SIZE * k > data.len() {
                Err(CursorError::Truncated)
            } else if dir_entry_at(data, k - 1).reserved != 0 {
                Err(CursorError::Format)
            } else {
                Ok(())
            },
        }
    }
}

/// The images of the first `k` directory entries, or the first error.
pub open spec fn images_prefix(data: Seq<u8>, k: int) -> Result<Seq<CursorImageView>, CursorError>
    decreases k,
{
    if k <= 0 {
        Ok(Seq::empty())
    } else {
        match images_prefix(data, k - 1) {
            Err(e) => Err(e),
            Ok(found) => match entry_image(data, dir_entry_at(data, k - 1)) {
                Err(e) => Err(e),
                Ok(img) => Ok(found.push(img)),
            },
        }
    }
}

/// The meaning of a byte buffer as a `.cur` file: the images of its
/// directory, in order.
pub open spec fn parse_cur(data: Seq<u8>) -> Result<Seq<CursorImageView>, CursorError> {
    if !has_bytes_at(data, 0, cur_magic()) {
        Err(CursorError::Format)
    } else if data.len() < ICON_DIR_SIZE {
        Err(CursorError::Truncated)
    } else {
        match directory_prefix(data, le_u16(data, 4)) {
            Err(e) => Err(e),
            Ok(()) => images_prefix(data, le_u16(data, 4)),
        }
    }
}

/// The line that warns of a directory entry that declares a single colour.
pub open spec fn color_warning() -> Seq<char> {
    "Warning: Suspicious color count 1 in cursor entry"@
}

/// The warnings for the first `k` directory entries: one for every entry
/// that declares a single colour, as far as the directory is present and
/// valid.
pub open spec fn color_warnings_prefix(data: Seq<u8>, k: int) -> Seq<Seq<char>>
    decreases k,
{
    if k <= 0 {
        Seq::empty()
    } else if directory_prefix(data, k) is Ok && dir_entry_at(data, k - 1).color_count == 1 {
        color_warnings_prefix(data, k - 1).push(color_warning())
    } else {
        color_warnings_prefix(data, k - 1)
    }
}

/// The warnings that the directory of a `.cur` file deserves; none for a
/// buffer that is no such file.
pub open spec fn color_warnings(data: Seq<u8>) -> Seq<Seq<char>> {
    if !has_bytes_at(data, 0, cur_magic()) || data.len() < ICON_DIR_SIZE {
        Seq::empty()
    } else {
        color_warnings_prefix(data, le_u16(data, 4))
    }
}

/// Behind the first entry that is cut short or invalid there are no more
/// warnings.
pub proof fn lemma_warnings_stop(data: Seq<u8>, k: int, n: int)
    requires
        0 <= k < n,
        directory_prefix(data, k + 1) is Err,
    ensures
        color_warnings_prefix(data, n) == color_warnings_prefix(data, k),
    decreases n - k,
{
    lemma_directory_error(data, k + 1, n);
    if k + 1 < n {
        lemma_warnings_stop(data, k, n - 1);
    }
}

/// An error among the first entries is the error of the whole directory.
pub proof fn lemma_directory_error(data: Seq<u8>, k: int, n: int)
    requires
        0 <= k <= n,
        directory_prefix(data, k) is Err,
    ensures
        directory_prefix(data, n) == directory_prefix(data, k),
    decreases n - k,
{
    if k < n {
        lemma_directory_error(data, k, n - 1);
    }
}

/// An error among the first images is the error of all of them.
pub proof fn lemma_images_error(data: Seq<u8>, k: int, n: int)
    requires
        0 <= k <= n,
        images_prefix(data, k) is Err,
    ensures
        images_prefix(data, n) == images_prefix(data, k),
    decreases n - k,
{
    if k < n {
        lemma_images_error(data, k, n - 1);
    }
}

/// The decoder for static `.cur` files.
pub struct CurParser;

impl CurParser {
    /// Whether `data` opens with the magic of a `.cur` file.
    pub fn can_parse(data: &[u8]) -> (r: bool)
        ensures
            r == has_bytes_at(data@, 0, cur_magic()),
    {
        let pattern: [u8; 4] = [0x00, 0x00, 0x02, 0x00];
        assert(pattern@ =~= cur_magic());
        bytes_at(data, 0, pattern.as_slice())
    }

    /// The warnings that the directory of a `.cur` file deserves: one line
    /// for every valid entry that declares a single colour, which no
    /// palette can have. Such a file is still decoded.
    pub fn color_warnings(data: &[u8]) -> (lines: Vec<String>)
        ensures
            lines.deep_view() == color_warnings(data@),
    {
        let mut lines: Vec<String> = Vec::new();
        assert(lines.deep_view() =~= Seq::<Seq<char>>::empty());
        if !Self::can_parse(data) || data.len() < ICON_DIR_SIZE {
            return lines;
        }
        let image_count = read_u16_le(data, 4);
        let mut i: u16 = 0;
        while i < image_count
            invariant
                i <= image_count,
                ICON_DIR_SIZE <= data@.len() <= usize::MAX,
                has_bytes_at(data@, 0, cur_magic()),
                image_count == le_u16(data@, 4),
                directory_prefix(data@, i as int) is Ok,
                lines.deep_view() == color_warnings_prefix(data@, i as int),
            decreases image_count - i,
        {
            match Self::read_dir_entry(data, i) {
                None => {
                    proof {
                        assert(directory_prefix(data@, i + 1) is Err);
                        lemma_warnings_stop(data@, i as int, image_count as int);
                    }
                    return lines;
                },
                Some(entry) => {
                    if entry.validate().is_err() {
                        proof {
                            assert(directory_prefix(data@, i + 1) is Err);
                            lemma_warnings_stop(data@, i as int, image_count as int);
                        }
                        return lines;
                    }
                    assert(directory_prefix(data@, i + 1) is Ok);
                    if entry.has_suspicious_color_count() {
                        let ghost before = lines.deep_view();
                        lines.push("Warning: Suspicious color count 1 in cursor entry".to_owned());
                        assert(lines.deep_view() =~= before.push(color_warning()));
                    }
                },
            }
            i += 1;
        }
        lines
    }

    /// Decodes a `.cur` file into a single frame that holds every image of
    /// its directory, with delay 0.
    ///
    /// The images are exactly those that [`parse_cur`] names; every error
    /// is the one that [`parse_cur`] names.
    pub fn parse(data: &[u8]) -> (r: Result<Vec<CursorFrame>, CursorError>)
        ensures
            match parse_cur(data@) {
                Ok(images) => {
                    &&& r is Ok
                    &&& r->Ok_0@.len() == 1
                    &&& r->Ok_0@[0].delay == 0
                    &&& image_views(r->Ok_0@[0].images@) == images
                },
                Err(e) => r is Err && r->Err_0 == e,
            },
    {
        if !Self::can_parse(data) {
            return Err(CursorError::Format);
        }
        if data.len() < ICON_DIR_SIZE {
            return Err(CursorError::Truncated);
        }
        let image_count = read_u16_le(data, 4);
        let mut entries: Vec<IconDirEntry> = Vec::new();
        let mut i: u16 = 0;
        while i < image_count
            invariant
                i <= image_count,
                ICON_DIR_SIZE <= data@.len() <= usize::MAX,
                has_bytes_at(data@, 0, cur_magic()),
                image_count == le_u16(data@, 4),
                directory_prefix(data@, i as int) is Ok,
                entries@.len() == i,
                forall|k: int| 0 <= k < i ==> entries@[k] == dir_entry_at(data@, k),
            decreases image_count - i,
        {
            match Self::read_dir_entry(data, i) {
                None => {
                    proof {
                        lemma_directory_error(data@, i + 1, image_count as int);
                    }
                    return Err(CursorError::Truncated);
                },
                Some(entry) => {
                    match entry.validate() {
                        Ok(()) => {},
                        Err(e) => {
                            proof {
                                lemma_directory_error(data@, i + 1, image_count as int);
                            }
                            return Err(e);
                        },
                    }
                    entries.push(entry);
                },
            }
            i += 1;
        }
        let mut cursor_images: Vec<CursorImage> = Vec::new();
        let mut j: usize = 0;
        assert(image_views(cursor_images@) =~= Seq::empty());
        while j < entries.len()
            invariant
                j <= entries@.len(),
                entries@.len() == image_count,
                forall|k: int| 0 <= k < entries@.len() ==> entries@[k] == dir_entry_at(data@, k),
                parse_cur(data@) == images_prefix(data@, image_count as int),
                images_prefix(data@, j as int) == Ok::<Seq<CursorImageView>, CursorError>(
                    image_views(cursor_images@),
                ),
            decreases entries@.len() - j,
        {
            match Self::parse_image(data, &entries[j]) {
                Err(e) => {
                    proof {
                        lemma_images_error(data@, j + 1, image_count as int);
                    }
                    return Err(e);
                },
                Ok(image) => {
                    let ghost before = image_views(cursor_images@);
                    cursor_images.push(image);
                    assert(image_views(cursor_images@) =~= before.push(image@));
                },
            }
            j += 1;
        }
        let mut frames: Vec<CursorFrame> = Vec::new();
        frames.push(CursorFrame { images: cursor_images, delay: 0 });
        Ok(frames)
    }

    /// Reads entry `i` of the directory, or `None` where the file ends
    /// before the end of the entry.
    fn read_dir_entry(data: &[u8], i: u16) -> (r: Option<IconDirEntry>)
        ensures
            r is Some <==> ICON_DIR_SIZE + ICON_DIR_ENTRY_SIZE * (i + 1) <= data@.len(),
            r matches Some(entry) ==> entry == dir_entry_at(data@, i as int),
    {
        let at: usize = ICON_DIR_SIZE + ICON_DIR_ENTRY_SIZE * (i as usize);
        if data.len() < ICON_DIR_ENTRY_SIZE || at > data.len() - ICON_DIR_ENTRY_SIZE {
            return None;
        }
        Some(
            IconDirEntry {
                width: data[at],
                height: data[at + 1],
                color_count: data[at + 2],
                reserved: data[at + 3],
                hotspot_x: read_u16_le(data, at + 4),
                hotspot_y: read_u16_le(data, at + 6),
                size_bytes: read_u32_le(data, at + 8),
                offset: read_u32_le(data, at + 12),
            },
        )
    }

    /// Decodes the image that `entry` names.
    fn parse_image(data: &[u8], entry: &IconDirEntry) -> (r: Result<CursorImage, CursorError>)
        ensures
            match entry_image(data@, *entry) {
                Ok(img) => r is Ok && r->Ok_0@ == img,
                Err(e) => r is Err && r->Err_0 == e,
            },
    {
        let end: u64 = entry.offset as u64 + entry.size_bytes as u64;
        if end > data.len() as u64 {
            return Err(CursorError::Truncated);
        }
        let image_data = vstd::slice::slice_subrange(
            data,
            entry.offset as usize,
            end as usize,
        );
        let signature: [u8; 8] = [0x89, 0x50, 0x4E, 0x47, 0x0D, 0x0A, 0x1A, 0x0A];
        assert(signature@ =~= png_signature());
        let rgba = if bytes_at(image_data, 0, signature.as_slice()) {
            match decode_image(image_data, PayloadFormat::Png) {
                Some(img) => img,
                None => {
                    return Err(CursorError::Decode);
                },
            }
        } else {
            let bmp_data = match create_bmp_from_dib(image_data) {
                Ok(b) => b,
                Err(e) => {
                    return Err(e);
                },
            };
            let mut img = match decode_image(bmp_data.as_slice(), PayloadFormat::Bmp) {
                Some(img) => img,
                None => {
                    return Err(CursorError::Decode);
                },
            };
            match apply_and_mask(&mut img, image_data) {
                Ok(()) => {},
                Err(e) => {
                    return Err(e);
                },
            }
            img
        };
        Ok(
            CursorImage {
                image: rgba,
                hotspot: (entry.hotspot_x, entry.hotspot_y),
                nominal_size: entry.nominal_size(),
            },
        )
    }
}

} // verus!
