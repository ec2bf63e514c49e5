//! Deserialisation of the binary Xcursor container.

use crate::bytes::{bytes_at, has_bytes_at, le_u32, read_u32_le};
use crate::error::CursorError;
use crate::pipeline::raster::RgbaImage;
use crate::pipeline::xcursor_format::{
    magic, straight_byte, straight_rgba, unpremultiply, ImageRecord, CHUNK_IMAGE,
    FILE_HEADER_SIZE, FILE_VERSION, IMAGE_HEADER_SIZE, IMAGE_VERSION,
};
use vstd::prelude::*;

verus! {

/// One image of an Xcursor file, with straight-alpha RGBA pixels.
#[derive(Debug)]
pub struct XcursorImage {
    pub size: u32,
    pub width: u32,
    pub height: u32,
    pub xhot: u32,
    pub yhot: u32,
    pub delay: u32,
    pub pixels: RgbaImage,
}

/// The images of an Xcursor file, in the order of its table of contents.
#[derive(Debug)]
pub struct XcursorFile {
    pub images: Vec<XcursorImage>,
}

/// What reading one image chunk gives.
pub enum ChunkOutcome {
    /// The chunk at the position is not an image; it is passed over.
    Skipped,
    /// The decoded image.
    Image(ImageRecord),
    /// The chunk is malformed or cut short.
    Failed(CursorError),
}

/// Reads the image chunk at `pos`. The nominal size comes from the table of
/// contents. A chunk of another type is passed over; a wrong header size or
/// version is a format error; a chunk that reaches past the end of the
/// buffer is truncated. The pixels are converted to straight RGBA.
#[verifier::opaque]
pub open spec fn read_image_chunk(b: Seq<u8>, size: u32, pos: int) -> ChunkOutcome {
    if pos + 12 > b.len() {
        ChunkOutcome::Failed(CursorError::Truncated)
    } else if le_u32(b, pos + 4) != CHUNK_IMAGE {
        ChunkOutcome::Skipped
    } else if le_u32(b, pos) != IMAGE_HEADER_SIZE {
        ChunkOutcome::Failed(CursorError::Format)
    } else if pos + 16 > b.len() {
        ChunkOutcome::Failed(CursorError::Truncated)
    } else if le_u32(b, pos + 12) != IMAGE_VERSION {
        ChunkOutcome::Failed(CursorError::Format)
    } else if pos + 36 > b.len() {
        ChunkOutcome::Failed(CursorError::Truncated)
    } else {
        let width = le_u32(b, pos + 16);
        let height = le_u32(b, pos + 20);
        if pos + 36 + 4 * (width * height) > b.len() {
            ChunkOutcome::Failed(CursorError::Truncated)
        } else {
            ChunkOutcome::Image(
                ImageRecord {
                    nominal: size,
                    width: width as u32,
                    height: height as u32,
                    xhot: le_u32(b, pos + 24) as u32,
                    yhot: le_u32(b, pos + 28) as u32,
                    delay: le_u32(b, pos + 32) as u32,
                    pixels: straight_rgba(
                        b.subrange(pos + 36, pos + 36 + 4 * (width * height)),
                    ),
                },
            )
        }
    }
}

/// The images found so far, extended by what entry `k` of the table of
/// contents names: nothing for an entry or a chunk of another type, its
/// image, or the error met in its chunk.
#[verifier::opaque]
pub open spec fn entry_step(b: Seq<u8>, found: Seq<ImageRecord>, k: int) -> Result<
    Seq<ImageRecord>,
    CursorError,
> {
    let entry = FILE_HEADER_SIZE + 12 * k;
    if le_u32(b, entry) != CHUNK_IMAGE {
        Ok(found)
    } else {
        match read_image_chunk(b, le_u32(b, entry + 4) as u32, le_u32(b, entry + 8)) {
            ChunkOutcome::Skipped => Ok(found),
            ChunkOutcome::Image(img) => Ok(found.push(img)),
            ChunkOutcome::Failed(e) => Err(e),
        }
    }
}

/// The images found by following the first `k` entries of the table of
/// contents, or the first error met on the way.
pub open spec fn parse_entries(b: Seq<u8>, k: int) -> Result<Seq<ImageRecord>, CursorError>
    decreases k,
{
    if k <= 0 {
        Ok(Seq::empty())
    } else {
        match parse_entries(b, k - 1) {
            Err(e) => Err(e),
            Ok(found) => entry_step(b, found, k - 1),
        }
    }
}

/// The meaning of a byte buffer as an Xcursor file.
///
/// A wrong magic, header size or version is a format error, a buffer that
/// ends inside the header, the table of contents or a chunk is truncated,
/// and a file without any image is empty.
pub open spec fn parse_xcursor(b: Seq<u8>) -> Result<Seq<ImageRecord>, CursorError> {
    if b.len() < 4 {
        Err(CursorError::Truncated)
    } else if !has_bytes_at(b, 0, magic()) {
        Err(CursorError::Format)
    } else if b.len() < 8 {
        Err(CursorError::Truncated)
    } else if le_u32(b, 4) != FILE_HEADER_SIZE {
        Err(CursorError::Format)
    } else if b.len() < 12 {
        Err(CursorError::Truncated)
    } else if le_u32(b, 8) != FILE_VERSION {
        Err(CursorError::Format)
    } else if b.len() < 16 {
        Err(CursorError::Truncated)
    } else if FILE_HEADER_SIZE + 12 * le_u32(b, 12) > b.len() {
        Err(CursorError::Truncated)
    } else {
        at_least_one(parse_entries(b, le_u32(b, 12)))
    }
}

/// A file without any image is rejected as empty.
pub open spec fn at_least_one(r: Result<Seq<ImageRecord>, CursorError>) -> Result<
    Seq<ImageRecord>,
    CursorError,
> {
    match r {
        Err(e) => Err(e),
        Ok(found) => if found.len() == 0 {
            Err(CursorError::Empty)
        } else {
            Ok(found)
        },
    }
}

impl XcursorImage {
    /// The header fields and pixels of the image.
    pub open spec fn record(self) -> ImageRecord {
        ImageRecord {
            nominal: self.size,
            width: self.width,
            height: self.height,
            xhot: self.xhot,
            yhot: self.yhot,
            delay: self.delay,
            pixels: self.pixels@.pixels,
        }
    }

    /// The pixel buffer has the dimensions that the header fields give.
    pub open spec fn wf(self) -> bool {
        &&& self.pixels@.width == self.width
        &&& self.pixels@.height == self.height
        &&& self.pixels@.wf()
    }
}

/// Converts the premultiplied BGRA pixels that stand in `data` from `start`
/// on into a straight RGBA image.
fn read_pixels(data: &[u8], start: usize, width: u32, height: u32) -> (img: RgbaImage)
    requires
        start + 4 * (width * height) <= data@.len(),
    ensures
        img@.width == width,
        img@.height == height,
        img@.wf(),
        img@.pixels == straight_rgba(
            data@.subrange(start as int, start + 4 * (width * height)),
        ),
{
    assert(0 <= width * height) by (nonlinear_arith);
    assert(data@.len() == data.len());
    let count: usize = (width as usize) * (height as usize);
    let ghost src = data@.subrange(start as int, start + 4 * count);
    let mut out: Vec<u8> = Vec::new();
    let mut p: usize = 0;
    while p < count
        invariant
            p <= count,
            start + 4 * count <= data@.len() == data.len(),
            src == data@.subrange(start as int, start + 4 * count),
            out@.len() == 4 * p,
            forall|i: int| 0 <= i < 4 * p ==> out@[i] == straight_byte(src, i),
        decreases count - p,
    {
        let at: usize = start + 4 * p;
        let b = data[at];
        let g = data[at + 1];
        let r = data[at + 2];
        let a = data[at + 3];
        assert(src[4 * p] == b && src[4 * p + 1] == g && src[4 * p + 2] == r && src[4 * p + 3]
            == a);
        out.push(unpremultiply(r, a));
        out.push(unpremultiply(g, a));
        out.push(unpremultiply(b, a));
        out.push(a);
        p += 1;
    }
    assert(out@ =~= straight_rgba(src));
    RgbaImage::from_raw(width, height, out).unwrap()
}

/// What [`read_chunk`] hands back: an image, nothing, or an error.
enum ChunkRead {
    Skipped,
    Image(XcursorImage),
    Failed(CursorError),
}

impl ChunkRead {
    spec fn outcome(self) -> ChunkOutcome {
        match self {
            ChunkRead::Skipped => ChunkOutcome::Skipped,
            ChunkRead::Image(img) => ChunkOutcome::Image(img.record()),
            ChunkRead::Failed(e) => ChunkOutcome::Failed(e),
        }
    }
}

/// Reads the image chunk at `pos`.
fn read_chunk(data: &[u8], size: u32, pos: u32) -> (r: ChunkRead)
    ensures
        r.outcome() == read_image_chunk(data@, size, pos as int),
        r matches ChunkRead::Image(img) ==> img.wf(),
{
    reveal(read_image_chunk);
    let len = data.len();
    let pos = pos as usize;
    if len < 12 || pos > len - 12 {
        return ChunkRead::Failed(CursorError::Truncated);
    }
    let chunk_header = read_u32_le(data, pos);
    let chunk_type = read_u32_le(data, pos + 4);
    if chunk_type != CHUNK_IMAGE {
        return ChunkRead::Skipped;
    }
    if chunk_header != IMAGE_HEADER_SIZE {
        return ChunkRead::Failed(CursorError::Format);
    }
    if len < 16 || pos > len - 16 {
        return ChunkRead::Failed(CursorError::Truncated);
    }
    let version = read_u32_le(data, pos + 12);
    if version != IMAGE_VERSION {
        return ChunkRead::Failed(CursorError::Format);
    }
    if len < 36 || pos > len - 36 {
        return ChunkRead::Failed(CursorError::Truncated);
    }
    let width = read_u32_le(data, pos + 16);
    let height = read_u32_le(data, pos + 20);
    let xhot = read_u32_le(data, pos + 24);
    let yhot = read_u32_le(data, pos + 28);
    let delay = read_u32_le(data, pos + 32);
    assert(0 <= width * height <= 0xffff_ffff * 0xffff_ffff) by (nonlinear_arith)
        requires
            0 <= width <= 0xffff_ffff,
            0 <= height <= 0xffff_ffff,
    ;
    let need: u128 = 4 * ((width as u128) * (height as u128));
    if need > (len - pos - 36) as u128 {
        return ChunkRead::Failed(CursorError::Truncated);
    }
    let pixels = read_pixels(data, pos + 36, width, height);
    ChunkRead::Image(XcursorImage { size, width, height, xhot, yhot, delay, pixels })
}

/// The records of a list of images, in order.
pub open spec fn records_of(images: Seq<XcursorImage>) -> Seq<ImageRecord> {
    Seq::new(images.len(), |k: int| images[k].record())
}

/// Follows entry `k` of the table of contents and appends its image, if it
/// names one.
fn read_entry(data: &[u8], k: u32, images: &mut Vec<XcursorImage>) -> (r: Result<
    (),
    CursorError,
>)
    requires
        16 + 12 * (k + 1) <= data@.len(),
        forall|j: int| 0 <= j < old(images)@.len() ==> (#[trigger] old(images)@[j]).wf(),
    ensures
        match entry_step(data@, records_of(old(images)@), k as int) {
            Ok(found) => r is Ok && records_of(final(images)@) == found,
            Err(e) => r == Err::<(), CursorError>(e),
        },
        forall|j: int| 0 <= j < final(images)@.len() ==> (#[trigger] final(images)@[j]).wf(),
{
    reveal(entry_step);
    assert(data@.len() == data.len());
    let entry: usize = 16 + 12 * (k as usize);
    let chunk_type = read_u32_le(data, entry);
    if chunk_type != CHUNK_IMAGE {
        return Ok(());
    }
    let size = read_u32_le(data, entry + 4);
    let position = read_u32_le(data, entry + 8);
    match read_chunk(data, size, position) {
        ChunkRead::Skipped => Ok(()),
        ChunkRead::Image(img) => {
            images.push(img);
            assert(records_of(images@) =~= records_of(old(images)@).push(img.record()));
            Ok(())
        },
        ChunkRead::Failed(e) => Err(e),
    }
}

impl XcursorFile {
    /// The records of the images, in order.
    pub open spec fn records(self) -> Seq<ImageRecord> {
        records_of(self.images@)
    }

    /// Every image's pixel buffer agrees with its header fields.
    pub open spec fn wf(self) -> bool {
        forall|k: int| 0 <= k < self.images@.len() ==> (#[trigger] self.images@[k]).wf()
    }

    /// The nominal sizes that occur in the file, in ascending order, each
    /// once.
    pub fn get_sizes(&self) -> (sizes: Vec<u32>)
        ensures
            is_size_list(nominal_sizes(self.images@), sizes@),
    {
        let ghost nominal = nominal_sizes(self.images@);
        let mut sizes: Vec<u32> = Vec::new();
        let mut k: usize = 0;
        while k < self.images.len()
            invariant
                k <= self.images@.len(),
                nominal == nominal_sizes(self.images@),
                strictly_increasing(sizes@),
                forall|v: u32| sizes@.contains(v) <==> has_size_before(nominal, v, k as int),
            decreases self.images@.len() - k,
        {
            let size = self.images[k].size;
            let ghost before = sizes@;
            insert_sorted(&mut sizes, size);
            assert forall|v: u32| sizes@.contains(v) <==> has_size_before(nominal, v, k + 1) by {
                if has_size_before(nominal, v, k + 1) {
                    let j = choose|j: int| 0 <= j < k + 1 && #[trigger] nominal[j] == v;
                    if j < k {
                        assert(has_size_before(nominal, v, k as int));
                    }
                }
                if before.contains(v) {
                    let j = choose|j: int| 0 <= j < k && #[trigger] nominal[j] == v;
                    assert(0 <= j < k + 1);
                }
                if v == size {
                    assert(nominal[k as int] == v);
                }
            }
            k += 1;
        }
        sizes
    }

    /// The images of nominal size `size`, in file order.
    pub fn get_images_for_size(&self, size: u32) -> (found: Vec<&XcursorImage>)
        ensures
            found@.len() == indices_of_size(
                nominal_sizes(self.images@),
                size,
                self.images@.len() as int,
            ).len(),
            forall|j: int|
                0 <= j < found@.len() ==> *(#[trigger] found@[j]) == self.images@[indices_of_size(
                    nominal_sizes(self.images@),
                    size,
                    self.images@.len() as int,
                )[j]],
    {
        let ghost nominal = nominal_sizes(self.images@);
        let mut found: Vec<&XcursorImage> = Vec::new();
        let mut k: usize = 0;
        while k < self.images.len()
            invariant
                k <= self.images@.len(),
                nominal == nominal_sizes(self.images@),
                found@.len() == indices_of_size(nominal, size, k as int).len(),
                forall|j: int|
                    0 <= j < found@.len() ==> *(#[trigger] found@[j])
                        == self.images@[indices_of_size(nominal, size, k as int)[j]],
            decreases self.images@.len() - k,
        {
            if self.images[k].size == size {
                found.push(&self.images[k]);
            }
            k += 1;
        }
        found
    }

    /// Decodes an Xcursor file.
    ///
    /// The result is exactly what [`parse_xcursor`] says of the bytes: the
    /// images in table-of-contents order, or the error that it names.
    pub fn from_bytes(data: &[u8]) -> (r: Result<XcursorFile, CursorError>)
        ensures
            match parse_xcursor(data@) {
                Ok(found) => r is Ok && r->Ok_0.records() == found && r->Ok_0.wf(),
                Err(e) => r is Err && r->Err_0 == e,
            },
    {
        let len = data.len();
        if len < 4 {
            return Err(CursorError::Truncated);
        }
        let pattern: [u8; 4] = [0x58, 0x63, 0x75, 0x72];
        assert(pattern@ =~= magic());
        if !bytes_at(data, 0, pattern.as_slice()) {
            return Err(CursorError::Format);
        }
        if len < 8 {
            return Err(CursorError::Truncated);
        }
        let header_size = read_u32_le(data, 4);
        if header_size != FILE_HEADER_SIZE {
            return Err(CursorError::Format);
        }
        if len < 12 {
            return Err(CursorError::Truncated);
        }
        let version = read_u32_le(data, 8);
        if version != FILE_VERSION {
            return Err(CursorError::Format);
        }
        if len < 16 {
            return Err(CursorError::Truncated);
        }
        let ntoc = read_u32_le(data, 12);
        if 12 * (ntoc as u64) > (len - 16) as u64 {
            return Err(CursorError::Truncated);
        }
        let mut images: Vec<XcursorImage> = Vec::new();
        let mut k: u32 = 0;
        assert(records_of(images@) =~= Seq::empty());
        while k < ntoc
            invariant
                k <= ntoc,
                16 + 12 * ntoc <= data@.len() <= usize::MAX,
                parse_xcursor(data@) == at_least_one(parse_entries(data@, ntoc as int)),
                parse_entries(data@, k as int) == Ok::<Seq<ImageRecord>, CursorError>(
                    records_of(images@),
                ),
                forall|j: int| 0 <= j < images@.len() ==> (#[trigger] images@[j]).wf(),
            decreases ntoc - k,
        {
            match read_entry(data, k, &mut images) {
                Ok(()) => {},
                Err(e) => {
                    proof {
                        lemma_entries_error(data@, k + 1, ntoc as int);
                    }
                    return Err(e);
                },
            }
            k += 1;
        }
        if images.len() == 0 {
            return Err(CursorError::Empty);
        }
        let file = XcursorFile { images };
        Ok(file)
    }
}

/// Once an entry has failed, the whole table of contents fails with the
/// same error.
pub proof fn lemma_entries_error(b: Seq<u8>, k: int, n: int)
    requires
        0 <= k <= n,
        parse_entries(b, k) is Err,
    ensures
        parse_entries(b, n) == parse_entries(b, k),
    decreases n - k,
{
    if k < n {
        lemma_entries_error(b, k, n - 1);
    }
}

/// Whether one of the first `k` images has the nominal size `v`.
pub open spec fn has_size_before(nominal: Seq<u32>, v: u32, k: int) -> bool {
    exists|j: int| 0 <= j < k && #[trigger] nominal[j] == v
}

/// The nominal sizes of a list of images, in file order.
pub open spec fn nominal_sizes(images: Seq<XcursorImage>) -> Seq<u32> {
    Seq::new(images.len(), |k: int| images[k].size)
}

/// Whether a list of sizes grows strictly.
pub open spec fn strictly_increasing(sizes: Seq<u32>) -> bool {
    forall|a: int, b: int| 0 <= a < b < sizes.len() ==> sizes[a] < sizes[b]
}

/// Whether `sizes` lists the sizes that occur in `nominal`: in ascending
/// order, each once, and no others.
pub open spec fn is_size_list(nominal: Seq<u32>, sizes: Seq<u32>) -> bool {
    &&& strictly_increasing(sizes)
    &&& forall|v: u32| sizes.contains(v) <==> has_size_before(nominal, v, nominal.len() as int)
}

/// Two strictly increasing lists that hold the same values are one list.
pub proof fn lemma_increasing_lists_equal(a: Seq<u32>, b: Seq<u32>)
    requires
        strictly_increasing(a),
        strictly_increasing(b),
        forall|v: u32| a.contains(v) <==> b.contains(v),
    ensures
        a == b,
    decreases a.len(),
{
    if a.len() == 0 {
        if b.len() > 0 {
            assert(b.contains(b[0]));
        }
        assert(a =~= b);
    } else {
        let top = a.last();
        assert(a.contains(top));
        assert(b.contains(top));
        let at = choose|i: int| 0 <= i < b.len() && b[i] == top;
        if at < b.len() - 1 {
            assert(b.contains(b.last()));
            let back = choose|i: int| 0 <= i < a.len() && a[i] == b.last();
            assert(a[back] <= top);
        }
        let front_a = a.drop_last();
        let front_b = b.drop_last();
        assert forall|v: u32| front_a.contains(v) <==> front_b.contains(v) by {
            if front_a.contains(v) {
                let i = choose|i: int| 0 <= i < front_a.len() && front_a[i] == v;
                assert(a[i] == v);
                assert(a.contains(v));
                let j = choose|j: int| 0 <= j < b.len() && b[j] == v;
                assert(front_b[j] == v);
            }
            if front_b.contains(v) {
                let j = choose|j: int| 0 <= j < front_b.len() && front_b[j] == v;
                assert(b[j] == v);
                assert(b.contains(v));
                let i = choose|i: int| 0 <= i < a.len() && a[i] == v;
                assert(front_a[i] == v);
            }
        }
        lemma_increasing_lists_equal(front_a, front_b);
        assert(a =~= front_a.push(top));
        assert(b =~= front_b.push(top));
    }
}

/// The list of sizes of a file is determined by its images: two lists that
/// both qualify are equal.
pub proof fn lemma_size_list_unique(nominal: Seq<u32>, a: Seq<u32>, b: Seq<u32>)
    requires
        is_size_list(nominal, a),
        is_size_list(nominal, b),
    ensures
        a == b,
{
    lemma_increasing_lists_equal(a, b);
}

/// The indices, among the first `k` images, of those of nominal size
/// `size`, in ascending order.
pub open spec fn indices_of_size(nominal: Seq<u32>, size: u32, k: int) -> Seq<int>
    decreases k,
{
    if k <= 0 {
        Seq::empty()
    } else if nominal[k - 1] == size {
        indices_of_size(nominal, size, k - 1).push(k - 1)
    } else {
        indices_of_size(nominal, size, k - 1)
    }
}

/// Inserts a size into a strictly increasing list, unless it is there.
pub fn insert_sorted(sizes: &mut Vec<u32>, v: u32)
    requires
        strictly_increasing(old(sizes)@),
    ensures
        strictly_increasing(final(sizes)@),
        forall|w: u32| final(sizes)@.contains(w) <==> (old(sizes)@.contains(w) || w == v),
{
    let mut p: usize = 0;
    while p < sizes.len() && sizes[p] < v
        invariant
            p <= sizes@.len(),
            sizes@ == old(sizes)@,
            forall|j: int| 0 <= j < p ==> sizes@[j] < v,
        decreases sizes@.len() - p,
    {
        p += 1;
    }
    if p < sizes.len() && sizes[p] == v {
        assert(sizes@.contains(v));
        return ;
    }
    sizes.insert(p, v);
    let ghost before = old(sizes)@;
    assert(sizes@ == before.insert(p as int, v));
    assert forall|a: int, b: int| 0 <= a < b < sizes@.len() implies sizes@[a] < sizes@[b] by {
        if a < p && b > p {
            assert(sizes@[a] == before[a]);
            assert(sizes@[b] == before[b - 1]);
        } else if a < p && b < p {
            assert(sizes@[a] == before[a] && sizes@[b] == before[b]);
        } else if a == p {
            assert(sizes@[b] == before[b - 1]);
            assert(before[p as int] <= before[b - 1]);
        } else if b == p {
        } else {
            assert(sizes@[a] == before[a - 1] && sizes@[b] == before[b - 1]);
        }
    }
    let ghost after = sizes@;
    assert forall|w: u32| after.contains(w) implies before.contains(w) || w == v by {
        let j = choose|j: int| 0 <= j < after.len() && after[j] == w;
        if j < p {
            assert(before[j] == w);
        } else if j > p {
            assert(before[j - 1] == w);
        }
    }
    assert forall|w: u32| before.contains(w) || w == v implies after.contains(w) by {
        if before.contains(w) {
            let j = choose|j: int| 0 <= j < before.len() && before[j] == w;
            if j < p {
                assert(after[j] == w);
            } else {
                assert(after[j + 1] == w);
            }
        } else {
            assert(after[p as int] == w);
        }
    }
}

} // verus!
