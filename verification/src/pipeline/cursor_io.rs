//! The loading of cursors for the interactive layer: which files of a
//! directory are cursors, and how a decoded cursor is summarised by size.

use crate::pipeline::cursor_types::{
    frame_list, variant_list, CursorMeta, Frame, FrameView, SizeVariant, VariantView,
};
use crate::pipeline::win2xcur::converter::{decode_windows_cursor, decoded_frames};
use crate::pipeline::win2xcur::cur::{frame_views, CursorFrame, CursorFrameView};
use crate::pipeline::win2xcur::{detected_format, CursorFormat};
use crate::pipeline::xcur2png::xcursor_reader::{
    has_size_before, indices_of_size, insert_sorted, is_size_list, strictly_increasing,
};
use crate::pipeline_worker::{cursor_extension, is_cursor_extension};
use crate::text::{
    lines, line_spans, parse_u16, parse_u32, parse_unsigned, parts_of, push_str, slice_of,
    slice_string, to_chars, trim, trimmed, word_spans, words,
};
use vstd::prelude::*;

verus! {

/// The facts about one image of an X11 cursor that a summary needs.
#[derive(Clone, Copy, Debug)]
pub struct ImageInfo {
    pub size: u32,
    pub xhot: u32,
    pub yhot: u32,
    pub delay: u32,
}

/// What the `xcursor` crate parses from the bytes of an X11 cursor file:
/// for every image its nominal size, hotspot and delay, in file order, or
/// `None` where it rejects the file.
pub uninterp spec fn xcursor_images(content: Seq<u8>) -> Option<Seq<ImageInfo>>;

/// `xcursor::parser::parse_xcursor`: the images of an X11 cursor file,
/// each reduced to its nominal size, hotspot and delay.
#[verifier::external_body]
pub(crate) fn parse_xcursor_images(content: &[u8]) -> (r: Option<Vec<ImageInfo>>)
    ensures
        r is Some <==> xcursor_images(content@) is Some,
        r matches Some(images) ==> xcursor_images(content@) == Some(images@),
{
    let images = xcursor::parser::parse_xcursor(content)?;
    Some(
        images.iter().map(
            |image| ImageInfo {
                size: image.size,
                xhot: image.xhot,
                yhot: image.yhot,
                delay: image.delay,
            },
        ).collect(),
    )
}

/// What kind of cursor a file holds.
#[derive(Clone, Copy, Debug, PartialEq, Eq, Structural)]
pub enum CursorFileKind {
    /// A Windows cursor, static or animated.
    Windows,
    /// An X11 cursor.
    Xcursor,
    /// No cursor.
    Other,
}

/// The four bytes that open an X11 cursor file.
pub open spec fn xcursor_magic() -> Seq<u8> {
    seq![0x58u8, 0x63u8, 0x75u8, 0x72u8]
}

/// Whether a file extension rules out a cursor: `txt`, `md`, `conf`,
/// `theme`, `png` and `svg`, in any mix of upper and lower case.
pub open spec fn foreign_extension(extension: Seq<char>) -> bool {
    ||| same_letters(extension, "txt"@)
    ||| same_letters(extension, "md"@)
    ||| same_letters(extension, "conf"@)
    ||| same_letters(extension, "theme"@)
    ||| same_letters(extension, "png"@)
    ||| same_letters(extension, "svg"@)
}

/// The lower-case form of an upper-case ASCII letter; any other character
/// stays.
pub open spec fn lowered(c: char) -> char {
    if c == 'A' {
        'a'
    } else if c == 'B' {
        'b'
    } else if c == 'C' {
        'c'
    } else if c == 'D' {
        'd'
    } else if c == 'E' {
        'e'
    } else if c == 'F' {
        'f'
    } else if c == 'G' {
        'g'
    } else if c == 'H' {
        'h'
    } else if c == 'I' {
        'i'
    } else if c == 'J' {
        'j'
    } else if c == 'K' {
        'k'
    } else if c == 'L' {
        'l'
    } else if c == 'M' {
        'm'
    } else if c == 'N' {
        'n'
    } else if c == 'O' {
        'o'
    } else if c == 'P' {
        'p'
    } else if c == 'Q' {
        'q'
    } else if c == 'R' {
        'r'
    } else if c == 'S' {
        's'
    } else if c == 'T' {
        't'
    } else if c == 'U' {
        'u'
    } else if c == 'V' {
        'v'
    } else if c == 'W' {
        'w'
    } else if c == 'X' {
        'x'
    } else if c == 'Y' {
        'y'
    } else if c == 'Z' {
        'z'
    } else {
        c
    }
}

/// Whether a text spells a lower-case word when its ASCII letters are
/// lowered.
pub open spec fn same_letters(text: Seq<char>, word: Seq<char>) -> bool {
    &&& text.len() == word.len()
    &&& forall|i: int| 0 <= i < text.len() ==> lowered(#[trigger] text[i]) == word[i]
}

/// Computes [`lowered`].
pub fn lower(c: char) -> (r: char)
    ensures
        r == lowered(c),
{
    if c == 'A' {
        'a'
    } else if c == 'B' {
        'b'
    } else if c == 'C' {
        'c'
    } else if c == 'D' {
        'd'
    } else if c == 'E' {
        'e'
    } else if c == 'F' {
        'f'
    } else if c == 'G' {
        'g'
    } else if c == 'H' {
        'h'
    } else if c == 'I' {
        'i'
    } else if c == 'J' {
        'j'
    } else if c == 'K' {
        'k'
    } else if c == 'L' {
        'l'
    } else if c == 'M' {
        'm'
    } else if c == 'N' {
        'n'
    } else if c == 'O' {
        'o'
    } else if c == 'P' {
        'p'
    } else if c == 'Q' {
        'q'
    } else if c == 'R' {
        'r'
    } else if c == 'S' {
        's'
    } else if c == 'T' {
        't'
    } else if c == 'U' {
        'u'
    } else if c == 'V' {
        'v'
    } else if c == 'W' {
        'w'
    } else if c == 'X' {
        'x'
    } else if c == 'Y' {
        'y'
    } else if c == 'Z' {
        'z'
    } else {
        c
    }
}

/// Tests whether a text spells a lower-case word, whatever its case.
pub fn spells(text: &Vec<char>, word: &str) -> (r: bool)
    ensures
        r == same_letters(text@, word@),
{
    let letters = to_chars(word);
    if text.len() != letters.len() {
        return false;
    }
    let mut i: usize = 0;
    while i < text.len()
        invariant
            i <= text@.len(),
            text@.len() == letters@.len(),
            letters@ == word@,
            forall|k: int| 0 <= k < i ==> lowered(#[trigger] text@[k]) == letters@[k],
        decreases text@.len() - i,
    {
        if lower(text[i]) != letters[i] {
            return false;
        }
        i += 1;
    }
    true
}

/// The kind of cursor that a file holds, told from its extension and its
/// bytes. A file is a Windows cursor where its extension says so or its
/// bytes open like one; it is an X11 cursor where its extension does not
/// rule that out and its bytes open with the Xcursor magic.
pub open spec fn file_kind(extension: Option<Seq<char>>, data: Seq<u8>) -> CursorFileKind {
    if (extension is Some && cursor_extension(extension->Some_0)) || detected_format(data)
        is Some {
        CursorFileKind::Windows
    } else if !(extension is Some && foreign_extension(extension->Some_0))
        && crate::bytes::has_bytes_at(data, 0, xcursor_magic()) {
        CursorFileKind::Xcursor
    } else {
        CursorFileKind::Other
    }
}

/// Tells the kind of cursor that a file holds.
pub fn classify_cursor_file(extension: Option<&str>, data: &[u8]) -> (kind: CursorFileKind)
    ensures
        kind == file_kind(
            match extension {
                Some(e) => Some(e@),
                None => None,
            },
            data@,
        ),
{
    let by_name = match extension {
        Some(e) => is_cursor_extension(e),
        None => false,
    };
    if by_name || CursorFormat::detect(data).is_some() {
        return CursorFileKind::Windows;
    }
    let ruled_out = match extension {
        Some(e) => {
            let text = to_chars(e);
            spells(&text, "txt") || spells(&text, "md") || spells(&text, "conf") || spells(
                &text,
                "theme",
            ) || spells(&text, "png") || spells(&text, "svg")
        },
        None => false,
    };
    let magic: [u8; 4] = [0x58, 0x63, 0x75, 0x72];
    assert(magic@ =~= xcursor_magic());
    if !ruled_out && crate::bytes::bytes_at(data, 0, magic.as_slice()) {
        CursorFileKind::Xcursor
    } else {
        CursorFileKind::Other
    }
}

/// The nominal sizes of the images of a list of frames, frame after
/// frame.
pub open spec fn frame_sizes(frames: Seq<CursorFrameView>, k: int) -> Seq<u32>
    decreases k,
{
    if k <= 0 {
        Seq::empty()
    } else {
        frame_sizes(frames, k - 1) + Seq::new(
            frames[k - 1].images.len(),
            |j: int| frames[k - 1].images[j].nominal_size,
        )
    }
}

/// The hotspots of the images of a list of frames, frame after frame.
pub open spec fn frame_hotspots(frames: Seq<CursorFrameView>, k: int) -> Seq<(u32, u32)>
    decreases k,
{
    if k <= 0 {
        Seq::empty()
    } else {
        frame_hotspots(frames, k - 1) + Seq::new(
            frames[k - 1].images.len(),
            |j: int|
                (
                    frames[k - 1].images[j].hotspot.0 as u32,
                    frames[k - 1].images[j].hotspot.1 as u32,
                ),
        )
    }
}

/// The index of the first of the first `k` sizes that equals `size`, or
/// `k`.
pub open spec fn first_of_size(sizes: Seq<u32>, size: u32, k: int) -> int
    decreases k,
{
    if k <= 0 {
        0
    } else if first_of_size(sizes, size, k - 1) < k - 1 {
        first_of_size(sizes, size, k - 1)
    } else if sizes[k - 1] == size {
        k - 1
    } else {
        k
    }
}

/// The summary of a decoded Windows cursor by size: for each nominal size
/// that occurs, in ascending order, the hotspot of its first image and
/// one step per frame of the cursor, with the delay of the frame and no
/// image file yet.
pub open spec fn is_windows_summary(
    frames: Seq<CursorFrameView>,
    variants: Seq<VariantView>,
) -> bool {
    let sizes = frame_sizes(frames, frames.len() as int);
    let hotspots = frame_hotspots(frames, frames.len() as int);
    &&& is_size_list(sizes, Seq::new(variants.len(), |i: int| variants[i].size))
    &&& forall|i: int|
        0 <= i < variants.len() ==> {
            &&& (#[trigger] variants[i]).hotspot == hotspots[first_of_size(
                sizes,
                variants[i].size,
                sizes.len() as int,
            )]
            &&& variants[i].frames == Seq::new(
                frames.len(),
                |f: int| FrameView { png_path: Seq::empty(), delay_ms: frames[f].delay },
            )
        }
}

/// Flattens the sizes and hotspots of the images of a list of frames.
fn flatten_images(frames: &Vec<CursorFrame>) -> (r: (Vec<u32>, Vec<(u32, u32)>))
    ensures
        r.0@ == frame_sizes(frame_views(frames@), frames@.len() as int),
        r.1@ == frame_hotspots(frame_views(frames@), frames@.len() as int),
        r.0@.len() == r.1@.len(),
{
    let ghost views = frame_views(frames@);
    let mut sizes: Vec<u32> = Vec::new();
    let mut hotspots: Vec<(u32, u32)> = Vec::new();
    let mut k: usize = 0;
    while k < frames.len()
        invariant
            k <= frames@.len(),
            views == frame_views(frames@),
            sizes@ == frame_sizes(views, k as int),
            hotspots@ == frame_hotspots(views, k as int),
            sizes@.len() == hotspots@.len(),
        decreases frames@.len() - k,
    {
        let frame = &frames[k];
        let ghost done_sizes = sizes@;
        let ghost done_hotspots = hotspots@;
        let ghost images = views[k as int].images;
        assert(images == crate::pipeline::win2xcur::cur::image_views(frame.images@));
        let mut j: usize = 0;
        while j < frame.images.len()
            invariant
                j <= frame.images@.len(),
                images == crate::pipeline::win2xcur::cur::image_views(frame.images@),
                sizes@ == done_sizes + Seq::new(j as nat, |i: int| images[i].nominal_size),
                hotspots@ == done_hotspots + Seq::new(
                    j as nat,
                    |i: int| (images[i].hotspot.0 as u32, images[i].hotspot.1 as u32),
                ),
            decreases frame.images@.len() - j,
        {
            let image = &frame.images[j];
            assert(images[j as int] == image@);
            sizes.push(image.nominal_size);
            hotspots.push((image.hotspot.0 as u32, image.hotspot.1 as u32));
            j += 1;
            assert(sizes@ =~= done_sizes + Seq::new(j as nat, |i: int| images[i].nominal_size));
            assert(hotspots@ =~= done_hotspots + Seq::new(
                j as nat,
                |i: int| (images[i].hotspot.0 as u32, images[i].hotspot.1 as u32),
            ));
        }
        k += 1;
    }
    (sizes, hotspots)
}

/// Lists the sizes that occur in a list, ascending and each once.
pub fn distinct_sizes(sizes: &Vec<u32>) -> (r: Vec<u32>)
    ensures
        is_size_list(sizes@, r@),
{
    let mut r: Vec<u32> = Vec::new();
    let mut k: usize = 0;
    while k < sizes.len()
        invariant
            k <= sizes@.len(),
            strictly_increasing(r@),
            forall|v: u32| r@.contains(v) <==> has_size_before(sizes@, v, k as int),
        decreases sizes@.len() - k,
    {
        let size = sizes[k];
        let ghost before = r@;
        insert_sorted(&mut r, size);
        assert forall|v: u32| r@.contains(v) <==> has_size_before(sizes@, v, k + 1) by {
            if has_size_before(sizes@, v, k + 1) {
                let j = choose|j: int| 0 <= j < k + 1 && #[trigger] sizes@[j] == v;
                if j < k {
                    assert(has_size_before(sizes@, v, k as int));
                }
            }
            if before.contains(v) {
                let j = choose|j: int| 0 <= j < k && #[trigger] sizes@[j] == v;
                assert(0 <= j < k + 1);
            }
            if v == size {
                assert(sizes@[k as int] == v);
            }
        }
        k += 1;
    }
    r
}

/// Finds the first entry of a size.
fn find_first_of_size(sizes: &Vec<u32>, size: u32) -> (at: usize)
    ensures
        at == first_of_size(sizes@, size, sizes@.len() as int),
        at <= sizes@.len(),
{
    let mut k: usize = 0;
    while k < sizes.len()
        invariant
            k <= sizes@.len(),
            first_of_size(sizes@, size, k as int) == k,
        decreases sizes@.len() - k,
    {
        if sizes[k] == size {
            proof {
                lemma_first_stays(sizes@, size, k as int, sizes@.len() as int);
            }
            return k;
        }
        k += 1;
    }
    k
}

/// An entry that is the first of its size among the first entries is the
/// first among all.
pub proof fn lemma_first_stays(sizes: Seq<u32>, size: u32, i: int, n: int)
    requires
        0 <= i < n <= sizes.len(),
        first_of_size(sizes, size, i) == i,
        sizes[i] == size,
    ensures
        first_of_size(sizes, size, n) == i,
    decreases n - i,
{
    if n > i + 1 {
        lemma_first_stays(sizes, size, i, n - 1);
    }
}

/// A size of the size list occurs in the list it was made from.
pub proof fn lemma_listed_size_occurs(sizes: Seq<u32>, size: u32, k: int)
    requires
        0 <= k <= sizes.len(),
        has_size_before(sizes, size, k),
    ensures
        first_of_size(sizes, size, k) < k,
    decreases k,
{
    if k > 0 {
        if has_size_before(sizes, size, k - 1) {
            lemma_listed_size_occurs(sizes, size, k - 1);
        } else {
            let j = choose|j: int| 0 <= j < k && #[trigger] sizes[j] == size;
            assert(j == k - 1) by {
                if j < k - 1 {
                    assert(has_size_before(sizes, size, k - 1));
                }
            }
            lemma_first_bound(sizes, size, k - 1);
        }
    }
}

/// The first entry of a size is never sought past the end.
pub proof fn lemma_first_bound(sizes: Seq<u32>, size: u32, k: int)
    requires
        0 <= k,
    ensures
        0 <= first_of_size(sizes, size, k) <= k,
    decreases k,
{
    if k > 0 {
        lemma_first_bound(sizes, size, k - 1);
    }
}

/// Summarises a decoded Windows cursor for the interactive layer.
pub fn convert_windows_cursor_to_meta(
    file_stem: Option<&str>,
    path: &str,
    frames: &Vec<CursorFrame>,
) -> (meta: CursorMeta)
    ensures
        meta.x11_name@ == (match file_stem {
            Some(stem) => stem@,
            None => "unknown"@,
        }),
        meta.win_names@.len() == 0,
        meta.src_cursor_path is Some && meta.src_cursor_path->Some_0@ == path@,
        is_windows_summary(frame_views(frames@), variant_list(meta.variants@)),
{
    let ghost views = frame_views(frames@);
    let (sizes, hotspots) = flatten_images(frames);
    let listed = distinct_sizes(&sizes);
    let mut variants: Vec<SizeVariant> = Vec::new();
    let mut i: usize = 0;
    while i < listed.len()
        invariant
            i <= listed@.len(),
            views == frame_views(frames@),
            sizes@ == frame_sizes(views, views.len() as int),
            hotspots@ == frame_hotspots(views, views.len() as int),
            sizes@.len() == hotspots@.len(),
            is_size_list(sizes@, listed@),
            variants@.len() == i,
            forall|k: int|
                0 <= k < i ==> {
                    &&& (#[trigger] variants@[k]).size == listed@[k]
                    &&& variants@[k].hotspot == hotspots@[first_of_size(
                        sizes@,
                        listed@[k],
                        sizes@.len() as int,
                    )]
                    &&& frame_list(variants@[k].frames@) == Seq::new(
                        views.len(),
                        |f: int| FrameView { png_path: Seq::empty(), delay_ms: views[f].delay },
                    )
                },
        decreases listed@.len() - i,
    {
        let size = listed[i];
        let at = find_first_of_size(&sizes, size);
        proof {
            assert(listed@.contains(listed@[i as int]));
            lemma_listed_size_occurs(sizes@, size, sizes@.len() as int);
        }
        let hotspot = hotspots[at];
        let mut steps: Vec<Frame> = Vec::new();
        let mut f: usize = 0;
        while f < frames.len()
            invariant
                f <= frames@.len(),
                views == frame_views(frames@),
                steps@.len() == f,
                forall|k: int|
                    0 <= k < f ==> (#[trigger] steps@[k])@ == (FrameView {
                        png_path: Seq::empty(),
                        delay_ms: views[k].delay,
                    }),
            decreases frames@.len() - f,
        {
            assert(views[f as int].delay == frames@[f as int].delay);
            steps.push(Frame { png_path: String::new(), delay_ms: frames[f].delay });
            f += 1;
        }
        assert(frame_list(steps@) =~= Seq::new(
            views.len(),
            |f: int| FrameView { png_path: Seq::empty(), delay_ms: views[f].delay },
        ));
        variants.push(SizeVariant { size, frames: steps, hotspot });
        i += 1;
    }
    let x11_name: String = match file_stem {
        Some(stem) => stem.to_owned(),
        None => "unknown".to_owned(),
    };
    proof {
        let listed_sizes = Seq::new(variants@.len(), |k: int| variant_list(variants@)[k].size);
        assert(listed_sizes =~= listed@);
    }
    CursorMeta {
        x11_name,
        win_names: Vec::new(),
        variants,
        src_cursor_path: Some(path.to_owned()),
    }
}

/// One image of a cursor as a summary by size sees it.
pub struct GroupItem {
    pub size: u32,
    pub hotspot: (u32, u32),
    pub png_path: Seq<char>,
    pub delay: u32,
}

/// The sizes of a list of items.
pub open spec fn item_sizes(items: Seq<GroupItem>) -> Seq<u32> {
    Seq::new(items.len(), |i: int| items[i].size)
}

/// The steps of the items at the given indices.
pub open spec fn steps_at(items: Seq<GroupItem>, indices: Seq<int>) -> Seq<FrameView> {
    Seq::new(
        indices.len(),
        |j: int|
            FrameView { png_path: items[indices[j]].png_path, delay_ms: items[indices[j]].delay },
    )
}

/// The summary of a list of images by size: for each size that occurs, in
/// ascending order, the hotspot of its first image and one step per image
/// of the size, in the order of the images.
pub open spec fn is_grouping(items: Seq<GroupItem>, variants: Seq<VariantView>) -> bool {
    let sizes = item_sizes(items);
    &&& is_size_list(sizes, Seq::new(variants.len(), |i: int| variants[i].size))
    &&& forall|i: int|
        0 <= i < variants.len() ==> {
            &&& (#[trigger] variants[i]).hotspot == items[first_of_size(
                sizes,
                variants[i].size,
                sizes.len() as int,
            )].hotspot
            &&& variants[i].frames == steps_at(
                items,
                indices_of_size(sizes, variants[i].size, sizes.len() as int),
            )
        }
}

/// An image of a cursor with what a summary by size needs of it.
#[derive(Debug)]
pub struct SizedImage {
    pub size: u32,
    pub hotspot: (u32, u32),
    pub png_path: String,
    pub delay: u32,
}

impl View for SizedImage {
    type V = GroupItem;

    open spec fn view(&self) -> GroupItem {
        GroupItem {
            size: self.size,
            hotspot: self.hotspot,
            png_path: self.png_path@,
            delay: self.delay,
        }
    }
}

/// The views of a list of images.
pub open spec fn sized_views(images: Seq<SizedImage>) -> Seq<GroupItem> {
    Seq::new(images.len(), |i: int| images[i]@)
}

/// Summarises a list of images by size.
pub fn group_by_size(images: &Vec<SizedImage>) -> (variants: Vec<SizeVariant>)
    ensures
        is_grouping(sized_views(images@), variant_list(variants@)),
        images@.len() > 0 ==> variants@.len() > 0,
{
    let ghost items = sized_views(images@);
    let mut sizes: Vec<u32> = Vec::new();
    let mut k: usize = 0;
    while k < images.len()
        invariant
            k <= images@.len(),
            items == sized_views(images@),
            sizes@ == item_sizes(items).take(k as int),
        decreases images@.len() - k,
    {
        assert(items[k as int] == images@[k as int]@);
        sizes.push(images[k].size);
        k += 1;
        assert(sizes@ =~= item_sizes(items).take(k as int));
    }
    assert(sizes@ =~= item_sizes(items));
    let listed = distinct_sizes(&sizes);
    proof {
        if images@.len() > 0 {
            assert(sizes@[0] == sizes@[0]);
            assert(has_size_before(sizes@, sizes@[0], sizes@.len() as int));
            assert(listed@.contains(sizes@[0]));
        }
    }
    let mut variants: Vec<SizeVariant> = Vec::new();
    let mut i: usize = 0;
    while i < listed.len()
        invariant
            i <= listed@.len(),
            items == sized_views(images@),
            sizes@ == item_sizes(items),
            is_size_list(sizes@, listed@),
            variants@.len() == i,
            forall|v: int|
                0 <= v < i ==> {
                    &&& (#[trigger] variants@[v]).size == listed@[v]
                    &&& variants@[v].hotspot == items[first_of_size(
                        sizes@,
                        listed@[v],
                        sizes@.len() as int,
                    )].hotspot
                    &&& frame_list(variants@[v].frames@) == steps_at(
                        items,
                        indices_of_size(sizes@, listed@[v], sizes@.len() as int),
                    )
                },
        decreases listed@.len() - i,
    {
        let size = listed[i];
        let at = find_first_of_size(&sizes, size);
        proof {
            assert(listed@.contains(listed@[i as int]));
            lemma_listed_size_occurs(sizes@, size, sizes@.len() as int);
        }
        assert(items[at as int] == images@[at as int]@);
        let hotspot = images[at].hotspot;
        let mut steps: Vec<Frame> = Vec::new();
        let mut f: usize = 0;
        assert(frame_list(steps@) =~= steps_at(items, indices_of_size(sizes@, size, 0)));
        while f < images.len()
            invariant
                f <= images@.len(),
                items == sized_views(images@),
                sizes@ == item_sizes(items),
                frame_list(steps@) == steps_at(items, indices_of_size(sizes@, size, f as int)),
            decreases images@.len() - f,
        {
            assert(items[f as int] == images@[f as int]@);
            if images[f].size == size {
                let ghost before = frame_list(steps@);
                let step = Frame {
                    png_path: images[f].png_path.clone(),
                    delay_ms: images[f].delay,
                };
                steps.push(step);
                assert(frame_list(steps@) =~= before.push(step@));
                assert(frame_list(steps@) =~= steps_at(
                    items,
                    indices_of_size(sizes@, size, f + 1),
                ));
            }
            f += 1;
        }
        variants.push(SizeVariant { size, frames: steps, hotspot });
        i += 1;
    }
    proof {
        let listed_sizes = Seq::new(variants@.len(), |v: int| variant_list(variants@)[v].size);
        assert(listed_sizes =~= listed@);
    }
    variants
}

/// The images of an X11 cursor as a summary by size sees them: without
/// image files.
pub open spec fn info_items(images: Seq<ImageInfo>) -> Seq<GroupItem> {
    Seq::new(
        images.len(),
        |i: int|
            GroupItem {
                size: images[i].size,
                hotspot: (images[i].xhot, images[i].yhot),
                png_path: Seq::empty(),
                delay: images[i].delay,
            },
    )
}

/// Summarises the images of an X11 cursor for the interactive layer.
pub fn convert_to_cursor_meta(
    file_name: Option<&str>,
    path: &str,
    images: &Vec<ImageInfo>,
) -> (meta: CursorMeta)
    ensures
        meta.x11_name@ == (match file_name {
            Some(name) => name@,
            None => "unknown"@,
        }),
        meta.win_names@.len() == 0,
        meta.src_cursor_path is Some && meta.src_cursor_path->Some_0@ == path@,
        is_grouping(info_items(images@), variant_list(meta.variants@)),
{
    let mut sized: Vec<SizedImage> = Vec::new();
    let mut k: usize = 0;
    while k < images.len()
        invariant
            k <= images@.len(),
            sized_views(sized@) == info_items(images@).take(k as int),
        decreases images@.len() - k,
    {
        let image = images[k];
        let ghost before = sized_views(sized@);
        let item = SizedImage {
            size: image.size,
            hotspot: (image.xhot, image.yhot),
            png_path: String::new(),
            delay: image.delay,
        };
        sized.push(item);
        assert(sized_views(sized@) =~= before.push(item@));
        k += 1;
        assert(sized_views(sized@) =~= info_items(images@).take(k as int));
    }
    assert(sized_views(sized@) =~= info_items(images@));
    let x11_name: String = match file_name {
        Some(name) => name.to_owned(),
        None => "unknown".to_owned(),
    };
    CursorMeta {
        x11_name,
        win_names: Vec::new(),
        variants: group_by_size(&sized),
        src_cursor_path: Some(path.to_owned()),
    }
}

/// What loading one file of a cursor directory gives: the summary of a
/// Windows cursor that decodes, the summary of an X11 cursor that parses
/// and holds an image, and nothing for any other file.
pub fn load_cursor_file(
    file_name: Option<&str>,
    file_stem: Option<&str>,
    extension: Option<&str>,
    path: &str,
    data: &[u8],
) -> (r: Option<CursorMeta>)
    ensures
        match file_kind(
            match extension {
                Some(e) => Some(e@),
                None => None,
            },
            data@,
        ) {
            CursorFileKind::Windows => match decoded_frames(data@) {
                Err(_) => r is None,
                Ok(frames) => r is Some && is_windows_summary(
                    frames,
                    variant_list(r->Some_0.variants@),
                ),
            },
            CursorFileKind::Xcursor => match xcursor_images(data@) {
                None => r is None,
                Some(images) => if images.len() == 0 {
                    r is None
                } else {
                    r is Some && is_grouping(info_items(images), variant_list(r->Some_0.variants@))
                },
            },
            CursorFileKind::Other => r is None,
        },
{
    match classify_cursor_file(extension, data) {
        CursorFileKind::Windows => match decode_windows_cursor(data) {
            Ok(frames) => Some(convert_windows_cursor_to_meta(file_stem, path, &frames)),
            Err(_) => None,
        },
        CursorFileKind::Xcursor => match parse_xcursor_images(data) {
            Some(images) => if images.len() == 0 {
                None
            } else {
                Some(convert_to_cursor_meta(file_name, path, &images))
            },
            None => None,
        },
        CursorFileKind::Other => None,
    }
}

/// The words `from..to` of a list, joined by single spaces.
pub open spec fn joined_words(list: Seq<Seq<char>>, from: int, to: int) -> Seq<char>
    decreases to - from,
{
    if to <= from {
        Seq::empty()
    } else if to == from + 1 {
        list[from]
    } else {
        joined_words(list, from, to - 1) + seq![' '] + list[to - 1]
    }
}

/// A file name placed in a directory: an absolute name stays, any other
/// follows the directory and a separator.
pub open spec fn placed(dir: Seq<char>, name: Seq<char>) -> Seq<char> {
    if name.len() > 0 && name[0] == '/' {
        name
    } else if dir.len() == 0 || dir.last() == '/' {
        dir + name
    } else {
        dir + seq!['/'] + name
    }
}

/// The delay of an image whose line names none, in milliseconds.
pub const DEFAULT_PREVIEW_DELAY: u32 = 50;

/// The image that a line of a preview document holds: size, hotspot, file
/// name, and optionally a delay, separated by white space. The file name
/// may hold spaces; a last word that spells a number is the delay. Empty
/// lines, comment lines, lines with fewer than four words and lines whose
/// size or hotspot is no number hold none.
pub open spec fn preview_item(dir: Seq<char>, line: Seq<char>) -> Option<GroupItem> {
    let t = trimmed(line);
    let w = words(t);
    let n = w.len() as int;
    if t.len() == 0 || t[0] == '#' || n < 4 {
        None
    } else {
        let timed = n > 4 && parse_unsigned(w[n - 1], u32::MAX as int) is Some;
        match (
            parse_unsigned(w[0], u32::MAX as int),
            parse_unsigned(w[1], u16::MAX as int),
            parse_unsigned(w[2], u16::MAX as int),
        ) {
            (Some(size), Some(x), Some(y)) => Some(
                GroupItem {
                    size: size as u32,
                    hotspot: (x as u32, y as u32),
                    png_path: placed(
                        dir,
                        joined_words(
                            w,
                            3,
                            if timed {
                                n - 1
                            } else {
                                n
                            },
                        ),
                    ),
                    delay: if timed {
                        parse_unsigned(w[n - 1], u32::MAX as int)->Some_0 as u32
                    } else {
                        DEFAULT_PREVIEW_DELAY
                    },
                },
            ),
            _ => None,
        }
    }
}

/// The images that the first `k` lines of a preview document hold.
pub open spec fn preview_items(dir: Seq<char>, all: Seq<Seq<char>>, k: int) -> Seq<GroupItem>
    decreases k,
{
    if k <= 0 {
        Seq::empty()
    } else {
        match preview_item(dir, all[k - 1]) {
            Some(item) => preview_items(dir, all, k - 1).push(item),
            None => preview_items(dir, all, k - 1),
        }
    }
}

/// Reads one line of a preview document.
pub fn read_preview_item(dir: &str, line: &[char]) -> (r: Option<SizedImage>)
    ensures
        match preview_item(dir@, line@) {
            Some(item) => r is Some && r->Some_0@ == item,
            None => r is None,
        },
{
    let t = trim(line);
    if t.len() == 0 || t[0] == '#' {
        return None;
    }
    let spans = word_spans(t);
    let n = spans.len();
    if n < 4 {
        return None;
    }
    let ghost w = words(t@);
    assert(w.len() == n) by {
        assert(parts_of(t@, spans@).len() == spans@.len());
    }
    assert forall|i: int| 0 <= i < n implies w[i] == crate::text::span_of(t@, spans@[i]) by {
        assert(parts_of(t@, spans@)[i] == crate::text::span_of(t@, spans@[i]));
    }
    let last = parse_u32(slice_of(t, spans[n - 1]));
    let timed = n > 4 && last.is_some();
    let size = parse_u32(slice_of(t, spans[0]));
    let x = parse_u16(slice_of(t, spans[1]));
    let y = parse_u16(slice_of(t, spans[2]));
    match (size, x, y) {
        (Some(size), Some(x), Some(y)) => {
            let to: usize = if timed {
                n - 1
            } else {
                n
            };
            let mut name = String::new();
            let mut k: usize = 3;
            while k < to
                invariant
                    3 <= k <= to <= n == spans@.len(),
                    w.len() == n,
                    crate::text::spans_inside(spans@, t@.len()),
                    forall|i: int| 0 <= i < n ==> w[i] == crate::text::span_of(t@, spans@[i]),
                    name@ == joined_words(w, 3, k as int),
                decreases to - k,
            {
                if k > 3 {
                    name.push(' ');
                }
                push_str(&mut name, slice_string(slice_of(t, spans[k])).as_str());
                k += 1;
                assert(name@ =~= joined_words(w, 3, k as int));
            }
            let dir_chars = to_chars(dir);
            let name_chars = to_chars(name.as_str());
            let mut path = String::new();
            if name_chars.len() > 0 && name_chars[0] == '/' {
                push_str(&mut path, name.as_str());
                assert(path@ =~= placed(dir@, name@));
            } else if dir_chars.len() == 0 || dir_chars[dir_chars.len() - 1] == '/' {
                push_str(&mut path, dir);
                push_str(&mut path, name.as_str());
                assert(path@ =~= placed(dir@, name@));
            } else {
                push_str(&mut path, dir);
                path.push('/');
                push_str(&mut path, name.as_str());
                assert(path@ =~= placed(dir@, name@));
            }
            let delay = if timed {
                match last {
                    Some(d) => d,
                    None => DEFAULT_PREVIEW_DELAY,
                }
            } else {
                DEFAULT_PREVIEW_DELAY
            };
            Some(
                SizedImage { size, hotspot: (x as u32, y as u32), png_path: path, delay },
            )
        },
        _ => None,
    }
}

/// Loads the cursor of a preview directory from its sidecar document: its
/// images summarised by size, under the name of the directory. A document
/// that holds no image gives no cursor.
pub fn load_preview_cursor(cursor_name: &str, cursor_dir: &str, conf: &str) -> (r: Option<
    CursorMeta,
>)
    ensures
        preview_items(cursor_dir@, lines(conf@), lines(conf@).len() as int).len() == 0 ==> r
            is None,
        preview_items(cursor_dir@, lines(conf@), lines(conf@).len() as int).len() > 0 ==> {
            &&& r is Some
            &&& r->Some_0.x11_name@ == cursor_name@
            &&& r->Some_0.win_names@.len() == 1
            &&& r->Some_0.win_names@[0]@ == cursor_name@
            &&& r->Some_0.src_cursor_path is Some
            &&& r->Some_0.src_cursor_path->Some_0@ == cursor_dir@
            &&& is_grouping(
                preview_items(cursor_dir@, lines(conf@), lines(conf@).len() as int),
                variant_list(r->Some_0.variants@),
            )
        },
{
    let text = to_chars(conf);
    let spans = line_spans(text.as_slice());
    let mut images: Vec<SizedImage> = Vec::new();
    let mut k: usize = 0;
    assert(sized_views(images@) =~= Seq::empty());
    while k < spans.len()
        invariant
            k <= spans@.len(),
            text@ == conf@,
            crate::text::spans_inside(spans@, text@.len()),
            parts_of(text@, spans@) == lines(text@),
            sized_views(images@) == preview_items(cursor_dir@, lines(text@), k as int),
        decreases spans@.len() - k,
    {
        let line = slice_of(text.as_slice(), spans[k]);
        assert(line@ == lines(text@)[k as int]) by {
            assert(parts_of(text@, spans@)[k as int] == line@);
        }
        match read_preview_item(cursor_dir, line) {
            Some(image) => {
                let ghost before = sized_views(images@);
                images.push(image);
                assert(sized_views(images@) =~= before.push(image@));
            },
            None => {},
        }
        k += 1;
    }
    if images.len() == 0 {
        return None;
    }
    let mut win_names: Vec<String> = Vec::new();
    win_names.push(cursor_name.to_owned());
    Some(
        CursorMeta {
            x11_name: cursor_name.to_owned(),
            win_names,
            variants: group_by_size(&images),
            src_cursor_path: Some(cursor_dir.to_owned()),
        },
    )
}

} // verus!
