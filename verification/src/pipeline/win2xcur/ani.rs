//! The decoder for animated `.ani` files.
//!
//! An animated cursor is a RIFF container of type `ACON`. Its chunks are
//! walked in file order: the `anih` header comes first, then a `LIST` of
//! type `fram` with one `icon` chunk per frame, and optionally a `seq `
//! chunk that orders the frames and a `rate` chunk that times the steps.

use crate::bytes::{bytes_at, has_bytes_at, le_u32, read_u32_le};
use crate::error::CursorError;
use crate::pipeline::win2xcur::cur::{
    color_warnings, frame_views, parse_cur, CurParser, CursorFrame, CursorFrameView,
};
use vstd::prelude::*;

verus! {

/// The tag `anih` of the header chunk, read as a little-endian word.
pub const TAG_ANIH: u32 = 0x6869_6E61;

/// The tag `LIST`.
pub const TAG_LIST: u32 = 0x5453_494C;

/// The tag `seq ` of the chunk that orders the frames.
pub const TAG_SEQ: u32 = 0x2071_6573;

/// The tag `rate` of the chunk that times the steps.
pub const TAG_RATE: u32 = 0x6574_6172;

/// The list type `fram` of the frame list.
pub const TAG_FRAM: u32 = 0x6D61_7266;

/// The tag `icon` of one frame.
pub const TAG_ICON: u32 = 0x6E6F_6369;

/// The flag that says that the frames are icons, not raw bitmaps.
pub const ICON_FLAG: u32 = 0x1;

/// The size of the animation header in bytes.
pub const ANIH_SIZE: u32 = 36;

/// The four bytes `RIFF`.
pub open spec fn riff_signature() -> Seq<u8> {
    seq![0x52u8, 0x49u8, 0x46u8, 0x46u8]
}

/// The four bytes `ACON`.
pub open spec fn acon_type() -> Seq<u8> {
    seq![0x41u8, 0x43u8, 0x4Fu8, 0x4Eu8]
}

/// The animation header.
#[derive(Clone, Copy, Debug)]
pub struct AnihHeader {
    pub size: u32,
    pub frame_count: u32,
    pub step_count: u32,
    pub width: u32,
    pub height: u32,
    pub bit_count: u32,
    pub planes: u32,
    pub display_rate: u32,
    pub flags: u32,
}

impl AnihHeader {
    /// Checks the header: it must declare its own size as 36.
    pub fn validate(&self) -> (r: Result<(), CursorError>)
        ensures
            self.size == ANIH_SIZE ==> r is Ok,
            self.size != ANIH_SIZE ==> r == Err::<(), CursorError>(CursorError::Format),
    {
        if self.size != ANIH_SIZE {
            return Err(CursorError::Format);
        }
        Ok(())
    }
}

/// The header whose nine words stand at `at`.
pub open spec fn header_at(data: Seq<u8>, at: int) -> AnihHeader {
    AnihHeader {
        size: le_u32(data, at) as u32,
        frame_count: le_u32(data, at + 4) as u32,
        step_count: le_u32(data, at + 8) as u32,
        width: le_u32(data, at + 12) as u32,
        height: le_u32(data, at + 16) as u32,
        bit_count: le_u32(data, at + 20) as u32,
        planes: le_u32(data, at + 24) as u32,
        display_rate: le_u32(data, at + 28) as u32,
        flags: le_u32(data, at + 32) as u32,
    }
}

/// Where reading goes on after `pos`: at the next even position, and never
/// past the end of a buffer of `len` bytes.
pub open spec fn next_pos(len: int, pos: int) -> int {
    if pos >= len {
        len
    } else if pos % 2 != 0 {
        pos + 1
    } else {
        pos
    }
}

/// A chunk: its tag, its declared size, and where its data starts.
pub struct ChunkRef {
    pub tag: u32,
    pub size: u32,
    pub data_start: int,
}

/// The tags that are looked for: the header at first, then the three
/// kinds of chunk that follow it.
pub open spec fn wanted(tag: u32, header: bool) -> bool {
    if header {
        tag == TAG_ANIH
    } else {
        tag == TAG_LIST || tag == TAG_SEQ || tag == TAG_RATE
    }
}

/// The first wanted chunk at or after `pos`. Other chunks are skipped by
/// their declared size. There is none where the buffer ends first.
pub open spec fn find_chunk(data: Seq<u8>, pos: int, header: bool) -> Option<ChunkRef>
    decreases data.len() - pos,
{
    if pos < 0 || pos + 8 > data.len() {
        None
    } else if wanted(le_u32(data, pos) as u32, header) {
        Some(
            ChunkRef {
                tag: le_u32(data, pos) as u32,
                size: le_u32(data, pos + 4) as u32,
                data_start: pos + 8,
            },
        )
    } else if next_pos(data.len() as int, pos + 8 + le_u32(data, pos + 4)) >= data.len() {
        None
    } else {
        find_chunk(data, next_pos(data.len() as int, pos + 8 + le_u32(data, pos + 4)), header)
    }
}

/// A chunk that was found lies behind the position from which it was
/// looked for, and inside the buffer.
pub proof fn lemma_find_chunk_bounds(data: Seq<u8>, pos: int, header: bool)
    ensures
        find_chunk(data, pos, header) matches Some(c) ==> 0 <= pos && pos + 8 <= c.data_start
            <= data.len() && wanted(c.tag, header),
    decreases data.len() - pos,
{
    if pos + 8 <= data.len() && !wanted(le_u32(data, pos) as u32, header) {
        let next = next_pos(data.len() as int, pos + 8 + le_u32(data, pos + 4));
        if next < data.len() {
            lemma_find_chunk_bounds(data, next, header);
        }
    }
}

/// The frames of the first `k` icon chunks from `start` on, and where the
/// next chunk starts.
///
/// A chunk header that is cut short and icon data that reaches past the
/// end of the buffer are truncated; another tag than `icon` is a format
/// error; the errors of the embedded cursor are passed on.
pub open spec fn frames_prefix(data: Seq<u8>, start: int, k: int) -> Result<
    (Seq<CursorFrameView>, int),
    CursorError,
>
    decreases k,
{
    if k <= 0 {
        Ok((Seq::empty(), start))
    } else {
        match frames_prefix(data, start, k - 1) {
            Err(e) => Err(e),
            Ok((frames, pos)) => match icon_frame(data, pos) {
                Err(e) => Err(e),
                Ok((frame, next)) => Ok((frames.push(frame), next)),
            },
        }
    }
}

/// The frame of the icon chunk at `pos`, and where the next chunk starts.
#[verifier::opaque]
pub open spec fn icon_frame(data: Seq<u8>, pos: int) -> Result<
    (CursorFrameView, int),
    CursorError,
> {
    if pos + 8 > data.len() {
        Err(CursorError::Truncated)
    } else if le_u32(data, pos) != TAG_ICON {
        Err(CursorError::Format)
    } else if pos + 8 + le_u32(data, pos + 4) > data.len() {
        Err(CursorError::Truncated)
    } else {
        match parse_cur(data.subrange(pos + 8, pos + 8 + le_u32(data, pos + 4))) {
            Err(e) => Err(e),
            Ok(images) => Ok(
                (
                    CursorFrameView { images, delay: 0 },
                    next_pos(data.len() as int, pos + 8 + le_u32(data, pos + 4)),
                ),
            ),
        }
    }
}

/// Reading frames only moves forward, and stays inside the buffer.
pub proof fn lemma_frames_prefix_bounds(data: Seq<u8>, start: int, k: int)
    requires
        0 <= start <= data.len(),
        0 <= k,
    ensures
        frames_prefix(data, start, k) matches Ok((frames, pos)) ==> start <= pos <= data.len()
            && frames.len() == k,
    decreases k,
{
    reveal(icon_frame);
    if k > 0 {
        lemma_frames_prefix_bounds(data, start, k - 1);
    }
}

/// An error among the first frames is the error of all of them.
pub proof fn lemma_frames_error(data: Seq<u8>, start: int, k: int, n: int)
    requires
        0 <= k <= n,
        frames_prefix(data, start, k) is Err,
    ensures
        frames_prefix(data, start, n) == frames_prefix(data, start, k),
    decreases n - k,
{
    if k < n {
        lemma_frames_error(data, start, k, n - 1);
    }
}

/// The `n` 32-bit words that stand at `at`.
pub open spec fn words(data: Seq<u8>, at: int, n: int) -> Seq<u32> {
    Seq::new(n as nat, |i: int| le_u32(data, at + 4 * i) as u32)
}

/// What has been collected from the chunks behind the header.
pub struct AniParts {
    pub frames: Seq<CursorFrameView>,
    pub order: Option<Seq<u32>>,
    pub delays: Option<Seq<u32>>,
}

/// What one step of the walk over the chunks gives.
pub enum WalkStep {
    /// No further chunk: the walk ends.
    Done,
    /// A chunk was read; the walk goes on at the position.
    Next(AniParts, int),
    /// A chunk was malformed or cut short.
    Failed(CursorError),
}

/// Reads the next wanted chunk from `pos` on.
///
/// A `LIST` of type `fram` gives the frames, any other list is entered; a
/// `seq ` chunk gives one frame index per step and a `rate` chunk one
/// delay per step. A later chunk replaces what an earlier one gave.
pub open spec fn walk_step(data: Seq<u8>, h: AnihHeader, pos: int, parts: AniParts) -> WalkStep {
    let len = data.len() as int;
    if pos >= len {
        WalkStep::Done
    } else {
        match find_chunk(data, pos, false) {
            None => WalkStep::Done,
            Some(c) => {
                let at = c.data_start;
                if c.tag == TAG_LIST {
                    if at + 4 > len {
                        WalkStep::Failed(CursorError::Truncated)
                    } else if le_u32(data, at) == TAG_FRAM {
                        match frames_prefix(data, at + 4, h.frame_count as int) {
                            Err(e) => WalkStep::Failed(e),
                            Ok((frames, next)) => WalkStep::Next(
                                AniParts { frames, ..parts },
                                next_pos(len, next),
                            ),
                        }
                    } else {
                        WalkStep::Next(parts, next_pos(len, at + 4))
                    }
                } else if at + 4 * h.step_count > len {
                    WalkStep::Failed(CursorError::Truncated)
                } else if c.tag == TAG_SEQ {
                    WalkStep::Next(
                        AniParts { order: Some(words(data, at, h.step_count as int)), ..parts },
                        next_pos(len, at + 4 * h.step_count),
                    )
                } else {
                    WalkStep::Next(
                        AniParts { delays: Some(words(data, at, h.step_count as int)), ..parts },
                        next_pos(len, at + 4 * h.step_count),
                    )
                }
            },
        }
    }
}

/// Every step of the walk moves forward.
pub proof fn lemma_walk_step_advances(data: Seq<u8>, h: AnihHeader, pos: int, parts: AniParts)
    ensures
        walk_step(data, h, pos, parts) matches WalkStep::Next(_, next) ==> pos < next
            <= data.len(),
{
    reveal(walk_step);
    lemma_find_chunk_bounds(data, pos, false);
    if pos < data.len() {
        match find_chunk(data, pos, false) {
            None => {},
            Some(c) => {
                let at = c.data_start;
                if c.tag == TAG_LIST && at + 4 <= data.len() && le_u32(data, at) == TAG_FRAM {
                    lemma_frames_prefix_bounds(data, at + 4, h.frame_count as int);
                }
            },
        }
    }
}

/// Everything that the chunks from `pos` on add to `parts`.
pub open spec fn walk(data: Seq<u8>, h: AnihHeader, pos: int, parts: AniParts) -> Result<
    AniParts,
    CursorError,
>
    decreases data.len() - pos,
{
    match walk_step(data, h, pos, parts) {
        WalkStep::Done => Ok(parts),
        WalkStep::Failed(e) => Err(e),
        WalkStep::Next(more, next) => {
            proof {
                lemma_walk_step_advances(data, h, pos, parts);
            }
            walk(data, h, next, more)
        },
    }
}

/// The display time of `ticks` sixtieths of a second in milliseconds,
/// rounded down and capped at the largest 32-bit value.
pub open spec fn ticks_to_ms(ticks: u32) -> u32 {
    if ticks * 1000 / 60 > u32::MAX {
        u32::MAX
    } else {
        (ticks * 1000 / 60) as u32
    }
}

/// Computes [`ticks_to_ms`].
pub fn delay_ms(ticks: u32) -> (ms: u32)
    ensures
        ms == ticks_to_ms(ticks),
{
    let ms: u64 = (ticks as u64) * 1000 / 60;
    if ms > u32::MAX as u64 {
        u32::MAX
    } else {
        ms as u32
    }
}

/// The frame index of step `i`: what the `seq ` chunk says, or `i` itself.
pub open spec fn step_frame(parts: AniParts, i: int) -> int {
    match parts.order {
        Some(order) => order[i] as int,
        None => i,
    }
}

/// The tick count of step `i`: what the `rate` chunk says, or the display
/// rate of the header.
pub open spec fn step_ticks(h: AnihHeader, parts: AniParts, i: int) -> u32 {
    match parts.delays {
        Some(delays) => delays[i],
        None => h.display_rate,
    }
}

/// The first `k` steps of the played sequence. A step that names a frame
/// that does not exist fails validation.
pub open spec fn steps_prefix(h: AnihHeader, parts: AniParts, k: int) -> Result<
    Seq<CursorFrameView>,
    CursorError,
>
    decreases k,
{
    if k <= 0 {
        Ok(Seq::empty())
    } else {
        match steps_prefix(h, parts, k - 1) {
            Err(e) => Err(e),
            Ok(steps) => if step_frame(parts, k - 1) >= parts.frames.len() {
                Err(CursorError::Validation)
            } else {
                Ok(
                    steps.push(
                        CursorFrameView {
                            images: parts.frames[step_frame(parts, k - 1)].images,
                            delay: ticks_to_ms(step_ticks(h, parts, k - 1)),
                        },
                    ),
                )
            },
        }
    }
}

/// An error among the first steps is the error of the whole sequence.
pub proof fn lemma_steps_error(h: AnihHeader, parts: AniParts, k: int, n: int)
    requires
        0 <= k <= n,
        steps_prefix(h, parts, k) is Err,
    ensures
        steps_prefix(h, parts, n) == steps_prefix(h, parts, k),
    decreases n - k,
{
    if k < n {
        lemma_steps_error(h, parts, k, n - 1);
    }
}

/// The number of entries of the frame order: that of the `seq ` chunk, or
/// without one the number of frames that the header declares.
pub open spec fn order_len(h: AnihHeader, parts: AniParts) -> int {
    match parts.order {
        Some(order) => order.len() as int,
        None => h.frame_count as int,
    }
}

/// The number of delays: that of the `rate` chunk, or without one the
/// number of steps.
pub open spec fn delays_len(h: AnihHeader, parts: AniParts) -> int {
    match parts.delays {
        Some(delays) => delays.len() as int,
        None => h.step_count as int,
    }
}

/// The played sequence: one frame per step. The frame order and the delays
/// must have one entry per step; without a `seq ` chunk the frames play in
/// file order, which needs as many frames as steps.
pub open spec fn sequence(h: AnihHeader, parts: AniParts) -> Result<
    Seq<CursorFrameView>,
    CursorError,
> {
    if order_len(h, parts) != h.step_count || delays_len(h, parts) != h.step_count {
        Err(CursorError::Validation)
    } else {
        steps_prefix(h, parts, h.step_count as int)
    }
}

/// The animation header of a file, and where the chunks behind it start.
///
/// The file must open as a RIFF container of type `ACON` and hold an
/// `anih` chunk with a complete header that declares its size as 36 and
/// its frames as icons.
pub open spec fn ani_header(data: Seq<u8>) -> Result<(AnihHeader, int), CursorError> {
    if !(has_bytes_at(data, 0, riff_signature()) && has_bytes_at(data, 8, acon_type())) {
        Err(CursorError::Format)
    } else {
        match find_chunk(data, 12, true) {
            None => Err(CursorError::Truncated),
            Some(c) => if c.data_start + ANIH_SIZE > data.len() {
                Err(CursorError::Truncated)
            } else if header_at(data, c.data_start).size != ANIH_SIZE {
                Err(CursorError::Format)
            } else if header_at(data, c.data_start).flags & ICON_FLAG == 0 {
                Err(CursorError::Format)
            } else {
                Ok((header_at(data, c.data_start), c.data_start + ANIH_SIZE))
            },
        }
    }
}

/// The parts of a file before any chunk has been read.
pub open spec fn no_parts() -> AniParts {
    AniParts { frames: Seq::empty(), order: None, delays: None }
}

/// The meaning of a byte buffer as an `.ani` file: the played sequence of
/// frames, each with its delay in milliseconds.
pub open spec fn parse_ani(data: Seq<u8>) -> Result<Seq<CursorFrameView>, CursorError> {
    match ani_header(data) {
        Err(e) => Err(e),
        Ok((header, start)) => match walk(data, header, start, no_parts()) {
            Err(e) => Err(e),
            Ok(parts) => sequence(header, parts),
        },
    }
}

/// The frame that step `i` plays: the images of the frame that the step
/// names, for the time that the step lasts.
pub open spec fn played_frame(h: AnihHeader, parts: AniParts, i: int) -> CursorFrameView {
    CursorFrameView {
        images: parts.frames[step_frame(parts, i)].images,
        delay: ticks_to_ms(step_ticks(h, parts, i)),
    }
}

/// Whether a played sequence shows, at every step, the stored frame that
/// the step names, for the time that the step lasts.
pub open spec fn plays_in_order(
    h: AnihHeader,
    parts: AniParts,
    played: Seq<CursorFrameView>,
) -> bool {
    forall|i: int|
        0 <= i < played.len() ==> {
            &&& 0 <= step_frame(parts, i) < parts.frames.len()
            &&& (#[trigger] played[i]) == played_frame(h, parts, i)
        }
}

/// Steps that can be played are played in their order: there is one
/// played frame per step, and step `i` plays the frame that it names.
pub proof fn lemma_steps_in_order(h: AnihHeader, parts: AniParts, k: int)
    requires
        0 <= k,
        steps_prefix(h, parts, k) is Ok,
    ensures
        steps_prefix(h, parts, k)->Ok_0.len() == k,
        plays_in_order(h, parts, steps_prefix(h, parts, k)->Ok_0),
    decreases k,
{
    if k > 0 {
        lemma_steps_in_order(h, parts, k - 1);
        let before = steps_prefix(h, parts, k - 1)->Ok_0;
        let now = steps_prefix(h, parts, k)->Ok_0;
        assert(now == before.push(played_frame(h, parts, k - 1)));
        assert forall|i: int| 0 <= i < now.len() implies {
            &&& 0 <= step_frame(parts, i) < parts.frames.len()
            &&& (#[trigger] now[i]) == played_frame(h, parts, i)
        } by {
            if i < k - 1 {
                assert(now[i] == before[i]);
                assert(before[i] == played_frame(h, parts, i));
            } else {
                assert(now[i] == played_frame(h, parts, k - 1));
                assert(step_frame(parts, k - 1) < parts.frames.len());
            }
        }
        assert(plays_in_order(h, parts, now));
    } else {
        assert(steps_prefix(h, parts, k)->Ok_0.len() == 0);
    }
}

/// Every animation that is decoded plays one frame per step of its
/// header, not one per stored frame; step `i` shows the images of the
/// stored frame that the sequence names for it, for the milliseconds that
/// its tick count gives.
pub proof fn theorem_ani_sequencing(data: Seq<u8>)
    requires
        parse_ani(data) is Ok,
    ensures
        parse_ani(data)->Ok_0.len() == ani_header(data)->Ok_0.0.step_count,
        plays_in_order(
            ani_header(data)->Ok_0.0,
            walk(
                data,
                ani_header(data)->Ok_0.0,
                ani_header(data)->Ok_0.1,
                no_parts(),
            )->Ok_0,
            parse_ani(data)->Ok_0,
        ),
{
    let h = ani_header(data)->Ok_0.0;
    let start = ani_header(data)->Ok_0.1;
    let parts = walk(data, h, start, no_parts())->Ok_0;
    assert(parse_ani(data) == sequence(h, parts));
    lemma_steps_in_order(h, parts, h.step_count as int);
}

/// Two stored frames that three steps name in the order second, first,
/// second, for 6, 12 and 6 ticks, play as three frames: the second for
/// 100 ms, the first for 200 ms, and the second for 100 ms again.
pub proof fn lemma_two_frames_in_three_steps(h: AnihHeader, parts: AniParts)
    requires
        h.step_count == 3,
        parts.frames.len() == 2,
        parts.order == Some(seq![1u32, 0u32, 1u32]),
        parts.delays == Some(seq![6u32, 12u32, 6u32]),
    ensures
        sequence(h, parts) == Ok::<Seq<CursorFrameView>, CursorError>(
            seq![
                CursorFrameView { images: parts.frames[1].images, delay: 100 },
                CursorFrameView { images: parts.frames[0].images, delay: 200 },
                CursorFrameView { images: parts.frames[1].images, delay: 100 },
            ],
        ),
{
    assert(steps_prefix(h, parts, 0) == Ok::<Seq<CursorFrameView>, CursorError>(Seq::empty()));
    assert(steps_prefix(h, parts, 1) is Ok);
    assert(steps_prefix(h, parts, 2) is Ok);
    assert(steps_prefix(h, parts, 3) is Ok);
    lemma_steps_in_order(h, parts, 3);
    let played = steps_prefix(h, parts, 3)->Ok_0;
    assert(played[0] == played_frame(h, parts, 0));
    assert(played[1] == played_frame(h, parts, 1));
    assert(played[2] == played_frame(h, parts, 2));
    assert(played =~= seq![
        CursorFrameView { images: parts.frames[1].images, delay: 100 },
        CursorFrameView { images: parts.frames[0].images, delay: 200 },
        CursorFrameView { images: parts.frames[1].images, delay: 100 },
    ]);
}

/// Whether an icon chunk starts at `pos` and lies inside the buffer.
pub open spec fn is_icon_chunk(data: Seq<u8>, pos: int) -> bool {
    &&& 0 <= pos
    &&& pos + 8 <= data.len()
    &&& le_u32(data, pos) == TAG_ICON
    &&& pos + 8 + le_u32(data, pos + 4) <= data.len()
}

/// The warnings that the directories of the first `k` icon chunks from
/// `start` on deserve, and where the next chunk starts; nowhere, once a
/// chunk is no icon chunk or reaches past the end of the buffer.
pub open spec fn icon_warnings(data: Seq<u8>, start: int, k: int) -> (Seq<Seq<char>>, Option<int>)
    decreases k,
{
    if k <= 0 {
        (Seq::empty(), Some(start))
    } else {
        let (lines, at) = icon_warnings(data, start, k - 1);
        match at {
            None => (lines, None),
            Some(pos) => if !is_icon_chunk(data, pos) {
                (lines, None)
            } else {
                (
                    lines + color_warnings(
                        data.subrange(pos + 8, pos + 8 + le_u32(data, pos + 4)),
                    ),
                    Some(next_pos(data.len() as int, pos + 8 + le_u32(data, pos + 4))),
                )
            },
        }
    }
}

/// Reading icon chunks only moves forward, and stays inside the buffer.
pub proof fn lemma_icon_warnings_bounds(data: Seq<u8>, start: int, k: int)
    requires
        0 <= start <= data.len(),
    ensures
        icon_warnings(data, start, k).1 matches Some(pos) ==> start <= pos <= data.len(),
    decreases k,
{
    if k > 0 {
        lemma_icon_warnings_bounds(data, start, k - 1);
    }
}

/// Once a chunk is malformed, no later chunk is read.
pub proof fn lemma_icon_warnings_stop(data: Seq<u8>, start: int, k: int, n: int)
    requires
        0 <= k <= n,
        icon_warnings(data, start, k).1 is None,
    ensures
        icon_warnings(data, start, n) == icon_warnings(data, start, k),
    decreases n - k,
{
    if k < n {
        lemma_icon_warnings_stop(data, start, k, n - 1);
    }
}

/// The warnings that the chunks from `pos` on deserve: those of the icon
/// chunks of every list of frames, as far as the chunks are well formed.
/// The chunks are walked as they are for decoding, but no image is
/// decoded.
pub open spec fn list_warnings(data: Seq<u8>, h: AnihHeader, pos: int) -> Seq<Seq<char>>
    decreases data.len() - pos,
{
    let len = data.len() as int;
    if pos < 0 || pos >= len {
        Seq::empty()
    } else {
        match find_chunk(data, pos, false) {
            None => Seq::empty(),
            Some(c) => {
                let at = c.data_start;
                proof {
                    lemma_find_chunk_bounds(data, pos, false);
                }
                if c.tag == TAG_LIST {
                    if at + 4 > len {
                        Seq::empty()
                    } else if le_u32(data, at) == TAG_FRAM {
                        proof {
                            lemma_icon_warnings_bounds(data, at + 4, h.frame_count as int);
                        }
                        match icon_warnings(data, at + 4, h.frame_count as int).1 {
                            None => icon_warnings(data, at + 4, h.frame_count as int).0,
                            Some(next) => icon_warnings(data, at + 4, h.frame_count as int).0
                                + list_warnings(data, h, next_pos(len, next)),
                        }
                    } else {
                        list_warnings(data, h, next_pos(len, at + 4))
                    }
                } else if at + 4 * h.step_count > len {
                    Seq::empty()
                } else {
                    list_warnings(data, h, next_pos(len, at + 4 * h.step_count))
                }
            },
        }
    }
}

/// The warnings that an `.ani` file deserves: those of the directories of
/// its icon chunks. A buffer without a valid animation header has none.
pub open spec fn ani_color_warnings(data: Seq<u8>) -> Seq<Seq<char>> {
    match ani_header(data) {
        Err(_) => Seq::empty(),
        Ok((header, start)) => list_warnings(data, header, start),
    }
}

/// A chunk as the decoder holds it.
#[derive(Clone, Copy, Debug)]
struct FoundChunk {
    tag: u32,
    size: u32,
    data_start: usize,
}

impl View for FoundChunk {
    type V = ChunkRef;

    closed spec fn view(&self) -> ChunkRef {
        ChunkRef { tag: self.tag, size: self.size, data_start: self.data_start as int }
    }
}

/// Computes [`next_pos`] for the position `skip` bytes behind `base`.
fn advance(len: usize, base: usize, skip: u64) -> (r: usize)
    requires
        base <= len,
    ensures
        r == next_pos(len as int, base + skip),
{
    let room = len - base;
    if skip >= room as u64 {
        len
    } else {
        let pos = base + skip as usize;
        if pos % 2 != 0 {
            pos + 1
        } else {
            pos
        }
    }
}

/// Appends copies of the lines of a list to another.
fn append_lines(lines: &mut Vec<String>, more: &Vec<String>)
    ensures
        final(lines).deep_view() == old(lines).deep_view() + more.deep_view(),
{
    let mut i: usize = 0;
    assert(lines.deep_view() =~= old(lines).deep_view() + more.deep_view().take(0));
    while i < more.len()
        invariant
            i <= more@.len(),
            lines.deep_view() == old(lines).deep_view() + more.deep_view().take(i as int),
        decreases more@.len() - i,
    {
        let ghost before = lines.deep_view();
        lines.push(more[i].clone());
        assert(lines.deep_view() =~= before.push(more@[i as int]@));
        assert(more.deep_view()[i as int] == more@[i as int]@);
        assert(lines.deep_view() =~= old(lines).deep_view() + more.deep_view().take(i + 1));
        i += 1;
    }
    assert(more.deep_view().take(more@.len() as int) =~= more.deep_view());
}

/// Tests whether a tag is looked for.
fn is_wanted(tag: u32, header: bool) -> (r: bool)
    ensures
        r == wanted(tag, header),
{
    if header {
        tag == TAG_ANIH
    } else {
        tag == TAG_LIST || tag == TAG_SEQ || tag == TAG_RATE
    }
}

/// What the decoder has collected from the chunks behind the header.
struct Parts {
    frames: Vec<CursorFrame>,
    order: Option<Vec<u32>>,
    delays: Option<Vec<u32>>,
}

impl View for Parts {
    type V = AniParts;

    closed spec fn view(&self) -> AniParts {
        parts_of(self.frames@, self.order, self.delays)
    }
}

/// What one step of the decoder's walk gives.
enum Step {
    Done,
    Next(usize),
    Failed(CursorError),
}

/// The decoder for animated `.ani` files.
pub struct AniParser;

impl AniParser {
    /// Whether `data` opens like a RIFF container of type `ACON`.
    pub fn can_parse(data: &[u8]) -> (r: bool)
        ensures
            r == (has_bytes_at(data@, 0, riff_signature()) && has_bytes_at(
                data@,
                8,
                acon_type(),
            )),
    {
        let signature: [u8; 4] = [0x52, 0x49, 0x46, 0x46];
        let ani_type: [u8; 4] = [0x41, 0x43, 0x4F, 0x4E];
        assert(signature@ =~= riff_signature());
        assert(ani_type@ =~= acon_type());
        bytes_at(data, 0, signature.as_slice()) && bytes_at(data, 8, ani_type.as_slice())
    }

    /// Decodes an `.ani` file into its played sequence: one frame per
    /// step, in playing order, each with its delay in milliseconds.
    ///
    /// The frames are exactly those that [`parse_ani`] names; every error
    /// is the one that [`parse_ani`] names.
    pub fn parse(data: &[u8]) -> (r: Result<Vec<CursorFrame>, CursorError>)
        ensures
            match parse_ani(data@) {
                Ok(frames) => r is Ok && frame_views(r->Ok_0@) == frames,
                Err(e) => r is Err && r->Err_0 == e,
            },
    {
        let (header, start) = match Self::read_anih_header(data) {
            Ok(found) => found,
            Err(e) => {
                return Err(e);
            },
        };
        let parts = match Self::read_chunks(data, &header, start) {
            Ok(parts) => parts,
            Err(e) => {
                return Err(e);
            },
        };
        Self::build_sequence(&header, &parts)
    }

    /// The warnings that an `.ani` file deserves: one line for every
    /// directory entry of an icon chunk that declares a single colour.
    /// Such a file is still decoded.
    pub fn color_warnings(data: &[u8]) -> (lines: Vec<String>)
        ensures
            lines.deep_view() == ani_color_warnings(data@),
    {
        let mut lines: Vec<String> = Vec::new();
        assert(lines.deep_view() =~= Seq::<Seq<char>>::empty());
        let (header, start) = match Self::read_anih_header(data) {
            Ok(found) => found,
            Err(_) => {
                return lines;
            },
        };
        let len = data.len();
        let mut pos: usize = start;
        assert(lines.deep_view() + list_warnings(data@, header, pos as int) =~= list_warnings(
            data@,
            header,
            start as int,
        ));
        loop
            invariant
                pos <= data@.len(),
                len == data@.len(),
                ani_color_warnings(data@) == list_warnings(data@, header, start as int),
                lines.deep_view() + list_warnings(data@, header, pos as int) == list_warnings(
                    data@,
                    header,
                    start as int,
                ),
            decreases data@.len() - pos,
        {
            let ghost rest = list_warnings(data@, header, pos as int);
            let ghost before = lines.deep_view();
            if pos >= len {
                assert(lines.deep_view() =~= before + rest);
                return lines;
            }
            let chunk = match Self::read_expected_chunk(data, pos, false) {
                Some(c) => c,
                None => {
                    assert(lines.deep_view() =~= before + rest);
                    return lines;
                },
            };
            let at = chunk.data_start;
            let next = if chunk.tag == TAG_LIST {
                if len - at < 4 {
                    assert(lines.deep_view() =~= before + rest);
                    return lines;
                }
                if read_u32_le(data, at) == TAG_FRAM {
                    proof {
                        lemma_icon_warnings_bounds(data@, at + 4, header.frame_count as int);
                    }
                    let (more, end) = Self::read_icon_warnings(data, at + 4, header.frame_count);
                    append_lines(&mut lines, &more);
                    match end {
                        None => {
                            assert(lines.deep_view() =~= before + rest);
                            return lines;
                        },
                        Some(end) => advance(len, end, 0),
                    }
                } else {
                    advance(len, at, 4)
                }
            } else {
                let need: u64 = 4 * (header.step_count as u64);
                if need > (len - at) as u64 {
                    assert(lines.deep_view() =~= before + rest);
                    return lines;
                }
                advance(len, at, need)
            };
            assert(lines.deep_view() + list_warnings(data@, header, next as int) =~= before
                + rest);
            pos = next;
        }
    }

    /// Collects the warnings of `count` icon chunks from `start` on.
    fn read_icon_warnings(data: &[u8], start: usize, count: u32) -> (r: (
        Vec<String>,
        Option<usize>,
    ))
        requires
            start <= data@.len(),
        ensures
            r.0.deep_view() == icon_warnings(data@, start as int, count as int).0,
            match icon_warnings(data@, start as int, count as int).1 {
                Some(pos) => r.1 == Some(pos as usize) && start <= pos <= data@.len(),
                None => r.1 is None,
            },
    {
        let len = data.len();
        let mut lines: Vec<String> = Vec::new();
        let mut pos: usize = start;
        let mut i: u32 = 0;
        assert(lines.deep_view() =~= Seq::<Seq<char>>::empty());
        while i < count
            invariant
                i <= count,
                start <= pos <= data@.len(),
                len == data@.len(),
                icon_warnings(data@, start as int, i as int) == (
                    lines.deep_view(),
                    Some(pos as int),
                ),
            decreases count - i,
        {
            if len - pos < 8 {
                proof {
                    lemma_icon_warnings_stop(data@, start as int, i + 1, count as int);
                }
                return (lines, None);
            }
            let name = read_u32_le(data, pos);
            let size = read_u32_le(data, pos + 4);
            if name != TAG_ICON || size as u64 > (len - (pos + 8)) as u64 {
                proof {
                    lemma_icon_warnings_stop(data@, start as int, i + 1, count as int);
                }
                return (lines, None);
            }
            let begin = pos + 8;
            let end = begin + size as usize;
            let icon_data = vstd::slice::slice_subrange(data, begin, end);
            let more = CurParser::color_warnings(icon_data);
            let ghost before = lines.deep_view();
            append_lines(&mut lines, &more);
            pos = advance(len, begin, size as u64);
            assert(is_icon_chunk(data@, begin - 8));
            assert(icon_warnings(data@, start as int, i + 1) == (
                before + more.deep_view(),
                Some(pos as int),
            ));
            i += 1;
        }
        (lines, Some(pos))
    }

    /// Finds and checks the animation header.
    fn read_anih_header(data: &[u8]) -> (r: Result<(AnihHeader, usize), CursorError>)
        ensures
            match ani_header(data@) {
                Ok((h, start)) => r is Ok && r->Ok_0.0 == h && r->Ok_0.1 == start && start
                    <= data@.len(),
                Err(e) => r is Err && r->Err_0 == e,
            },
    {
        if !Self::can_parse(data) {
            return Err(CursorError::Format);
        }
        let len = data.len();
        let found = match Self::read_expected_chunk(data, 12, true) {
            Some(c) => c,
            None => {
                return Err(CursorError::Truncated);
            },
        };
        let at = found.data_start;
        if len - at < ANIH_SIZE as usize {
            return Err(CursorError::Truncated);
        }
        let header = AnihHeader {
            size: read_u32_le(data, at),
            frame_count: read_u32_le(data, at + 4),
            step_count: read_u32_le(data, at + 8),
            width: read_u32_le(data, at + 12),
            height: read_u32_le(data, at + 16),
            bit_count: read_u32_le(data, at + 20),
            planes: read_u32_le(data, at + 24),
            display_rate: read_u32_le(data, at + 28),
            flags: read_u32_le(data, at + 32),
        };
        match header.validate() {
            Ok(()) => {},
            Err(e) => {
                return Err(e);
            },
        }
        if (header.flags & ICON_FLAG) == 0 {
            return Err(CursorError::Format);
        }
        Ok((header, at + ANIH_SIZE as usize))
    }

    /// Walks over the chunks behind the header.
    fn read_chunks(data: &[u8], header: &AnihHeader, start: usize) -> (r: Result<
        Parts,
        CursorError,
    >)
        requires
            start <= data@.len(),
        ensures
            match walk(data@, *header, start as int, no_parts()) {
                Ok(parts) => r is Ok && r->Ok_0@ == parts,
                Err(e) => r is Err && r->Err_0 == e,
            },
    {
        let mut parts = Parts { frames: Vec::new(), order: None, delays: None };
        let mut pos: usize = start;
        assert(frame_views(parts.frames@) =~= Seq::empty());
        loop
            invariant
                pos <= data@.len(),
                walk(data@, *header, pos as int, parts@) == walk(
                    data@,
                    *header,
                    start as int,
                    no_parts(),
                ),
            decreases data@.len() - pos,
        {
            proof {
                lemma_walk_step_advances(data@, *header, pos as int, parts@);
            }
            match Self::read_chunk(data, header, pos, &mut parts) {
                Step::Done => {
                    return Ok(parts);
                },
                Step::Failed(e) => {
                    return Err(e);
                },
                Step::Next(next) => {
                    pos = next;
                },
            }
        }
    }

    /// Reads the next wanted chunk from `pos` on into `parts`.
    fn read_chunk(data: &[u8], header: &AnihHeader, pos: usize, parts: &mut Parts) -> (r: Step)
        requires
            pos <= data@.len(),
        ensures
            match walk_step(data@, *header, pos as int, old(parts)@) {
                WalkStep::Done => r is Done && final(parts)@ == old(parts)@,
                WalkStep::Failed(e) => r is Failed && r->Failed_0 == e,
                WalkStep::Next(more, next) => r is Next && r->Next_0 == next && final(parts)@
                    == more,
            },
    {
        reveal(walk_step);
        let len = data.len();
        if pos >= len {
            return Step::Done;
        }
        let chunk = match Self::read_expected_chunk(data, pos, false) {
            Some(c) => c,
            None => {
                return Step::Done;
            },
        };
        let at = chunk.data_start;
        if chunk.tag == TAG_LIST {
            if len - at < 4 {
                return Step::Failed(CursorError::Truncated);
            }
            let list_type = read_u32_le(data, at);
            if list_type == TAG_FRAM {
                match Self::read_frames(data, at + 4, header.frame_count) {
                    Err(e) => Step::Failed(e),
                    Ok((read, next)) => {
                        parts.frames = read;
                        Step::Next(advance(len, next, 0))
                    },
                }
            } else {
                Step::Next(advance(len, at, 4))
            }
        } else {
            let need: u64 = 4 * (header.step_count as u64);
            if need > (len - at) as u64 {
                return Step::Failed(CursorError::Truncated);
            }
            let list = Self::read_words(data, at, header.step_count);
            if chunk.tag == TAG_SEQ {
                parts.order = Some(list);
            } else {
                parts.delays = Some(list);
            }
            Step::Next(advance(len, at, need))
        }
    }

    /// Builds the played sequence from the collected parts.
    fn build_sequence(header: &AnihHeader, parts: &Parts) -> (r: Result<
        Vec<CursorFrame>,
        CursorError,
    >)
        ensures
            match sequence(*header, parts@) {
                Ok(frames) => r is Ok && frame_views(r->Ok_0@) == frames,
                Err(e) => r is Err && r->Err_0 == e,
            },
    {
        let steps = header.step_count as usize;
        let order_matches = match &parts.order {
            Some(list) => list.len() == steps,
            None => header.frame_count == header.step_count,
        };
        let delays_match = match &parts.delays {
            Some(list) => list.len() == steps,
            None => true,
        };
        if !order_matches || !delays_match {
            return Err(CursorError::Validation);
        }
        let mut played: Vec<CursorFrame> = Vec::new();
        let mut i: u32 = 0;
        assert(frame_views(played@) =~= Seq::empty());
        while i < header.step_count
            invariant
                i <= header.step_count,
                parts.order matches Some(list) ==> list@.len() == header.step_count,
                parts.delays matches Some(list) ==> list@.len() == header.step_count,
                steps_prefix(*header, parts@, i as int) == Ok::<
                    Seq<CursorFrameView>,
                    CursorError,
                >(frame_views(played@)),
            decreases header.step_count - i,
        {
            let index: usize = match &parts.order {
                Some(list) => list[i as usize] as usize,
                None => i as usize,
            };
            let ticks: u32 = match &parts.delays {
                Some(list) => list[i as usize],
                None => header.display_rate,
            };
            if index >= parts.frames.len() {
                proof {
                    lemma_steps_error(*header, parts@, i + 1, header.step_count as int);
                }
                return Err(CursorError::Validation);
            }
            let mut frame = parts.frames[index].clone();
            frame.delay = delay_ms(ticks);
            let ghost before = frame_views(played@);
            played.push(frame);
            assert(frame_views(played@) =~= before.push(frame@));
            i += 1;
        }
        Ok(played)
    }

    /// Finds the first wanted chunk at or after `pos`.
    fn read_expected_chunk(data: &[u8], pos: usize, header: bool) -> (r: Option<FoundChunk>)
        ensures
            r is Some <==> find_chunk(data@, pos as int, header) is Some,
            r matches Some(c) ==> find_chunk(data@, pos as int, header) == Some(c@) && pos + 8
                <= c.data_start <= data@.len() && wanted(c.tag, header),
    {
        let len = data.len();
        let mut at = pos;
        loop
            invariant
                len == data@.len(),
                find_chunk(data@, at as int, header) == find_chunk(data@, pos as int, header),
            decreases data@.len() - at,
        {
            if len < 8 || at > len - 8 {
                return None;
            }
            let tag = read_u32_le(data, at);
            let size = read_u32_le(data, at + 4);
            if is_wanted(tag, header) {
                proof {
                    lemma_find_chunk_bounds(data@, pos as int, header);
                }
                return Some(FoundChunk { tag, size, data_start: at + 8 });
            }
            let next = advance(len, at + 8, size as u64);
            if next >= len {
                return None;
            }
            at = next;
        }
    }

    /// Reads `count` icon chunks from `start` on.
    fn read_frames(data: &[u8], start: usize, count: u32) -> (r: Result<
        (Vec<CursorFrame>, usize),
        CursorError,
    >)
        requires
            start <= data@.len(),
        ensures
            match frames_prefix(data@, start as int, count as int) {
                Ok((frames, next)) => r is Ok && frame_views(r->Ok_0.0@) == frames && r->Ok_0.1
                    == next && next <= data@.len(),
                Err(e) => r is Err && r->Err_0 == e,
            },
    {
        let mut frames: Vec<CursorFrame> = Vec::new();
        let mut pos: usize = start;
        let mut i: u32 = 0;
        assert(frame_views(frames@) =~= Seq::empty());
        while i < count
            invariant
                i <= count,
                pos <= data@.len(),
                frames_prefix(data@, start as int, i as int) == Ok::<
                    (Seq<CursorFrameView>, int),
                    CursorError,
                >((frame_views(frames@), pos as int)),
            decreases count - i,
        {
            match Self::read_icon(data, pos) {
                Err(e) => {
                    proof {
                        lemma_frames_error(data@, start as int, i + 1, count as int);
                    }
                    return Err(e);
                },
                Ok((frame, next)) => {
                    let ghost before = frame_views(frames@);
                    frames.push(frame);
                    assert(frame_views(frames@) =~= before.push(frame@));
                    pos = next;
                },
            }
            i += 1;
        }
        Ok((frames, pos))
    }

    /// Reads the icon chunk at `pos`.
    fn read_icon(data: &[u8], pos: usize) -> (r: Result<(CursorFrame, usize), CursorError>)
        requires
            pos <= data@.len(),
        ensures
            match icon_frame(data@, pos as int) {
                Ok((frame, next)) => r is Ok && r->Ok_0.0@ == frame && r->Ok_0.1 == next && next
                    <= data@.len(),
                Err(e) => r is Err && r->Err_0 == e,
            },
    {
        reveal(icon_frame);
        let len = data.len();
        if len - pos < 8 {
            return Err(CursorError::Truncated);
        }
        let name = read_u32_le(data, pos);
        let size = read_u32_le(data, pos + 4);
        if name != TAG_ICON {
            return Err(CursorError::Format);
        }
        let begin = pos + 8;
        if size as u64 > (len - begin) as u64 {
            return Err(CursorError::Truncated);
        }
        let end = begin + size as usize;
        let icon_data = vstd::slice::slice_subrange(data, begin, end);
        let mut cur_frames = match CurParser::parse(icon_data) {
            Ok(f) => f,
            Err(e) => {
                return Err(e);
            },
        };
        let frame = cur_frames.remove(0);
        Ok((frame, advance(len, begin, size as u64)))
    }

    /// Reads `count` 32-bit words from `at` on.
    fn read_words(data: &[u8], at: usize, count: u32) -> (list: Vec<u32>)
        requires
            at + 4 * count <= data@.len(),
        ensures
            list@ == words(data@, at as int, count as int),
    {
        let mut list: Vec<u32> = Vec::new();
        let mut i: u32 = 0;
        while i < count
            invariant
                i <= count,
                at + 4 * count <= data@.len() == data.len(),
                list@.len() == i,
                forall|k: int| 0 <= k < i ==> list@[k] == le_u32(data@, at + 4 * k) as u32,
            decreases count - i,
        {
            list.push(read_u32_le(data, at + 4 * (i as usize)));
            i += 1;
        }
        assert(list@ =~= words(data@, at as int, count as int));
        list
    }
}

/// The parts that the decoder has collected, as the contracts see them.
pub open spec fn parts_of(
    frames: Seq<CursorFrame>,
    order: Option<Vec<u32>>,
    delays: Option<Vec<u32>>,
) -> AniParts {
    AniParts {
        frames: frame_views(frames),
        order: match order {
            Some(list) => Some(list@),
            None => None,
        },
        delays: match delays {
            Some(list) => Some(list@),
            None => None,
        },
    }
}

} // verus!
