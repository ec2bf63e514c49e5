//! An animation of two frames in three steps, followed from its bytes to
//! the played sequence.

use crate::bytes::{has_bytes_at, le_u32};
use crate::error::CursorError;
use crate::pipeline::win2xcur::ani::{
    acon_type, ani_header, find_chunk, frames_prefix, header_at, icon_frame,
    lemma_two_frames_in_three_steps, next_pos, no_parts, parse_ani, riff_signature, sequence,
    walk, walk_step, words, AniParts, AnihHeader, ChunkRef, WalkStep, ICON_FLAG, TAG_ANIH,
    TAG_FRAM,
    TAG_ICON, TAG_LIST, TAG_RATE, TAG_SEQ,
};
use crate::pipeline::win2xcur::cur::{parse_cur, CursorFrameView, CursorImageView};
use vstd::prelude::*;

verus! {

/// Where the second icon chunk of the frame list starts, behind a first
/// icon chunk with the data `first`.
pub open spec fn second_icon(data: Seq<u8>, first: Seq<u8>) -> int {
    next_pos(data.len() as int, 76 + first.len() as int)
}

/// Where the chunks behind the frame list start.
pub open spec fn behind_frames(data: Seq<u8>, first: Seq<u8>, second: Seq<u8>) -> int {
    next_pos(data.len() as int, second_icon(data, first) + 8 + second.len() as int)
}

/// Whether a buffer is an animation of two frames in three steps in the
/// usual layout: the container header; the animation header, which
/// declares its size as 36, two frames, three steps and icon frames; the
/// frame list with two icon chunks that hold `first` and `second`; the
/// frame order second, first, second; and the tick counts 6, 12, 6.
pub open spec fn is_two_frame_animation(data: Seq<u8>, first: Seq<u8>, second: Seq<u8>) -> bool {
    let icon = second_icon(data, first);
    let order = behind_frames(data, first, second);
    &&& has_bytes_at(data, 0, riff_signature())
    &&& has_bytes_at(data, 8, acon_type())
    &&& le_u32(data, 12) == TAG_ANIH
    &&& header_at(data, 20).size == 36
    &&& header_at(data, 20).frame_count == 2
    &&& header_at(data, 20).step_count == 3
    &&& header_at(data, 20).flags & ICON_FLAG != 0
    &&& le_u32(data, 56) == TAG_LIST
    &&& le_u32(data, 64) == TAG_FRAM
    &&& le_u32(data, 68) == TAG_ICON
    &&& le_u32(data, 72) == first.len()
    &&& 76 + first.len() < data.len()
    &&& data.subrange(76, 76 + first.len() as int) == first
    &&& icon + 8 <= data.len()
    &&& le_u32(data, icon) == TAG_ICON
    &&& le_u32(data, icon + 4) == second.len()
    &&& icon + 8 + second.len() < data.len()
    &&& data.subrange(icon + 8, icon + 8 + second.len() as int) == second
    &&& order + 40 == data.len()
    &&& le_u32(data, order) == TAG_SEQ
    &&& words(data, order + 8, 3) == seq![1u32, 0u32, 1u32]
    &&& le_u32(data, order + 20) == TAG_RATE
    &&& words(data, order + 28, 3) == seq![6u32, 12u32, 6u32]
}

/// The frames that the frame list of such an animation holds.
pub proof fn lemma_two_frames_are_read(
    data: Seq<u8>,
    first: Seq<u8>,
    second: Seq<u8>,
    one: Seq<CursorImageView>,
    two: Seq<CursorImageView>,
)
    requires
        is_two_frame_animation(data, first, second),
        parse_cur(first) == Ok::<Seq<CursorImageView>, CursorError>(one),
        parse_cur(second) == Ok::<Seq<CursorImageView>, CursorError>(two),
    ensures
        frames_prefix(data, 68, 2) == Ok::<(Seq<CursorFrameView>, int), CursorError>(
            (
                seq![
                    CursorFrameView { images: one, delay: 0 },
                    CursorFrameView { images: two, delay: 0 },
                ],
                behind_frames(data, first, second),
            ),
        ),
{
    reveal(icon_frame);
    let icon = second_icon(data, first);
    let empty = Seq::<CursorFrameView>::empty();
    assert(frames_prefix(data, 68, 0) == Ok::<(Seq<CursorFrameView>, int), CursorError>(
        (empty, 68),
    ));
    assert(icon_frame(data, 68) == Ok::<(CursorFrameView, int), CursorError>(
        (CursorFrameView { images: one, delay: 0 }, icon),
    ));
    assert(frames_prefix(data, 68, 1) == Ok::<(Seq<CursorFrameView>, int), CursorError>(
        (empty.push(CursorFrameView { images: one, delay: 0 }), icon),
    ));
    assert(icon_frame(data, icon) == Ok::<(CursorFrameView, int), CursorError>(
        (CursorFrameView { images: two, delay: 0 }, behind_frames(data, first, second)),
    ));
    assert(empty.push(CursorFrameView { images: one, delay: 0 }).push(
        CursorFrameView { images: two, delay: 0 },
    ) =~= seq![
        CursorFrameView { images: one, delay: 0 },
        CursorFrameView { images: two, delay: 0 },
    ]);
}

/// What the walk has collected behind the frame list.
pub open spec fn frames_read(one: Seq<CursorImageView>, two: Seq<CursorImageView>) -> AniParts {
    AniParts {
        frames: seq![
            CursorFrameView { images: one, delay: 0 },
            CursorFrameView { images: two, delay: 0 },
        ],
        order: None,
        delays: None,
    }
}

/// What the walk has collected behind the frame order.
pub open spec fn order_read(one: Seq<CursorImageView>, two: Seq<CursorImageView>) -> AniParts {
    AniParts { order: Some(seq![1u32, 0u32, 1u32]), ..frames_read(one, two) }
}

/// What the walk has collected behind the tick counts.
pub open spec fn all_read(one: Seq<CursorImageView>, two: Seq<CursorImageView>) -> AniParts {
    AniParts { delays: Some(seq![6u32, 12u32, 6u32]), ..order_read(one, two) }
}

/// The animation header of such an animation is found, and the chunks
/// behind it start at byte 56.
pub proof fn lemma_header_is_found(data: Seq<u8>, first: Seq<u8>, second: Seq<u8>)
    requires
        is_two_frame_animation(data, first, second),
    ensures
        ani_header(data) == Ok::<(AnihHeader, int), CursorError>((header_at(data, 20), 56)),
{
    assert(find_chunk(data, 12, true) == Some(
        ChunkRef { tag: TAG_ANIH, size: le_u32(data, 16) as u32, data_start: 20 },
    ));
}

/// The first step of the walk reads the frame list.
pub proof fn lemma_frames_step(
    data: Seq<u8>,
    first: Seq<u8>,
    second: Seq<u8>,
    one: Seq<CursorImageView>,
    two: Seq<CursorImageView>,
)
    requires
        is_two_frame_animation(data, first, second),
        parse_cur(first) == Ok::<Seq<CursorImageView>, CursorError>(one),
        parse_cur(second) == Ok::<Seq<CursorImageView>, CursorError>(two),
    ensures
        walk_step(data, header_at(data, 20), 56, no_parts()) == WalkStep::Next(
            frames_read(one, two),
            behind_frames(data, first, second),
        ),
{
    reveal(walk_step);
    let len = data.len() as int;
    let order = behind_frames(data, first, second);
    lemma_two_frames_are_read(data, first, second, one, two);
    assert(find_chunk(data, 56, false) == Some(
        ChunkRef { tag: TAG_LIST, size: le_u32(data, 60) as u32, data_start: 64 },
    ));
    lemma_next_pos_even(len, 76 + first.len() as int);
    lemma_next_pos_even(len, second_icon(data, first) + 8 + second.len() as int);
}

/// A `seq ` chunk at the position of the walk gives the frame order, and
/// the walk goes on behind its words.
pub proof fn lemma_seq_chunk_is_read(data: Seq<u8>, h: AnihHeader, pos: int, parts: AniParts)
    requires
        0 <= pos,
        pos + 8 + 4 * h.step_count <= data.len(),
        le_u32(data, pos) == TAG_SEQ,
    ensures
        walk_step(data, h, pos, parts) == WalkStep::Next(
            AniParts { order: Some(words(data, pos + 8, h.step_count as int)), ..parts },
            next_pos(data.len() as int, pos + 8 + 4 * h.step_count),
        ),
{
    reveal(walk_step);
    assert(find_chunk(data, pos, false) == Some(
        ChunkRef { tag: TAG_SEQ, size: le_u32(data, pos + 4) as u32, data_start: pos + 8 },
    ));
}

/// A `rate` chunk at the position of the walk gives the tick counts, and
/// the walk goes on behind its words.
pub proof fn lemma_rate_chunk_is_read(data: Seq<u8>, h: AnihHeader, pos: int, parts: AniParts)
    requires
        0 <= pos,
        pos + 8 + 4 * h.step_count <= data.len(),
        le_u32(data, pos) == TAG_RATE,
    ensures
        walk_step(data, h, pos, parts) == WalkStep::Next(
            AniParts { delays: Some(words(data, pos + 8, h.step_count as int)), ..parts },
            next_pos(data.len() as int, pos + 8 + 4 * h.step_count),
        ),
{
    reveal(walk_step);
    assert(find_chunk(data, pos, false) == Some(
        ChunkRef { tag: TAG_RATE, size: le_u32(data, pos + 4) as u32, data_start: pos + 8 },
    ));
}

/// The walk ends at the end of the buffer.
pub proof fn lemma_walk_ends(data: Seq<u8>, h: AnihHeader, parts: AniParts)
    ensures
        walk_step(data, h, data.len() as int, parts) == WalkStep::Done,
{
    reveal(walk_step);
}

/// Reading goes on at an even position, or at the end of the buffer.
pub proof fn lemma_next_pos_even(len: int, pos: int)
    requires
        0 <= pos < len,
    ensures
        next_pos(len, pos) % 2 == 0,
        pos <= next_pos(len, pos) <= len,
        next_pos(len, next_pos(len, pos)) == next_pos(len, pos),
{
}

/// From an even position inside the buffer reading goes on there.
pub proof fn lemma_next_pos_stays(len: int, pos: int)
    requires
        0 <= pos < len,
        pos % 2 == 0,
    ensures
        next_pos(len, pos) == pos,
{
}

/// The second step of the walk reads the frame order.
pub proof fn lemma_order_step(
    data: Seq<u8>,
    first: Seq<u8>,
    second: Seq<u8>,
    one: Seq<CursorImageView>,
    two: Seq<CursorImageView>,
)
    requires
        is_two_frame_animation(data, first, second),
    ensures
        walk_step(
            data,
            header_at(data, 20),
            behind_frames(data, first, second),
            frames_read(one, two),
        ) == WalkStep::Next(order_read(one, two), behind_frames(data, first, second) + 20),
{
    let len = data.len() as int;
    let h = header_at(data, 20);
    let order = behind_frames(data, first, second);
    lemma_next_pos_even(len, 76 + first.len() as int);
    lemma_next_pos_even(len, second_icon(data, first) + 8 + second.len() as int);
    assert((order + 20) % 2 == 0);
    lemma_next_pos_stays(len, order + 20);
    lemma_seq_chunk_is_read(data, h, order, frames_read(one, two));
    assert(h.step_count == 3);
    assert(words(data, order + 8, h.step_count as int) == seq![1u32, 0u32, 1u32]);
}

/// The third step of the walk reads the tick counts, and reaches the end.
pub proof fn lemma_rate_step(
    data: Seq<u8>,
    first: Seq<u8>,
    second: Seq<u8>,
    one: Seq<CursorImageView>,
    two: Seq<CursorImageView>,
)
    requires
        is_two_frame_animation(data, first, second),
    ensures
        walk_step(
            data,
            header_at(data, 20),
            behind_frames(data, first, second) + 20,
            order_read(one, two),
        ) == WalkStep::Next(all_read(one, two), data.len() as int),
        walk_step(data, header_at(data, 20), data.len() as int, all_read(one, two))
            == WalkStep::Done,
{
    let len = data.len() as int;
    let h = header_at(data, 20);
    let order = behind_frames(data, first, second);
    lemma_next_pos_even(len, 76 + first.len() as int);
    lemma_next_pos_even(len, second_icon(data, first) + 8 + second.len() as int);
    lemma_rate_chunk_is_read(data, h, order + 20, order_read(one, two));
    lemma_walk_ends(data, h, all_read(one, two));
    assert(h.step_count == 3);
    assert(words(data, order + 28, h.step_count as int) == seq![6u32, 12u32, 6u32]);
}

/// An animation of two frames whose three steps name the second, the
/// first and the second frame, for 6, 12 and 6 ticks, is decoded from its
/// bytes into three played frames: the images of the second frame for
/// 100 ms, those of the first for 200 ms, and those of the second for
/// 100 ms again. There is one played frame per step, not one per stored
/// frame.
pub proof fn theorem_two_frames_in_three_steps(
    data: Seq<u8>,
    first: Seq<u8>,
    second: Seq<u8>,
    one: Seq<CursorImageView>,
    two: Seq<CursorImageView>,
)
    requires
        is_two_frame_animation(data, first, second),
        parse_cur(first) == Ok::<Seq<CursorImageView>, CursorError>(one),
        parse_cur(second) == Ok::<Seq<CursorImageView>, CursorError>(two),
    ensures
        parse_ani(data) == Ok::<Seq<CursorFrameView>, CursorError>(
            seq![
                CursorFrameView { images: two, delay: 100 },
                CursorFrameView { images: one, delay: 200 },
                CursorFrameView { images: two, delay: 100 },
            ],
        ),
{
    let len = data.len() as int;
    let h = header_at(data, 20);
    let order = behind_frames(data, first, second);
    lemma_header_is_found(data, first, second);
    lemma_frames_step(data, first, second, one, two);
    lemma_order_step(data, first, second, one, two);
    lemma_rate_step(data, first, second, one, two);
    assert(walk(data, h, len, all_read(one, two)) == Ok::<AniParts, CursorError>(
        all_read(one, two),
    ));
    assert(walk(data, h, order + 20, order_read(one, two)) == walk(
        data,
        h,
        len,
        all_read(one, two),
    ));
    assert(walk(data, h, order, frames_read(one, two)) == walk(
        data,
        h,
        order + 20,
        order_read(one, two),
    ));
    assert(walk(data, h, 56, no_parts()) == walk(data, h, order, frames_read(one, two)));
    lemma_two_frames_in_three_steps(h, all_read(one, two));
    assert(parse_ani(data) == sequence(h, all_read(one, two)));
}

} // verus!
