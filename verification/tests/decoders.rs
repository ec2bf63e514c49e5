use ani2hyprtui::error::CursorError;
use ani2hyprtui::pipeline::raster::RgbaImage;
use ani2hyprtui::pipeline::win2xcur::ani::{delay_ms, AniParser, AnihHeader};
use ani2hyprtui::pipeline::win2xcur::converter::windows_cursor_warnings;
use ani2hyprtui::pipeline::win2xcur::cur::{CurParser, IconDirEntry};
use ani2hyprtui::pipeline::win2xcur::dib::{
    apply_and_mask, calculate_palette_size, create_bmp_from_dib,
};
use ani2hyprtui::pipeline::xcur2png::png_writer::png_file;

/// A bitmap header of 40 bytes.
fn dib_header(width: i32, doubled_height: i32, bits: u16, colors_used: u32) -> Vec<u8> {
    let mut h = Vec::new();
    h.extend_from_slice(&40u32.to_le_bytes());
    h.extend_from_slice(&width.to_le_bytes());
    h.extend_from_slice(&doubled_height.to_le_bytes());
    h.extend_from_slice(&1u16.to_le_bytes());
    h.extend_from_slice(&bits.to_le_bytes());
    h.extend_from_slice(&0u32.to_le_bytes());
    h.extend_from_slice(&0u32.to_le_bytes());
    h.extend_from_slice(&0u32.to_le_bytes());
    h.extend_from_slice(&0u32.to_le_bytes());
    h.extend_from_slice(&colors_used.to_le_bytes());
    h.extend_from_slice(&0u32.to_le_bytes());
    h
}

/// A 2 by 2 bitmap of 32 bits per pixel. Rows are stored from the bottom
/// up: the first stored row is the lower one.
fn dib32(and_mask: [u8; 2]) -> Vec<u8> {
    let mut d = dib_header(2, 4, 32, 0);
    // lower row: blue, white
    d.extend_from_slice(&[255, 0, 0, 0, 255, 255, 255, 0]);
    // upper row: red, green
    d.extend_from_slice(&[0, 0, 255, 0, 0, 255, 0, 0]);
    // mask, lower row first, each row padded to four bytes
    d.extend_from_slice(&[and_mask[0], 0, 0, 0]);
    d.extend_from_slice(&[and_mask[1], 0, 0, 0]);
    d
}

/// An 8 by 2 bitmap of 1 bit per pixel with a palette of black and white.
fn dib1(xor_rows: [u8; 2], and_rows: [u8; 2]) -> Vec<u8> {
    let mut d = dib_header(8, 4, 1, 0);
    d.extend_from_slice(&[0, 0, 0, 0, 255, 255, 255, 0]);
    d.extend_from_slice(&[xor_rows[0], 0, 0, 0]);
    d.extend_from_slice(&[xor_rows[1], 0, 0, 0]);
    d.extend_from_slice(&[and_rows[0], 0, 0, 0]);
    d.extend_from_slice(&[and_rows[1], 0, 0, 0]);
    d
}

fn cur_file(entries: &[(u8, u8, u16, u16, Vec<u8>)]) -> Vec<u8> {
    let mut out = vec![0, 0, 2, 0];
    out.extend_from_slice(&(entries.len() as u16).to_le_bytes());
    let mut offset = 6 + 16 * entries.len();
    for (w, h, hx, hy, payload) in entries {
        out.push(*w);
        out.push(*h);
        out.push(0);
        out.push(0);
        out.extend_from_slice(&hx.to_le_bytes());
        out.extend_from_slice(&hy.to_le_bytes());
        out.extend_from_slice(&(payload.len() as u32).to_le_bytes());
        out.extend_from_slice(&(offset as u32).to_le_bytes());
        offset += payload.len();
    }
    for (_, _, _, _, payload) in entries {
        out.extend_from_slice(payload);
    }
    out
}

fn chunk(tag: &[u8; 4], data: &[u8]) -> Vec<u8> {
    let mut c = tag.to_vec();
    c.extend_from_slice(&(data.len() as u32).to_le_bytes());
    c.extend_from_slice(data);
    if c.len() % 2 != 0 {
        c.push(0);
    }
    c
}

fn words(values: &[u32]) -> Vec<u8> {
    values.iter().flat_map(|v| v.to_le_bytes()).collect()
}

fn ani_file(
    header: [u32; 9],
    frames: &[Vec<u8>],
    seq: Option<&[u32]>,
    rate: Option<&[u32]>,
) -> Vec<u8> {
    let mut body = b"ACON".to_vec();
    body.extend_from_slice(&chunk(b"anih", &words(&header)));
    if let Some(rate) = rate {
        body.extend_from_slice(&chunk(b"rate", &words(rate)));
    }
    if let Some(seq) = seq {
        body.extend_from_slice(&chunk(b"seq ", &words(seq)));
    }
    let mut list = b"fram".to_vec();
    for frame in frames {
        list.extend_from_slice(&chunk(b"icon", frame));
    }
    body.extend_from_slice(&chunk(b"LIST", &list));
    let mut out = b"RIFF".to_vec();
    out.extend_from_slice(&(body.len() as u32).to_le_bytes());
    out.extend_from_slice(&body);
    out
}

fn header(frames: u32, steps: u32, rate: u32) -> [u32; 9] {
    [36, frames, steps, 0, 0, 0, 0, rate, 1]
}

fn frame_with_hotspot(x: u16) -> Vec<u8> {
    cur_file(&[(2, 2, x, 0, dib32([0, 0]))])
}

#[test]
fn cur_decodes_an_embedded_bitmap() {
    let data = cur_file(&[(2, 2, 1, 0, dib32([0, 0]))]);
    let frames = CurParser::parse(&data).unwrap();
    assert_eq!(frames.len(), 1);
    assert_eq!(frames[0].delay, 0);
    assert_eq!(frames[0].images.len(), 1);
    let image = &frames[0].images[0];
    assert_eq!(image.hotspot, (1, 0));
    assert_eq!(image.nominal_size, 2);
    assert_eq!(image.image.width(), 2);
    assert_eq!(image.image.height(), 2);
    assert_eq!(image.image.get_pixel(0, 0), [255, 0, 0, 255]);
    assert_eq!(image.image.get_pixel(1, 0), [0, 255, 0, 255]);
    assert_eq!(image.image.get_pixel(0, 1), [0, 0, 255, 255]);
    assert_eq!(image.image.get_pixel(1, 1), [255, 255, 255, 255]);
}

#[test]
fn cur_mask_bits_clear_alpha() {
    // The mask of the lower row marks the left pixel, that of the upper row
    // the right one. Bits count from the most significant one.
    let data = cur_file(&[(2, 2, 0, 0, dib32([0b1000_0000, 0b0100_0000]))]);
    let frames = CurParser::parse(&data).unwrap();
    let image = &frames[0].images[0].image;
    assert_eq!(image.get_pixel(0, 0), [255, 0, 0, 255]);
    assert_eq!(image.get_pixel(1, 0), [0, 255, 0, 0]);
    assert_eq!(image.get_pixel(0, 1), [0, 0, 255, 0]);
    assert_eq!(image.get_pixel(1, 1), [255, 255, 255, 255]);
}

#[test]
fn full_and_mask_makes_every_pixel_transparent() {
    let data = cur_file(&[(8, 2, 0, 0, dib1([0b1010_1010, 0b0101_0101], [0xFF, 0xFF]))]);
    let frames = CurParser::parse(&data).unwrap();
    let image = &frames[0].images[0].image;
    assert_eq!((image.width(), image.height()), (8, 2));
    for y in 0..2 {
        for x in 0..8 {
            assert_eq!(image.get_pixel(x, y)[3], 0);
        }
    }
}

#[test]
fn clear_and_mask_keeps_every_pixel_opaque() {
    let data = cur_file(&[(8, 2, 0, 0, dib1([0b1010_1010, 0b0101_0101], [0, 0]))]);
    let frames = CurParser::parse(&data).unwrap();
    let image = &frames[0].images[0].image;
    for y in 0..2 {
        for x in 0..8 {
            assert_eq!(image.get_pixel(x, y)[3], 255);
        }
    }
    // The upper row is stored last: 0101_0101.
    assert_eq!(image.get_pixel(0, 0), [0, 0, 0, 255]);
    assert_eq!(image.get_pixel(1, 0), [255, 255, 255, 255]);
    assert_eq!(image.get_pixel(0, 1), [255, 255, 255, 255]);
}

#[test]
fn mask_is_applied_to_an_image_in_place() {
    let mut image = RgbaImage::new(2, 2);
    for y in 0..2 {
        for x in 0..2 {
            image.put_pixel(x, y, [7, 8, 9, 200]);
        }
    }
    apply_and_mask(&mut image, &dib32([0b0100_0000, 0])).unwrap();
    assert_eq!(image.get_pixel(1, 1), [7, 8, 9, 0]);
    assert_eq!(image.get_pixel(0, 1), [7, 8, 9, 200]);
    assert_eq!(image.get_pixel(1, 0), [7, 8, 9, 200]);
    // Too short for a header, or without a mask: nothing changes.
    apply_and_mask(&mut image, &[0xFF; 39]).unwrap();
    let no_mask = dib32([0xFF, 0xFF]);
    apply_and_mask(&mut image, &no_mask[..56]).unwrap();
    assert_eq!(image.get_pixel(0, 0), [7, 8, 9, 200]);
}

#[test]
fn cur_decodes_an_embedded_png() {
    let mut picture = RgbaImage::new(3, 1);
    picture.put_pixel(0, 0, [1, 2, 3, 4]);
    picture.put_pixel(2, 0, [200, 100, 50, 255]);
    let png = png_file(&picture).unwrap();
    assert_eq!(&png[..8], b"\x89PNG\r\n\x1a\n");
    let data = cur_file(&[(0, 3, 5, 6, png)]);
    let frames = CurParser::parse(&data).unwrap();
    let image = &frames[0].images[0];
    // A stored width of 0 stands for 256.
    assert_eq!(image.nominal_size, 256);
    assert_eq!(image.hotspot, (5, 6));
    assert_eq!(image.image.as_raw(), picture.as_raw());
}

#[test]
fn cur_holds_several_sizes_in_one_frame() {
    let data = cur_file(&[(2, 2, 0, 0, dib32([0, 0])), (2, 9, 1, 1, dib32([0xFF, 0xFF]))]);
    let frames = CurParser::parse(&data).unwrap();
    assert_eq!(frames.len(), 1);
    assert_eq!(frames[0].images.len(), 2);
    assert_eq!(frames[0].images[1].nominal_size, 9);
    assert_eq!(frames[0].images[1].image.get_pixel(0, 0)[3], 0);
    let empty = CurParser::parse(&cur_file(&[])).unwrap();
    assert_eq!(empty.len(), 1);
    assert!(empty[0].images.is_empty());
}

#[test]
fn cur_names_each_defect() {
    assert_eq!(CurParser::parse(b"\x00\x00\x01\x00\x01\x00").unwrap_err(), CursorError::Format);
    assert_eq!(CurParser::parse(b"\x00\x00\x02\x00\x01").unwrap_err(), CursorError::Truncated);
    let good = cur_file(&[(2, 2, 0, 0, dib32([0, 0]))]);
    assert_eq!(CurParser::parse(&good[..21]).unwrap_err(), CursorError::Truncated);
    assert_eq!(CurParser::parse(&good[..good.len() - 1]).unwrap_err(), CursorError::Truncated);
    let mut reserved = good.clone();
    reserved[9] = 1;
    assert_eq!(CurParser::parse(&reserved).unwrap_err(), CursorError::Format);
    let short = cur_file(&[(2, 2, 0, 0, vec![0; 39])]);
    assert_eq!(CurParser::parse(&short).unwrap_err(), CursorError::Decode);
    let mut broken_png = b"\x89PNG\r\n\x1a\n".to_vec();
    broken_png.extend_from_slice(&[0; 20]);
    let bad = cur_file(&[(2, 2, 0, 0, broken_png)]);
    assert_eq!(CurParser::parse(&bad).unwrap_err(), CursorError::Decode);
    // A palette that does not fit 32 bits.
    let mut huge = dib32([0, 0]);
    huge[32..36].copy_from_slice(&0x4000_0000u32.to_le_bytes());
    let bad = cur_file(&[(2, 2, 0, 0, huge)]);
    assert_eq!(CurParser::parse(&bad).unwrap_err(), CursorError::Validation);
}

#[test]
fn directory_entries_are_checked() {
    let mut entry = IconDirEntry {
        width: 0,
        height: 48,
        color_count: 1,
        reserved: 0,
        hotspot_x: 0,
        hotspot_y: 0,
        size_bytes: 0,
        offset: 0,
    };
    assert!(entry.validate().is_ok());
    assert!(entry.has_suspicious_color_count());
    assert_eq!(entry.nominal_size(), 256);
    entry.width = 32;
    entry.color_count = 0;
    assert_eq!(entry.nominal_size(), 48);
    assert!(!entry.has_suspicious_color_count());
    entry.reserved = 3;
    assert_eq!(entry.validate(), Err(CursorError::Format));
}

#[test]
fn palette_size_follows_the_header() {
    assert_eq!(calculate_palette_size(&[0; 10]), Ok(0));
    assert_eq!(calculate_palette_size(&dib_header(1, 2, 1, 0)), Ok(8));
    assert_eq!(calculate_palette_size(&dib_header(1, 2, 4, 0)), Ok(64));
    assert_eq!(calculate_palette_size(&dib_header(1, 2, 8, 0)), Ok(1024));
    assert_eq!(calculate_palette_size(&dib_header(1, 2, 24, 0)), Ok(0));
    assert_eq!(calculate_palette_size(&dib_header(1, 2, 8, 3)), Ok(12));
    assert_eq!(calculate_palette_size(&dib_header(1, 2, 32, 7)), Ok(28));
    assert_eq!(
        calculate_palette_size(&dib_header(1, 2, 8, 0x4000_0000)),
        Err(CursorError::Validation)
    );
}

#[test]
fn bitmap_file_is_built_around_the_colour_rows() {
    let dib = dib1([0xAA, 0x55], [0xFF, 0xFF]);
    let bmp = create_bmp_from_dib(&dib).unwrap();
    // 14 bytes of file header, 40 of bitmap header, 8 of palette, 8 of rows.
    assert_eq!(bmp.len(), 14 + 40 + 8 + 8);
    assert_eq!(&bmp[..2], b"BM");
    assert_eq!(u32::from_le_bytes([bmp[2], bmp[3], bmp[4], bmp[5]]), 70);
    assert_eq!(&bmp[6..10], &[0, 0, 0, 0]);
    assert_eq!(u32::from_le_bytes([bmp[10], bmp[11], bmp[12], bmp[13]]), 14 + 40 + 8);
    // The declared height is halved, everything else is kept.
    assert_eq!(&bmp[14..22], &dib[..8]);
    assert_eq!(i32::from_le_bytes([bmp[22], bmp[23], bmp[24], bmp[25]]), 2);
    assert_eq!(&bmp[26..], &dib[12..56]);
    assert_eq!(create_bmp_from_dib(&[0; 39]), Err(CursorError::Decode));
    // A negative height is halved towards zero.
    let mut flipped = dib.clone();
    flipped[8..12].copy_from_slice(&(-5i32).to_le_bytes());
    let bmp = create_bmp_from_dib(&flipped).unwrap();
    assert_eq!(i32::from_le_bytes([bmp[22], bmp[23], bmp[24], bmp[25]]), -2);
}

#[test]
fn ani_plays_frames_in_sequence_order() {
    let frames = [frame_with_hotspot(0), frame_with_hotspot(1)];
    let data = ani_file(header(2, 3, 10), &frames, Some(&[1, 0, 1]), Some(&[6, 12, 6]));
    let played = AniParser::parse(&data).unwrap();
    assert_eq!(played.len(), 3);
    let order: Vec<u16> = played.iter().map(|f| f.images[0].hotspot.0).collect();
    assert_eq!(order, vec![1, 0, 1]);
    let delays: Vec<u32> = played.iter().map(|f| f.delay).collect();
    assert_eq!(delays, vec![100, 200, 100]);
}

#[test]
fn ani_defaults_to_file_order_and_display_rate() {
    let frames = [frame_with_hotspot(0), frame_with_hotspot(1)];
    let data = ani_file(header(2, 2, 3), &frames, None, None);
    let played = AniParser::parse(&data).unwrap();
    assert_eq!(played.len(), 2);
    assert_eq!(played[0].images[0].hotspot.0, 0);
    assert_eq!(played[1].images[0].hotspot.0, 1);
    assert_eq!(played[0].delay, 50);
    assert_eq!(played[1].delay, 50);
}

#[test]
fn ani_skips_foreign_chunks() {
    let frames = [frame_with_hotspot(4)];
    let plain = ani_file(header(1, 1, 60), &frames, None, None);
    // Put an odd-sized chunk of another kind before the header.
    let mut data = plain[..12].to_vec();
    data.extend_from_slice(&chunk(b"INAM", b"abc"));
    data.extend_from_slice(&plain[12..]);
    let played = AniParser::parse(&data).unwrap();
    assert_eq!(played.len(), 1);
    assert_eq!(played[0].images[0].hotspot.0, 4);
    assert_eq!(played[0].delay, 1000);
}

#[test]
fn ani_names_each_defect() {
    let frames = [frame_with_hotspot(0), frame_with_hotspot(1)];
    assert_eq!(AniParser::parse(b"RIFF\x00\x00\x00\x00WAVE").unwrap_err(), CursorError::Format);
    assert_eq!(AniParser::parse(b"RIFF\x00\x00\x00\x00ACON").unwrap_err(), CursorError::Truncated);
    let good = ani_file(header(2, 2, 1), &frames, None, None);
    // The header is cut short.
    assert_eq!(AniParser::parse(&good[..40]).unwrap_err(), CursorError::Truncated);
    let mut size = header(2, 2, 1);
    size[0] = 32;
    assert_eq!(
        AniParser::parse(&ani_file(size, &frames, None, None)).unwrap_err(),
        CursorError::Format
    );
    let mut raw = header(2, 2, 1);
    raw[8] = 2;
    assert_eq!(
        AniParser::parse(&ani_file(raw, &frames, None, None)).unwrap_err(),
        CursorError::Format
    );
    // Without a sequence, the frames must be as many as the steps.
    assert_eq!(
        AniParser::parse(&ani_file(header(2, 3, 1), &frames, None, None)).unwrap_err(),
        CursorError::Validation
    );
    // A step names a frame that is not there.
    assert_eq!(
        AniParser::parse(&ani_file(header(2, 2, 1), &frames, Some(&[0, 2]), None)).unwrap_err(),
        CursorError::Validation
    );
    // The rate chunk is shorter than the steps.
    let mut short = ani_file(header(2, 2, 1), &[], None, None);
    short.truncate(short.len() - 12);
    short.extend_from_slice(b"rate\x04\x00\x00\x00\x01\x00\x00\x00");
    assert_eq!(AniParser::parse(&short).unwrap_err(), CursorError::Truncated);
    // The frame list holds a chunk that is no icon.
    let mut wrong = good.clone();
    let at = wrong.windows(4).position(|w| w == b"icon").unwrap();
    wrong[at..at + 4].copy_from_slice(b"ikon");
    assert_eq!(AniParser::parse(&wrong).unwrap_err(), CursorError::Format);
    // The errors of an embedded cursor are passed on.
    let broken = [vec![0, 0, 1, 0, 0, 0]];
    assert_eq!(
        AniParser::parse(&ani_file(header(1, 1, 1), &broken, None, None)).unwrap_err(),
        CursorError::Format
    );
}

#[test]
fn ticks_become_milliseconds() {
    assert_eq!(delay_ms(0), 0);
    assert_eq!(delay_ms(1), 16);
    assert_eq!(delay_ms(6), 100);
    assert_eq!(delay_ms(12), 200);
    assert_eq!(delay_ms(60), 1000);
    assert_eq!(delay_ms(257_698_037), 4_294_967_283);
    assert_eq!(delay_ms(257_698_038), u32::MAX);
    assert_eq!(delay_ms(u32::MAX), u32::MAX);
}

#[test]
fn animation_header_must_declare_its_size() {
    let mut h = AnihHeader {
        size: 36,
        frame_count: 1,
        step_count: 1,
        width: 0,
        height: 0,
        bit_count: 0,
        planes: 0,
        display_rate: 1,
        flags: 1,
    };
    assert!(h.validate().is_ok());
    h.size = 40;
    assert_eq!(h.validate(), Err(CursorError::Format));
}

/// The directory of a cursor file with one entry per colour count, none
/// of which has its image.
fn directory(color_counts: &[u8], reserved: u8) -> Vec<u8> {
    let mut out = vec![0, 0, 2, 0];
    out.extend_from_slice(&(color_counts.len() as u16).to_le_bytes());
    for count in color_counts {
        out.extend_from_slice(&[2, 2, *count, reserved]);
        out.extend_from_slice(&[0; 12]);
    }
    out
}

#[test]
fn a_single_colour_is_warned_of() {
    let line = "Warning: Suspicious color count 1 in cursor entry".to_string();
    assert_eq!(CurParser::color_warnings(&directory(&[0, 1, 2, 1], 0)), vec![line.clone(); 2]);
    assert!(CurParser::color_warnings(&directory(&[0, 2, 16], 0)).is_empty());
    // Nothing is said of a buffer that is no cursor file.
    assert!(CurParser::color_warnings(b"RIFF\x01\x01\x01\x01").is_empty());
    assert!(CurParser::color_warnings(&[0, 0, 2, 0]).is_empty());
    // The warnings end at the first entry that is invalid or cut short.
    assert!(CurParser::color_warnings(&directory(&[1, 1], 7)).is_empty());
    let mut cut = directory(&[1, 1], 0);
    cut.truncate(6 + 16 + 3);
    assert_eq!(CurParser::color_warnings(&cut), vec![line]);
}

#[test]
fn the_frames_of_an_animation_are_warned_of() {
    let line = "Warning: Suspicious color count 1 in cursor entry".to_string();
    let mut odd = frame_with_hotspot(0);
    odd[8] = 1;
    let plain = frame_with_hotspot(1);
    let data = ani_file(header(3, 3, 6), &[odd.clone(), plain.clone(), odd.clone()], None, None);
    assert!(AniParser::parse(&data).is_ok());
    assert_eq!(AniParser::color_warnings(&data), vec![line.clone(); 2]);
    assert_eq!(windows_cursor_warnings(&data), vec![line.clone(); 2]);
    let calm = ani_file(header(1, 1, 6), &[plain], Some(&[0]), Some(&[6]));
    assert!(AniParser::color_warnings(&calm).is_empty());
    // The header counts the icon chunks that are read.
    let first = ani_file(header(1, 1, 6), &[odd.clone(), odd.clone()], None, None);
    assert_eq!(AniParser::color_warnings(&first), vec![line.clone()]);
    // A cursor file is warned of by its own directory, anything else not at all.
    assert_eq!(windows_cursor_warnings(&odd), vec![line]);
    assert!(AniParser::color_warnings(&odd).is_empty());
    assert!(windows_cursor_warnings(b"neither").is_empty());
}

#[test]
fn ani_is_decoded_with_the_frame_list_before_the_sequence() {
    let first = frame_with_hotspot(0);
    let second = frame_with_hotspot(1);
    let mut list = b"fram".to_vec();
    list.extend_from_slice(&chunk(b"icon", &first));
    list.extend_from_slice(&chunk(b"icon", &second));
    let mut body = b"ACON".to_vec();
    body.extend_from_slice(&chunk(b"anih", &words(&header(2, 3, 0))));
    body.extend_from_slice(&chunk(b"LIST", &list));
    body.extend_from_slice(&chunk(b"seq ", &words(&[1, 0, 1])));
    body.extend_from_slice(&chunk(b"rate", &words(&[6, 12, 6])));
    let mut data = b"RIFF".to_vec();
    data.extend_from_slice(&(body.len() as u32).to_le_bytes());
    data.extend_from_slice(&body);
    // The frame list starts at byte 56 and its first icon chunk at byte 68.
    assert_eq!(&data[56..60], b"LIST");
    assert_eq!(&data[68..72], b"icon");
    assert_eq!(&data[data.len() - 40..data.len() - 36], b"seq ");
    let frames = AniParser::parse(&data).unwrap();
    let played: Vec<(u16, u32)> = frames.iter().map(|f| (f.images[0].hotspot.0, f.delay)).collect();
    assert_eq!(played, vec![(1, 100), (0, 200), (1, 100)]);
}
