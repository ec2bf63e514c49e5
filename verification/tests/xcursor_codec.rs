use ani2hyprtui::error::CursorError;
use ani2hyprtui::pipeline::raster::RgbaImage;
use ani2hyprtui::pipeline::win2xcur::cur::{CursorFrame, CursorImage};
use ani2hyprtui::pipeline::win2xcur::xcursor_writer::{premultiply_alpha, to_x11};
use ani2hyprtui::pipeline::xcur2png::xcursor_reader::XcursorFile;
use ani2hyprtui::pipeline::xcursor_format::{premultiply, unpremultiply};

fn word(data: &[u8], at: usize) -> u32 {
    u32::from_le_bytes([data[at], data[at + 1], data[at + 2], data[at + 3]])
}

fn solid(width: u32, height: u32, pixel: [u8; 4]) -> RgbaImage {
    let mut img = RgbaImage::new(width, height);
    for y in 0..height {
        for x in 0..width {
            img.put_pixel(x, y, pixel);
        }
    }
    img
}

#[test]
fn test_premultiply_alpha() {
    let mut img = RgbaImage::new(2, 2);
    img.put_pixel(0, 0, [255, 255, 255, 128]);
    img.put_pixel(1, 0, [255, 0, 0, 255]);

    let result = premultiply_alpha(&img);

    assert!(result[0] >= 127 && result[0] <= 128);
    assert!(result[1] >= 127 && result[1] <= 128);
    assert!(result[2] >= 127 && result[2] <= 128);
    assert_eq!(result[3], 128);

    assert_eq!(result[4], 0);
    assert_eq!(result[5], 0);
    assert_eq!(result[6], 255);
    assert_eq!(result[7], 255);
}

#[test]
fn premultiplication_rounds_down() {
    assert_eq!(premultiply(255, 128), 128);
    assert_eq!(premultiply(101, 128), 50);
    assert_eq!(premultiply(200, 0), 0);
    assert_eq!(premultiply(7, 255), 7);
    assert_eq!(unpremultiply(50, 128), 99);
    assert_eq!(unpremultiply(128, 128), 255);
    assert_eq!(unpremultiply(200, 100), 255);
    assert_eq!(unpremultiply(0, 0), 255);
    assert_eq!(unpremultiply(9, 255), 9);
}

#[test]
fn test_xcursor_format() {
    let img = solid(32, 32, [255, 255, 255, 255]);

    let cursor = CursorImage {
        image: img,
        hotspot: (16, 16),
        nominal_size: 32,
    };

    let frame = CursorFrame {
        images: vec![cursor],
        delay: 0,
    };

    let result = to_x11(&[frame]).unwrap();

    assert_eq!(&result[0..4], b"Xcur");

    let version = u32::from_le_bytes([result[8], result[9], result[10], result[11]]);
    assert_eq!(version, 0x0001_0000);
}

#[test]
fn toc_offsets_follow_the_chunk_sizes() {
    let frames = vec![
        CursorFrame {
            images: vec![
                CursorImage { image: solid(2, 3, [1, 2, 3, 255]), hotspot: (1, 2), nominal_size: 3 },
                CursorImage { image: solid(4, 4, [9, 9, 9, 255]), hotspot: (0, 0), nominal_size: 4 },
            ],
            delay: 70,
        },
        CursorFrame {
            images: vec![CursorImage {
                image: solid(1, 1, [5, 6, 7, 8]),
                hotspot: (0, 0),
                nominal_size: 1,
            }],
            delay: 80,
        },
    ];
    let out = to_x11(&frames).unwrap();
    assert_eq!(word(&out, 4), 16);
    assert_eq!(word(&out, 12), 3);
    let payloads = [2 * 3 * 4, 4 * 4 * 4, 4];
    let nominal = [3, 4, 1];
    let mut expected = 16 + 12 * 3;
    for k in 0..3 {
        let entry = 16 + 12 * k;
        assert_eq!(word(&out, entry), 0xFFFD_0002);
        assert_eq!(word(&out, entry + 4), nominal[k]);
        assert_eq!(word(&out, entry + 8) as usize, expected);
        assert_eq!(word(&out, expected), 36);
        assert_eq!(word(&out, expected + 4), 0xFFFD_0002);
        assert_eq!(word(&out, expected + 12), 1);
        expected += 36 + payloads[k];
    }
    assert_eq!(out.len(), expected);
    // The first chunk: 2 by 3, hotspot (1, 2), delay 70, premultiplied BGRA.
    assert_eq!(word(&out, 52 + 16), 2);
    assert_eq!(word(&out, 52 + 20), 3);
    assert_eq!(word(&out, 52 + 24), 1);
    assert_eq!(word(&out, 52 + 28), 2);
    assert_eq!(word(&out, 52 + 32), 70);
    assert_eq!(&out[52 + 36..52 + 40], &[3, 2, 1, 255]);
}

#[test]
fn writer_accepts_no_frames() {
    let out = to_x11(&[]).unwrap();
    assert_eq!(out, b"Xcur\x10\x00\x00\x00\x00\x00\x01\x00\x00\x00\x00\x00".to_vec());
    assert_eq!(XcursorFile::from_bytes(&out).unwrap_err(), CursorError::Empty);
}

#[test]
fn test_xcursor_magic_validation() {
    let invalid_data = b"INVALID";
    let result = XcursorFile::from_bytes(invalid_data);
    assert!(result.is_err());
    assert_eq!(result.unwrap_err(), CursorError::Format);
}

fn sample_file() -> Vec<u8> {
    let mut data = Vec::new();

    data.extend_from_slice(b"Xcur");
    data.extend_from_slice(&16u32.to_le_bytes()); // header size
    data.extend_from_slice(&0x0001_0000u32.to_le_bytes()); // version
    data.extend_from_slice(&1u32.to_le_bytes()); // ntoc

    // TOC entry
    data.extend_from_slice(&0xfffd0002u32.to_le_bytes()); // type
    data.extend_from_slice(&32u32.to_le_bytes()); // subtype (size)
    data.extend_from_slice(&28u32.to_le_bytes()); // position

    // Image chunk
    data.extend_from_slice(&36u32.to_le_bytes()); // chunk header
    data.extend_from_slice(&0xfffd0002u32.to_le_bytes()); // type
    data.extend_from_slice(&32u32.to_le_bytes()); // nominal size
    data.extend_from_slice(&1u32.to_le_bytes()); // version
    data.extend_from_slice(&2u32.to_le_bytes()); // width
    data.extend_from_slice(&2u32.to_le_bytes()); // height
    data.extend_from_slice(&1u32.to_le_bytes()); // xhot
    data.extend_from_slice(&1u32.to_le_bytes()); // yhot
    data.extend_from_slice(&0u32.to_le_bytes()); // delay

    // Pixels (2x2 BGRA)
    for _ in 0..4 {
        data.extend_from_slice(&[255, 128, 64, 255]); // BGRA
    }
    data
}

#[test]
fn test_xcursor_parsing() {
    let data = sample_file();

    let xcursor = XcursorFile::from_bytes(&data).unwrap();
    assert_eq!(xcursor.images.len(), 1);
    assert_eq!(xcursor.images[0].width, 2);
    assert_eq!(xcursor.images[0].height, 2);
    assert_eq!(xcursor.images[0].xhot, 1);
    assert_eq!(xcursor.images[0].yhot, 1);
    assert_eq!(xcursor.images[0].size, 32);
    assert_eq!(xcursor.images[0].pixels.get_pixel(1, 1), [64, 128, 255, 255]);
}

#[test]
fn reader_names_each_defect() {
    let good = sample_file();
    assert_eq!(XcursorFile::from_bytes(&good[..3]).unwrap_err(), CursorError::Truncated);
    assert_eq!(XcursorFile::from_bytes(&good[..20]).unwrap_err(), CursorError::Truncated);
    assert_eq!(
        XcursorFile::from_bytes(&good[..good.len() - 1]).unwrap_err(),
        CursorError::Truncated
    );
    let mut bad = good.clone();
    bad[4] = 17;
    assert_eq!(XcursorFile::from_bytes(&bad).unwrap_err(), CursorError::Format);
    let mut bad = good.clone();
    bad[8] = 1;
    assert_eq!(XcursorFile::from_bytes(&bad).unwrap_err(), CursorError::Format);
    let mut bad = good.clone();
    bad[28] = 35;
    assert_eq!(XcursorFile::from_bytes(&bad).unwrap_err(), CursorError::Format);
    let mut bad = good.clone();
    bad[40] = 2;
    assert_eq!(XcursorFile::from_bytes(&bad).unwrap_err(), CursorError::Format);
    // An entry of another type is passed over, which leaves no image.
    let mut other = good.clone();
    other[16] = 1;
    assert_eq!(XcursorFile::from_bytes(&other).unwrap_err(), CursorError::Empty);
    // So is a chunk of another type behind an image entry.
    let mut other = good.clone();
    other[32] = 1;
    assert_eq!(XcursorFile::from_bytes(&other).unwrap_err(), CursorError::Empty);
}

#[test]
fn transparent_pixels_decode_to_white() {
    let mut data = sample_file();
    let at = data.len() - 4;
    data[at..].copy_from_slice(&[10, 20, 30, 0]);
    let file = XcursorFile::from_bytes(&data).unwrap();
    assert_eq!(file.images[0].pixels.get_pixel(1, 1), [255, 255, 255, 0]);
}

#[test]
fn test_xcur2png_round_trip() {
    // Create a simple test cursor
    let mut img = RgbaImage::new(32, 32);
    for y in 0..32u32 {
        for x in 0..32u32 {
            let val = ((x + y) * 4) as u8;
            img.put_pixel(x, y, [val, val, val, 255]);
        }
    }

    let cursor = CursorImage {
        image: img.clone(),
        hotspot: (16, 16),
        nominal_size: 32,
    };

    let frame = CursorFrame {
        images: vec![cursor],
        delay: 100,
    };

    // Write to X11 format
    let x11_data = to_x11(&[frame]).unwrap();

    // Read back
    let xcursor = XcursorFile::from_bytes(&x11_data).unwrap();
    assert_eq!(xcursor.images.len(), 1);
    assert_eq!(xcursor.images[0].width, 32);
    assert_eq!(xcursor.images[0].height, 32);
    assert_eq!(xcursor.images[0].xhot, 16);
    assert_eq!(xcursor.images[0].yhot, 16);
    assert_eq!(xcursor.images[0].delay, 100);
    assert_eq!(xcursor.images[0].pixels.as_raw(), img.as_raw());
}

#[test]
fn round_trip_keeps_every_image() {
    let frames = vec![
        CursorFrame {
            images: vec![
                CursorImage { image: solid(3, 2, [10, 20, 30, 255]), hotspot: (2, 1), nominal_size: 3 },
                CursorImage { image: solid(2, 2, [200, 100, 50, 254]), hotspot: (0, 1), nominal_size: 2 },
            ],
            delay: 33,
        },
        CursorFrame {
            images: vec![CursorImage {
                image: solid(1, 4, [101, 0, 255, 128]),
                hotspot: (0, 3),
                nominal_size: 4,
            }],
            delay: 66,
        },
    ];
    let file = XcursorFile::from_bytes(&to_x11(&frames).unwrap()).unwrap();
    assert_eq!(file.images.len(), 3);
    let expected = [(3, 3, 2, 2, 1, 33), (2, 2, 2, 0, 1, 33), (4, 1, 4, 0, 3, 66)];
    for (image, want) in file.images.iter().zip(expected.iter()) {
        assert_eq!(
            (image.size, image.width, image.height, image.xhot, image.yhot, image.delay),
            *want
        );
        assert_eq!(image.pixels.width(), image.width);
        assert_eq!(image.pixels.height(), image.height);
    }
    // Opaque pixels come back exactly, nearly opaque ones within one unit.
    assert_eq!(file.images[0].pixels.get_pixel(0, 0), [10, 20, 30, 255]);
    assert_eq!(file.images[1].pixels.get_pixel(1, 1), [199, 99, 49, 254]);
    // At half transparency a channel can lose two units: 101 comes back as 99.
    assert_eq!(file.images[2].pixels.get_pixel(0, 2), [99, 0, 255, 128]);
}

#[test]
fn sizes_are_listed_ascending_and_once() {
    let frames = vec![CursorFrame {
        images: vec![
            CursorImage { image: solid(1, 1, [0, 0, 0, 255]), hotspot: (0, 0), nominal_size: 48 },
            CursorImage { image: solid(1, 1, [1, 0, 0, 255]), hotspot: (0, 0), nominal_size: 24 },
            CursorImage { image: solid(1, 1, [2, 0, 0, 255]), hotspot: (0, 0), nominal_size: 48 },
            CursorImage { image: solid(1, 1, [3, 0, 0, 255]), hotspot: (0, 0), nominal_size: 32 },
        ],
        delay: 0,
    }];
    let file = XcursorFile::from_bytes(&to_x11(&frames).unwrap()).unwrap();
    assert_eq!(file.get_sizes(), vec![24, 32, 48]);
    let large = file.get_images_for_size(48);
    assert_eq!(large.len(), 2);
    assert_eq!(large[0].pixels.get_pixel(0, 0), [0, 0, 0, 255]);
    assert_eq!(large[1].pixels.get_pixel(0, 0), [2, 0, 0, 255]);
    assert!(file.get_images_for_size(16).is_empty());
}
