use ani2hyprtui::error::CursorError;
use ani2hyprtui::pipeline::raster::RgbaImage;
use ani2hyprtui::pipeline::win2xcur::converter::{
    apply_hotspot_overrides, batch_convert, convert_to_x11, convert_windows_cursor,
    synthesize_target_sizes, ConversionOptions,
};
use ani2hyprtui::pipeline::win2xcur::cur::{CursorFrame, CursorImage};
use ani2hyprtui::pipeline::win2xcur::parse_and_convert;
use ani2hyprtui::pipeline::win2xcur::utils::{
    alpha_mask, blend_over, compose_shadow, composite_over, content_box, scale_frames,
    scale_hotspot, scale_length, shadow_fits, shadow_layer, trim_to_content, ScaleFactor,
    ShadowLayout,
};
use ani2hyprtui::pipeline::xcur2png::xcursor_reader::XcursorFile;

fn solid(width: u32, height: u32, pixel: [u8; 4]) -> RgbaImage {
    let mut img = RgbaImage::new(width, height);
    for y in 0..height {
        for x in 0..width {
            img.put_pixel(x, y, pixel);
        }
    }
    img
}

fn frame(images: Vec<(u32, u32, (u16, u16), u32)>, delay: u32) -> CursorFrame {
    CursorFrame {
        images: images
            .into_iter()
            .map(|(w, h, hotspot, nominal_size)| CursorImage {
                image: solid(w, h, [10, 20, 30, 255]),
                hotspot,
                nominal_size,
            })
            .collect(),
        delay,
    }
}

#[test]
fn test_scale_frames() {
    let img = RgbaImage::new(32, 32);
    let cursor = CursorImage {
        image: img,
        hotspot: (16, 16),
        nominal_size: 32,
    };
    let mut frames = vec![CursorFrame {
        images: vec![cursor],
        delay: 0,
    }];

    scale_frames(&mut frames, ScaleFactor { numerator: 2, denominator: 1 }).unwrap();

    assert_eq!(frames[0].images[0].image.width(), 64);
    assert_eq!(frames[0].images[0].image.height(), 64);
    assert_eq!(frames[0].images[0].hotspot, (32, 32));
    assert_eq!(frames[0].images[0].nominal_size, 64);
}

#[test]
fn scaling_by_one_keeps_the_pixels() {
    let mut frames = vec![frame(vec![(3, 2, (1, 1), 3)], 40)];
    scale_frames(&mut frames, ScaleFactor { numerator: 5, denominator: 5 }).unwrap();
    assert_eq!(frames[0].delay, 40);
    assert_eq!(frames[0].images[0].image.as_raw(), solid(3, 2, [10, 20, 30, 255]).as_raw());
    assert_eq!(frames[0].images[0].hotspot, (1, 1));
}

#[test]
fn scaled_lengths_round_to_the_nearest() {
    assert_eq!(scale_length(32, 3, 2), 48);
    assert_eq!(scale_length(3, 1, 2), 2);
    assert_eq!(scale_length(5, 1, 3), 2);
    assert_eq!(scale_length(4, 1, 3), 1);
    assert_eq!(scale_length(7, 0, 3), 0);
    assert_eq!(scale_length(u32::MAX, 2, 1), u32::MAX);
    assert_eq!(scale_length(9, 1, 0), u32::MAX);
    assert_eq!(scale_length(0, 1, 0), 0);
    assert_eq!(scale_hotspot(16, 48, 32), 24);
    assert_eq!(scale_hotspot(1, 48, 32), 2);
    assert_eq!(scale_hotspot(40000, 2, 1), 65535);
    assert_eq!(scale_hotspot(5, 3, 0), 65535);
    assert_eq!(scale_hotspot(0, 3, 0), 0);
}

#[test]
fn scaling_refuses_images_that_cannot_be_addressed() {
    let mut frames = vec![frame(vec![(2, 2, (1, 1), 2)], 0)];
    let r = scale_frames(&mut frames, ScaleFactor { numerator: u32::MAX, denominator: 1 });
    assert_eq!(r, Err(CursorError::Validation));
    assert_eq!(frames[0].images[0].image.width(), 2);
    assert_eq!(frames[0].images[0].hotspot, (1, 1));
}

#[test]
fn test_conversion_options() {
    let opts = ConversionOptions::new().with_scale(2, 1);

    assert_eq!(opts.scale, Some(ScaleFactor { numerator: 2, denominator: 1 }));
    assert!(opts.hotspot_overrides.is_empty());
    assert!(opts.target_sizes.is_empty());
    let opts = opts.with_hotspot_override(32, 5, 6).with_target_sizes(vec![24, 48]);
    assert_eq!(opts.hotspot_overrides.get(&32), Some(&(5, 6)));
    assert_eq!(opts.target_sizes, vec![24, 48]);
    assert!(ConversionOptions::new().scale.is_none());
}

#[test]
fn overrides_replace_hotspots_by_nominal_size() {
    let mut frames = vec![
        frame(vec![(2, 2, (1, 1), 32), (2, 2, (1, 1), 48)], 0),
        frame(vec![(2, 2, (0, 0), 32)], 0),
    ];
    let options = ConversionOptions::new()
        .with_hotspot_override(32, 7, 65537)
        .with_hotspot_override(64, 1, 1);
    apply_hotspot_overrides(&mut frames, &options);
    // Coordinates keep their low 16 bits.
    assert_eq!(frames[0].images[0].hotspot, (7, 1));
    assert_eq!(frames[0].images[1].hotspot, (1, 1));
    assert_eq!(frames[1].images[0].hotspot, (7, 1));
}

#[test]
fn missing_sizes_are_synthesized_from_the_largest_image() {
    let mut frames = vec![
        frame(vec![(16, 16, (4, 4), 16), (32, 32, (16, 8), 32)], 5),
        CursorFrame { images: Vec::new(), delay: 9 },
    ];
    let options = ConversionOptions::new()
        .with_target_sizes(vec![32, 48, 24, 48])
        .with_hotspot_override(24, 70000, 3);
    synthesize_target_sizes(&mut frames, &options).unwrap();
    let sizes: Vec<u32> = frames[0].images.iter().map(|i| i.nominal_size).collect();
    // A size that is asked for twice is made twice.
    assert_eq!(sizes, vec![16, 32, 48, 24, 48]);
    let made = &frames[0].images[2];
    assert_eq!((made.image.width(), made.image.height()), (48, 48));
    assert_eq!(made.hotspot, (24, 12));
    let overridden = &frames[0].images[3];
    assert_eq!((overridden.image.width(), overridden.image.height()), (24, 24));
    // An override for a synthesized size is capped, not cut.
    assert_eq!(overridden.hotspot, (65535, 3));
    assert_eq!(frames[0].delay, 5);
    assert!(frames[1].images.is_empty());
}

#[test]
fn the_last_of_the_largest_images_is_the_source() {
    let mut images = frame(vec![(4, 4, (1, 1), 32), (8, 8, (6, 6), 32)], 0);
    images.images[1].image = solid(8, 8, [1, 2, 3, 255]);
    let mut frames = vec![images];
    let options = ConversionOptions::new().with_target_sizes(vec![8]);
    synthesize_target_sizes(&mut frames, &options).unwrap();
    let made = &frames[0].images[2];
    // Resampling to the size of the source copies it.
    assert_eq!(made.image.as_raw(), solid(8, 8, [1, 2, 3, 255]).as_raw());
    assert_eq!(made.hotspot, (2, 2));
}

#[test]
fn conversion_runs_every_stage() {
    let frames = vec![frame(vec![(4, 4, (1, 2), 4)], 30)];
    let options = ConversionOptions::new()
        .with_hotspot_override(4, 3, 3)
        .with_scale(2, 1)
        .with_target_sizes(vec![8, 16]);
    let bytes = convert_to_x11(frames, &options).unwrap();
    let file = XcursorFile::from_bytes(&bytes).unwrap();
    assert_eq!(file.images.len(), 2);
    let first = &file.images[0];
    assert_eq!((first.size, first.width, first.height), (8, 8, 8));
    assert_eq!((first.xhot, first.yhot, first.delay), (6, 6, 30));
    let second = &file.images[1];
    assert_eq!((second.size, second.width, second.height), (16, 16, 16));
    assert_eq!((second.xhot, second.yhot, second.delay), (12, 12, 30));
}

#[test]
fn conversion_without_options_only_serialises() {
    let frames = vec![frame(vec![(2, 1, (1, 0), 2)], 0)];
    let bytes = convert_to_x11(frames, &ConversionOptions::new()).unwrap();
    let file = XcursorFile::from_bytes(&bytes).unwrap();
    assert_eq!(file.images[0].pixels.as_raw(), solid(2, 1, [10, 20, 30, 255]).as_raw());
}

#[test]
fn files_are_converted_by_their_kind() {
    let options = ConversionOptions::new();
    assert_eq!(convert_windows_cursor(b"nonsense", &options), Err(CursorError::Format));
    assert_eq!(parse_and_convert(&[], &options), Err(CursorError::Format));
    assert_eq!(
        convert_windows_cursor(b"\x00\x00\x02\x00\x01\x00", &options),
        Err(CursorError::Truncated)
    );
    // A cursor without images converts to an Xcursor file without images.
    let empty = convert_windows_cursor(b"\x00\x00\x02\x00\x00\x00", &options).unwrap();
    assert_eq!(empty.len(), 16);
    let results = batch_convert(
        &vec![b"\x00\x00\x02\x00\x00\x00".to_vec(), b"RIFF".to_vec()],
        &options,
    );
    assert_eq!(results.len(), 2);
    assert!(results[0].is_ok());
    assert_eq!(results[1], Err(CursorError::Format));
}

#[test]
fn test_blend_over() {
    let src = [255, 0, 0, 128];
    let dst = [0, 0, 255, 255];

    let result = blend_over(src, dst);

    assert!(result[0] > 0);
    assert!(result[2] > 0);
    assert_eq!(result[3], 255);
    assert_eq!(result, [128, 0, 127, 255]);
}

#[test]
fn blending_follows_the_alpha_over_rule() {
    assert_eq!(blend_over([1, 2, 3, 0], [4, 5, 6, 0]), [0, 0, 0, 0]);
    assert_eq!(blend_over([1, 2, 3, 255], [4, 5, 6, 77]), [1, 2, 3, 255]);
    assert_eq!(blend_over([1, 2, 3, 0], [4, 5, 6, 77]), [4, 5, 6, 77]);
    // Half over half: alpha 128 + 128 * 127 / 255 = 191; the upper colour
    // weighs 128 * 255 against 128 * 127.
    assert_eq!(blend_over([200, 0, 0, 128], [0, 100, 0, 128]), [133, 33, 0, 191]);
}

#[test]
fn compositing_blends_the_overlap() {
    let mut canvas = solid(3, 2, [0, 0, 255, 255]);
    composite_over(&mut canvas, &solid(2, 1, [255, 0, 0, 128]));
    assert_eq!(canvas.get_pixel(0, 0), [128, 0, 127, 255]);
    assert_eq!(canvas.get_pixel(1, 0), [128, 0, 127, 255]);
    assert_eq!(canvas.get_pixel(2, 0), [0, 0, 255, 255]);
    assert_eq!(canvas.get_pixel(0, 1), [0, 0, 255, 255]);
}

#[test]
fn alpha_mask_moves_the_alpha_channel() {
    let mut image = RgbaImage::new(2, 1);
    image.put_pixel(0, 0, [9, 9, 9, 40]);
    image.put_pixel(1, 0, [9, 9, 9, 80]);
    let layout = ShadowLayout { color: [1, 2, 3], opacity: 128, x_offset: 1, y_offset: 2 };
    assert!(shadow_fits(&image, &layout));
    let mask = alpha_mask(&image, &layout);
    assert_eq!((mask.width(), mask.height()), (5, 7));
    assert_eq!(mask.get_pixel(0, 0), [255, 255, 255, 0]);
    assert_eq!(mask.get_pixel(1, 2), [255, 255, 255, 40]);
    assert_eq!(mask.get_pixel(2, 2), [255, 255, 255, 80]);
    assert_eq!(mask.get_pixel(3, 2), [255, 255, 255, 0]);
    assert_eq!(mask.get_pixel(1, 1), [255, 255, 255, 0]);
    let shadow = shadow_layer(&mask, &layout);
    assert_eq!(shadow.get_pixel(1, 2), [1, 2, 3, 20]);
    assert_eq!(shadow.get_pixel(2, 2), [1, 2, 3, 40]);
    assert_eq!(shadow.get_pixel(0, 0), [1, 2, 3, 0]);
    let far = ShadowLayout { color: [0, 0, 0], opacity: 1, x_offset: u32::MAX, y_offset: 0 };
    assert!(!shadow_fits(&image, &far));
}

#[test]
fn trimming_keeps_the_content_and_the_minimum_size() {
    let mut image = RgbaImage::new(5, 4);
    image.put_pixel(2, 1, [1, 1, 1, 9]);
    image.put_pixel(3, 2, [2, 2, 2, 9]);
    let found = content_box(&image).unwrap();
    assert_eq!((found.min_x, found.max_x, found.min_y, found.max_y), (2, 3, 1, 2));
    let tight = trim_to_content(&image, 1, 1);
    assert_eq!((tight.width(), tight.height()), (2, 2));
    assert_eq!(tight.get_pixel(0, 0), [1, 1, 1, 9]);
    assert_eq!(tight.get_pixel(1, 1), [2, 2, 2, 9]);
    assert_eq!(tight.get_pixel(1, 0), [0, 0, 0, 0]);
    // Not below the minimum; past the image the result is transparent.
    let wide = trim_to_content(&image, 4, 1);
    assert_eq!((wide.width(), wide.height()), (4, 2));
    assert_eq!(wide.get_pixel(1, 1), [2, 2, 2, 9]);
    assert_eq!(wide.get_pixel(3, 0), [0, 0, 0, 0]);
    let blank = RgbaImage::new(3, 3);
    assert!(content_box(&blank).is_none());
    let cut = trim_to_content(&blank, 2, 1);
    assert_eq!((cut.width(), cut.height()), (2, 1));
    assert_eq!(cut.get_pixel(1, 0), [0, 0, 0, 0]);
}

#[test]
fn a_shadow_lies_under_the_image() {
    let image = solid(2, 2, [200, 200, 200, 255]);
    let layout = ShadowLayout { color: [0, 0, 0], opacity: 255, x_offset: 1, y_offset: 1 };
    // An unblurred mask serves as its own blur.
    let mask = alpha_mask(&image, &layout);
    let shadowed = compose_shadow(&image, &mask, &layout);
    assert_eq!((shadowed.width(), shadowed.height()), (3, 3));
    assert_eq!(shadowed.get_pixel(0, 0), [200, 200, 200, 255]);
    assert_eq!(shadowed.get_pixel(1, 1), [200, 200, 200, 255]);
    assert_eq!(shadowed.get_pixel(2, 2), [0, 0, 0, 255]);
    assert_eq!(shadowed.get_pixel(2, 0), [0, 0, 0, 0]);
}
