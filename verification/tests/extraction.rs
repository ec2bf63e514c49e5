use ani2hyprtui::error::CursorError;
use ani2hyprtui::pipeline::raster::RgbaImage;
use ani2hyprtui::pipeline::win2xcur::converter::{convert_windows_cursor, ConversionOptions};
use ani2hyprtui::pipeline::win2xcur::cur::{CurParser, CursorFrame, CursorImage};
use ani2hyprtui::pipeline::win2xcur::xcursor_writer::to_x11;
use ani2hyprtui::pipeline::xcur2png::extract_cursor;
use ani2hyprtui::pipeline::xcur2png::extractor::{
    extract_images, extract_metadata, extract_to_pngs, ExtractOptions,
};
use ani2hyprtui::pipeline::xcur2png::png_writer::png_file;
use ani2hyprtui::pipeline::xcur2png::xcursor_reader::XcursorFile;

fn dot(value: u8, nominal_size: u32, hotspot: (u16, u16)) -> CursorImage {
    let mut image = RgbaImage::new(1, 1);
    image.put_pixel(0, 0, [value, value, value, 255]);
    CursorImage { image, hotspot, nominal_size }
}

fn sample() -> Vec<u8> {
    to_x11(&[
        CursorFrame {
            images: vec![dot(1, 48, (3, 4)), dot(2, 24, (1, 2))],
            delay: 10,
        },
        CursorFrame {
            images: vec![dot(3, 48, (3, 4)), dot(4, 24, (1, 2))],
            delay: 20,
        },
    ])
    .unwrap()
}

/// Decodes a PNG file by way of a cursor that embeds it.
fn decode(png: &[u8]) -> Vec<u8> {
    let mut cur = vec![0, 0, 2, 0, 1, 0, 1, 1, 0, 0, 0, 0, 0, 0];
    cur.extend_from_slice(&(png.len() as u32).to_le_bytes());
    cur.extend_from_slice(&22u32.to_le_bytes());
    cur.extend_from_slice(png);
    let frames = CurParser::parse(&cur).unwrap();
    frames[0].images[0].image.as_raw().clone()
}

#[test]
fn images_are_extracted_by_ascending_size() {
    let options = ExtractOptions::new().with_prefix("arrow").with_initial_suffix(7);
    let extraction = extract_to_pngs(&sample(), &options).unwrap();
    let names: Vec<&str> = extraction.files.iter().map(|f| f.filename.as_str()).collect();
    assert_eq!(names, vec!["arrow_007.png", "arrow_008.png", "arrow_009.png", "arrow_010.png"]);
    let values: Vec<u8> = extraction.files.iter().map(|f| decode(&f.png)[0]).collect();
    assert_eq!(values, vec![2, 4, 1, 3]);
    let config = extraction.config.unwrap();
    assert_eq!(config.name, "arrow.conf");
    assert_eq!(
        config.content,
        "#size\txhot\tyhot\tPath to PNG image\tdelay\n\
         24\t1\t2\tarrow_007.png\t10\n\
         24\t1\t2\tarrow_008.png\t20\n\
         48\t3\t4\tarrow_009.png\t10\n\
         48\t3\t4\tarrow_010.png\t20\n"
    );
}

#[test]
fn only_the_largest_size_can_be_extracted() {
    let options = ExtractOptions::new()
        .with_all_sizes(false)
        .with_config_name("list.txt")
        .with_initial_suffix(123);
    let extraction = extract_to_pngs(&sample(), &options).unwrap();
    let names: Vec<&str> = extraction.files.iter().map(|f| f.filename.as_str()).collect();
    assert_eq!(names, vec!["cursor_123.png", "cursor_124.png"]);
    assert_eq!(decode(&extraction.files[1].png), vec![3, 3, 3, 255]);
    let config = extraction.config.unwrap();
    assert_eq!(config.name, "list.txt");
    assert!(config.content.ends_with("48\t3\t4\tcursor_124.png\t20\n"));
}

#[test]
fn the_sidecar_document_can_be_left_out() {
    let options = ExtractOptions::new().with_config(false);
    let extraction = extract_to_pngs(&sample(), &options).unwrap();
    assert_eq!(extraction.files.len(), 4);
    assert!(extraction.config.is_none());
}

#[test]
fn numbering_must_stay_below_one_thousand() {
    let file = XcursorFile::from_bytes(&sample()).unwrap();
    let fits = ExtractOptions::new().with_initial_suffix(995);
    let extraction = extract_images(&file, &fits).unwrap();
    assert_eq!(extraction.files[3].filename, "cursor_998.png");
    let over = ExtractOptions::new().with_initial_suffix(996);
    assert_eq!(extract_images(&file, &over).unwrap_err(), CursorError::Validation);
    let far = ExtractOptions::new().with_initial_suffix(usize::MAX);
    assert_eq!(extract_images(&file, &far).unwrap_err(), CursorError::Validation);
}

#[test]
fn extraction_passes_decoding_errors_on() {
    let options = ExtractOptions::new();
    assert_eq!(extract_to_pngs(b"Xcur", &options).unwrap_err(), CursorError::Truncated);
    assert_eq!(extract_to_pngs(b"RIFF....", &options).unwrap_err(), CursorError::Format);
    assert_eq!(extract_metadata(b"").unwrap_err(), CursorError::Truncated);
}

#[test]
fn images_that_cannot_be_encoded_fail_validation() {
    let empty = RgbaImage::new(0, 0);
    assert_eq!(png_file(&empty), Err(CursorError::Validation));
}

#[test]
fn png_files_decode_to_the_image() {
    let mut image = RgbaImage::new(2, 2);
    image.put_pixel(0, 0, [1, 2, 3, 4]);
    image.put_pixel(1, 1, [250, 251, 252, 253]);
    let png = png_file(&image).unwrap();
    assert_ne!(&png, image.as_raw());
    assert_eq!(&decode(&png), image.as_raw());
}

#[test]
fn the_prefix_defaults_to_the_stem_of_the_file() {
    let data = sample();
    let named = extract_cursor(&data, Some("hand"), Some("given"), 0).unwrap();
    assert_eq!(named.files[0].filename, "given_000.png");
    let stemmed = extract_cursor(&data, Some("hand"), None, 1).unwrap();
    assert_eq!(stemmed.files[0].filename, "hand_001.png");
    assert_eq!(stemmed.config.unwrap().name, "hand.conf");
    let plain = extract_cursor(&data, None, None, 0).unwrap();
    assert_eq!(plain.files[3].filename, "cursor_003.png");
}

#[test]
fn metadata_counts_the_images_of_each_size() {
    let meta = extract_metadata(&sample()).unwrap();
    assert_eq!(meta.sizes, vec![24, 48]);
    assert_eq!(meta.total_images, 4);
    assert_eq!(meta.frames_per_size, vec![(24, 2), (48, 2)]);
}

/// A cursor file with one image of 32 bits per pixel, `side` by `side`,
/// opaque red, with a clear mask.
fn red_cursor(side: u8) -> Vec<u8> {
    let pixels = side as usize * side as usize;
    let mask_row = (side as usize + 31) / 32 * 4;
    let payload = 40 + 4 * pixels + mask_row * side as usize;
    let mut out = vec![0, 0, 2, 0, 1, 0, side, side, 0, 0];
    out.extend_from_slice(&7u16.to_le_bytes());
    out.extend_from_slice(&9u16.to_le_bytes());
    out.extend_from_slice(&(payload as u32).to_le_bytes());
    out.extend_from_slice(&22u32.to_le_bytes());
    out.extend_from_slice(&40u32.to_le_bytes());
    out.extend_from_slice(&(side as i32).to_le_bytes());
    out.extend_from_slice(&(2 * side as i32).to_le_bytes());
    out.extend_from_slice(&1u16.to_le_bytes());
    out.extend_from_slice(&32u16.to_le_bytes());
    out.extend_from_slice(&[0; 24]);
    for _ in 0..pixels {
        out.extend_from_slice(&[0, 0, 255, 255]);
    }
    out.extend_from_slice(&vec![0; mask_row * side as usize]);
    out
}

#[test]
fn test_write_png() {
    let mut image = RgbaImage::new(32, 32);
    for y in 0..32 {
        for x in 0..32 {
            image.put_pixel(x, y, [255, 0, 0, 255]);
        }
    }

    let png = png_file(&image).unwrap();
    assert!(!png.is_empty());

    let loaded = image::load_from_memory(&png).unwrap();
    assert_eq!(loaded.width(), 32);
    assert_eq!(loaded.height(), 32);
    assert_eq!(loaded.to_rgba8().as_raw(), image.as_raw());
}

#[test]
fn test_full_pipeline_win2xcur_to_xcur2png() {
    let source = red_cursor(32);
    let options = ConversionOptions::new().with_scale(1, 1);

    let result = convert_windows_cursor(&source, &options);
    assert!(result.is_ok(), "Failed to convert .cur to Xcursor: {:?}", result.err());
    let xcursor = result.unwrap();
    assert!(!xcursor.is_empty(), "Xcursor file was not created");

    let extract_options =
        ExtractOptions::new().with_prefix("crosshair").with_initial_suffix(0).with_config(true);
    let extracted = extract_to_pngs(&xcursor, &extract_options);
    assert!(extracted.is_ok(), "Failed to extract PNGs: {:?}", extracted.err());
    let extraction = extracted.unwrap();
    assert!(!extraction.files.is_empty(), "No PNG files were extracted");

    let first = &extraction.files[0];
    assert_eq!(first.filename, "crosshair_000.png");
    let loaded = image::load_from_memory(&first.png);
    assert!(loaded.is_ok(), "Could not load extracted PNG");
    let loaded = loaded.unwrap().to_rgba8();
    assert_eq!((loaded.width(), loaded.height()), (32, 32));
    assert!(loaded.pixels().all(|pixel| pixel.0 == [255, 0, 0, 255]));

    let config = extraction.config.expect("Config file was not created");
    assert_eq!(config.name, "crosshair.conf");
    assert!(config.content.contains("#size"), "Config missing header");
    assert!(config.content.contains("crosshair_000.png"), "Config missing PNG reference");
    assert_eq!(
        config.content,
        "#size\txhot\tyhot\tPath to PNG image\tdelay\n32\t7\t9\tcrosshair_000.png\t0\n"
    );
}
