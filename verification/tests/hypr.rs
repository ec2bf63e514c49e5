use ani2hyprtui::error::CursorError;
use ani2hyprtui::pipeline::hyprcursor::{
    choose_notation, create_cursor_theme, extract_xcursor_theme, extract_xcursor_to_hypr_source,
    file_name_of, is_valid_shape_name, must_clean, output_location, package_shape,
    parse_manifest, parse_manifest_hl, parse_manifest_toml, parse_meta_hl, parse_meta_toml,
    parse_xconfig, process_shape, push_fraction, render_meta, theme_dir_name, wrap_to_u32,
    HyprImage, HyprShape, Notation, OutputLocation, ShapeDirectory, ShapeFile, ThemeCursor,
    XConfigEntry,
};
use ani2hyprtui::pipeline::raster::RgbaImage;
use ani2hyprtui::pipeline::single_precision::{quotient_in_hundredths, rounded, to_single};
use ani2hyprtui::pipeline::win2xcur::cur::{CursorFrame, CursorImage};
use ani2hyprtui::pipeline::win2xcur::xcursor_writer::to_x11;
use ani2hyprtui::pipeline::xcur2png::png_writer::{render_config_file, PngWriteConfig};
use std::io::Read;

fn names(list: &[&str]) -> Vec<String> {
    list.iter().map(|s| s.to_string()).collect()
}

fn file(name: &str, content: &[u8]) -> ShapeFile {
    ShapeFile { name: name.to_string(), content: content.to_vec() }
}

fn unzip(bytes: &[u8]) -> Vec<(String, Vec<u8>)> {
    let mut archive = zip::ZipArchive::new(std::io::Cursor::new(bytes.to_vec())).unwrap();
    let mut entries = Vec::new();
    for i in 0..archive.len() {
        let mut entry = archive.by_index(i).unwrap();
        let mut content = Vec::new();
        entry.read_to_end(&mut content).unwrap();
        entries.push((entry.name().unwrap().to_string(), content));
    }
    entries
}

fn xcursor(hotspot: (u16, u16), size: u32, delays: &[u32]) -> Vec<u8> {
    let frames: Vec<CursorFrame> = delays
        .iter()
        .map(|delay| CursorFrame {
            images: vec![CursorImage {
                image: RgbaImage::new(2, 2),
                hotspot,
                nominal_size: size,
            }],
            delay: *delay,
        })
        .collect();
    to_x11(&frames).unwrap()
}

#[test]
fn manifest_lines_set_their_fields() {
    let m = parse_manifest_hl(
        "# a theme\n\
         name = My Theme \n\
         \n\
         version=1.2\r\n\
         unknown = x\n\
         not a pair\n\
         description = first\n\
         description = a = b\n\
         cursors_directory =\thyprcursors",
    );
    assert_eq!(m.name, "My Theme");
    assert_eq!(m.version, "1.2");
    assert_eq!(m.description, "a = b");
    assert_eq!(m.cursors_directory, "hyprcursors");
    assert_eq!(m.log_info(), "Manifest: My Theme v1.2 - a = b");
    let empty = parse_manifest_hl("");
    assert_eq!(empty.name, "");
    assert_eq!(empty.cursors_directory, "");
}

#[test]
fn manifest_can_be_written_in_toml() {
    let m = parse_manifest_toml("name = \"T\"\nversion = \"2\"\n").unwrap();
    assert_eq!(m.name, "T");
    assert_eq!(m.version, "2");
    assert_eq!(m.description, "");
    assert_eq!(m.cursors_directory, "cursors");
    // A value of another type counts as absent.
    let m = parse_manifest(Notation::Toml, "name = 3\ncursors_directory = \"c\"").unwrap();
    assert_eq!(m.name, "");
    assert_eq!(m.cursors_directory, "c");
    assert_eq!(parse_manifest_toml("name = ").unwrap_err(), CursorError::Config);
    assert_eq!(parse_manifest(Notation::Hl, "name = ").unwrap().name, "");
}

#[test]
fn shape_metadata_lists_images_and_overrides() {
    let shape = parse_meta_hl(
        "resize_algorithm = bilinear\n\
         hotspot_x = 0.25\n\
         define_size = 24, a.png, 0\n\
         define_size = 48 , b c.png , 30, more\n\
         define_size = 64, missing delay\n\
         define_size = x, d.png, -1\n\
         define_override = arrow\n\
         define_override =\n\
         #define_override = no\n",
        "left_ptr",
    );
    assert_eq!(shape.directory, "left_ptr");
    assert_eq!(shape.resize_algorithm, "bilinear");
    let images: Vec<(u32, &str, u32)> =
        shape.images.iter().map(|i| (i.size, i.file.as_str(), i.delay)).collect();
    assert_eq!(images, vec![(24, "a.png", 0), (48, "b c.png", 30), (0, "d.png", 0)]);
    assert_eq!(shape.overrides, names(&["arrow", ""]));
    let plain = parse_meta_hl("", "s");
    assert_eq!(plain.resize_algorithm, "none");
    assert!(plain.images.is_empty());
}

#[test]
fn shape_metadata_can_be_written_in_toml() {
    let shape = parse_meta_toml(
        "resize_algorithm = \"nearest\"\n\
         overrides = [\"arrow\", 3, \"default\"]\n\
         sizes = [ { size = 24, file = \"a.png\", delay = 10 }, 7, { file = \"b.png\" }, \
         { size = -1, delay = 4294967297 } ]\n",
        "hand",
    )
    .unwrap();
    assert_eq!(shape.directory, "hand");
    assert_eq!(shape.resize_algorithm, "nearest");
    let images: Vec<(u32, &str, u32)> =
        shape.images.iter().map(|i| (i.size, i.file.as_str(), i.delay)).collect();
    assert_eq!(images, vec![(24, "a.png", 10), (0, "b.png", 0), (4294967295, "", 1)]);
    assert_eq!(shape.overrides, names(&["arrow", "default"]));
    let plain = parse_meta_toml("", "s").unwrap();
    assert_eq!(plain.resize_algorithm, "none");
    assert!(plain.images.is_empty() && plain.overrides.is_empty());
    assert_eq!(parse_meta_toml("sizes = [", "s").unwrap_err(), CursorError::Config);
}

#[test]
fn integers_wrap_to_32_bits() {
    assert_eq!(wrap_to_u32(0), 0);
    assert_eq!(wrap_to_u32(4294967295), 4294967295);
    assert_eq!(wrap_to_u32(4294967296), 0);
    assert_eq!(wrap_to_u32(-1), 4294967295);
    assert_eq!(wrap_to_u32(-4294967296), 0);
    assert_eq!(wrap_to_u32(i64::MIN), 0);
    assert_eq!(wrap_to_u32(i64::MAX), 4294967295);
}

#[test]
fn sidecar_lines_hold_five_fields() {
    let entries = parse_xconfig(
        "#size\txhot\tyhot\tPath to PNG image\tdelay\n\
         32\t16\t8\tarrow_000.png\t50\n\
         \n\
         24\t1\t2\ttoo short\n\
         x\t+7\t-1\tdir/with space.png\t 9\textra\n",
    );
    let seen: Vec<(u32, u32, u32, &str, u32)> = entries
        .iter()
        .map(|e| (e.size, e.hotspot_x, e.hotspot_y, e.image.as_str(), e.delay))
        .collect();
    // A field that is no number counts as 0; fields are not trimmed.
    assert_eq!(seen, vec![(32, 16, 8, "arrow_000.png", 50), (0, 7, 0, "dir/with space.png", 0)]);
    assert!(parse_xconfig("").is_empty());
}

#[test]
fn shapes_are_validated() {
    let mut shape = HyprShape {
        directory: "s".to_string(),
        resize_algorithm: "none".to_string(),
        images: vec![
            HyprImage { file: "a.png".to_string(), size: 24, delay: 5 },
            HyprImage { file: "b.png".to_string(), size: 48, delay: 0 },
            HyprImage { file: "c.png".to_string(), size: 48, delay: 10 },
        ],
        overrides: Vec::new(),
    };
    assert!(shape.validate().is_ok());
    assert_eq!(shape.warnings().len(), 1);
    shape.images[1].size = 0;
    assert_eq!(shape.validate(), Err(CursorError::Validation));
    shape.images[1].size = 1;
    shape.directory = String::new();
    assert_eq!(shape.validate(), Err(CursorError::Validation));
}

#[test]
fn shape_names_hold_letters_digits_and_three_signs() {
    assert!(is_valid_shape_name("left_ptr"));
    assert!(is_valid_shape_name("not-allowed.v2"));
    assert!(is_valid_shape_name("\u{e9}t\u{e9}9"));
    assert!(is_valid_shape_name(""));
    assert!(!is_valid_shape_name("two words"));
    assert!(!is_valid_shape_name("a/b"));
    assert!(!is_valid_shape_name("star*"));
}

#[test]
fn theme_directories_are_named_after_the_theme() {
    assert_eq!(theme_dir_name("My Cool Theme"), "theme_My_Cool_Theme");
    assert_eq!(theme_dir_name(""), "theme_");
    assert!(matches!(output_location(true, true, "d".to_string()), OutputLocation::Exact));
    assert!(matches!(
        output_location(true, false, "d".to_string()),
        OutputLocation::Within(name) if name == "d"
    ));
    assert!(matches!(
        output_location(false, true, "d".to_string()),
        OutputLocation::Beside(name) if name == "d"
    ));
    assert!(must_clean(true, false));
    assert!(!must_clean(true, true));
    assert!(!must_clean(false, false));
    assert_eq!(choose_notation(true, true), Some(Notation::Hl));
    assert_eq!(choose_notation(false, true), Some(Notation::Toml));
    assert_eq!(choose_notation(false, false), None);
}

#[test]
fn a_shape_is_packed_with_its_metadata_first() {
    let meta = "define_size = 24, a.png, 0\ndefine_size = 48, b.png, 0\n";
    let files = vec![file("b.png", b"BBBB"), file("a.png", b"AA"), file("unused", b"U")];
    let package = process_shape("hand", Notation::Hl, meta, &files).unwrap();
    assert_eq!(package.file_name, "hand.hlc");
    assert_eq!(&package.bytes[..2], b"PK");
    assert_eq!(
        unzip(&package.bytes),
        vec![
            ("meta.hl".to_string(), meta.as_bytes().to_vec()),
            ("a.png".to_string(), b"AA".to_vec()),
            ("b.png".to_string(), b"BBBB".to_vec()),
        ]
    );
    let toml = "sizes = [ { size = 24, file = \"a.png\" } ]";
    let package = process_shape("hand", Notation::Toml, toml, &files).unwrap();
    assert_eq!(unzip(&package.bytes)[0].0, "meta.toml");
}

#[test]
fn a_shape_that_cannot_be_packed_fails_validation() {
    let files = vec![file("a.png", b"AA")];
    let missing = process_shape("s", Notation::Hl, "define_size = 24, b.png, 0", &files);
    assert_eq!(missing.unwrap_err(), CursorError::Validation);
    let none = process_shape("s", Notation::Hl, "resize_algorithm = none", &files);
    assert_eq!(none.unwrap_err(), CursorError::Validation);
    let zero = process_shape("s", Notation::Hl, "define_size = 0, a.png, 0", &files);
    assert_eq!(zero.unwrap_err(), CursorError::Validation);
    let unnamed = process_shape("", Notation::Hl, "define_size = 24, a.png, 0", &files);
    assert_eq!(unnamed.unwrap_err(), CursorError::Validation);
    let bad = process_shape("s", Notation::Toml, "sizes = [", &files);
    assert_eq!(bad.unwrap_err(), CursorError::Config);
    // The archive writer refuses a second file of the same name.
    let twice = "define_size = 24, a.png, 0\ndefine_size = 48, a.png, 0";
    assert_eq!(process_shape("s", Notation::Hl, twice, &files).unwrap_err(), CursorError::Io);
    let shape = parse_meta_hl("define_size = 24, a.png, 0", "s");
    assert!(package_shape(&shape, "meta.hl", b"m", &files).is_ok());
}

#[test]
fn file_names_are_the_last_part_of_a_path() {
    assert_eq!(file_name_of("a.png").as_deref(), Some("a.png"));
    assert_eq!(file_name_of("dir/sub/a.png").as_deref(), Some("a.png"));
    assert_eq!(file_name_of("/abs/a").as_deref(), Some("a"));
    assert_eq!(file_name_of("dir/a//").as_deref(), Some("a"));
    assert_eq!(file_name_of("dir/a/.").as_deref(), Some("a"));
    assert_eq!(file_name_of("dir/.."), None);
    assert_eq!(file_name_of(".."), None);
    assert_eq!(file_name_of("."), None);
    assert_eq!(file_name_of("/"), None);
    assert_eq!(file_name_of(""), None);
}

#[test]
fn fractions_are_written_with_two_decimals() {
    let cases = [
        ((0, 32), "0.00"),
        ((16, 32), "0.50"),
        ((1, 3), "0.33"),
        ((2, 3), "0.67"),
        ((4, 32), "0.12"),
        ((12, 32), "0.38"),
        ((32, 32), "1.00"),
        ((70000, 1), "70000.00"),
        ((199, 200), "1.00"),
        ((3, 200), "0.01"),
        ((1, 40), "0.03"),
        ((5, 40), "0.12"),
    ];
    for ((x, size), text) in cases {
        let mut out = String::from(">");
        push_fraction(&mut out, x, size);
        assert_eq!(out, format!(">{}", text));
    }
}

#[test]
fn metadata_is_written_from_the_sidecar_entries() {
    let entries = vec![
        XConfigEntry {
            size: 32,
            hotspot_x: 8,
            hotspot_y: 24,
            image: "dir/a_000.png".to_string(),
            delay: 50,
        },
        XConfigEntry {
            size: 48,
            hotspot_x: 1,
            hotspot_y: 1,
            image: "a_001.png".to_string(),
            delay: 0,
        },
    ];
    let text = render_meta("bilinear", &entries, &names(&["arrow", "default"])).unwrap();
    assert_eq!(
        text,
        "resize_algorithm = bilinear\nhotspot_x = 0.25\nhotspot_y = 0.75\n\n\
         define_size = 32, a_000.png, 50\ndefine_size = 48, a_001.png, 0\n\n\
         define_override = arrow\ndefine_override = default\n"
    );
    let zero = vec![XConfigEntry {
        size: 0,
        hotspot_x: 8,
        hotspot_y: 8,
        image: "z.png".to_string(),
        delay: 1,
    }];
    assert_eq!(
        render_meta("none", &zero, &Vec::new()).unwrap(),
        "resize_algorithm = none\nhotspot_x = 0.0\nhotspot_y = 0.0\n\n\
         define_size = 0, z.png, 1\n\n"
    );
    let nameless = vec![XConfigEntry {
        size: 1,
        hotspot_x: 0,
        hotspot_y: 0,
        image: "dir/..".to_string(),
        delay: 1,
    }];
    assert!(render_meta("none", &nameless, &Vec::new()).is_none());
}

#[test]
fn an_xcursor_file_becomes_the_sources_of_a_shape() {
    let data = xcursor((1, 2), 4, &[10, 20]);
    let source =
        extract_xcursor_to_hypr_source(&data, "hand", None, &names(&["grab"])).unwrap();
    assert_eq!(source.name, "hand");
    let files: Vec<&str> = source.files.iter().map(|f| f.filename.as_str()).collect();
    assert_eq!(files, vec!["hand_000.png", "hand_001.png"]);
    assert_eq!(
        source.meta,
        "resize_algorithm = none\nhotspot_x = 0.25\nhotspot_y = 0.50\n\n\
         define_size = 4, hand_000.png, 10\ndefine_size = 4, hand_001.png, 20\n\n\
         define_override = grab\n"
    );
    let failed = extract_xcursor_to_hypr_source(b"", "hand", Some("x"), &Vec::new());
    assert_eq!(failed.unwrap_err(), CursorError::Truncated);
}

#[test]
fn a_theme_is_extracted_and_compiled_again() {
    let cursors = vec![
        ThemeCursor {
            stem: "left_ptr".to_string(),
            data: xcursor((0, 0), 2, &[0]),
            aliases: names(&["arrow"]),
        },
        ThemeCursor {
            stem: "wait".to_string(),
            data: xcursor((1, 1), 2, &[30, 30]),
            aliases: Vec::new(),
        },
    ];
    let extracted = extract_xcursor_theme("My Theme", &cursors, Some("nearest")).unwrap();
    assert_eq!(
        extracted.manifest,
        "name = My Theme\ndescription = Automatically extracted with ani2hyprtui\n\
         version = 1.0\ncursors_directory = hyprcursors\n"
    );
    assert!(extracted.skipped.is_empty());
    assert_eq!(extracted.shapes.len(), 2);
    assert!(extracted.shapes[0].meta.starts_with("resize_algorithm = nearest\n"));
    assert!(extracted.shapes[0].meta.ends_with("define_override = arrow\n"));
    let dirs: Vec<ShapeDirectory> = extracted
        .shapes
        .iter()
        .map(|shape| ShapeDirectory {
            name: shape.name.clone(),
            notation: Some(Notation::Hl),
            meta: shape.meta.clone(),
            files: shape
                .files
                .iter()
                .map(|f| ShapeFile { name: f.filename.clone(), content: f.png.clone() })
                .collect(),
        })
        .collect();
    let theme = create_cursor_theme(Notation::Hl, &extracted.manifest, &dirs).unwrap();
    assert_eq!(theme.manifest.name, "My Theme");
    assert_eq!(theme.manifest.cursors_directory, "hyprcursors");
    let packed: Vec<&str> = theme.packages.iter().map(|p| p.file_name.as_str()).collect();
    assert_eq!(packed, vec!["left_ptr.hlc", "wait.hlc"]);
    let entries = unzip(&theme.packages[1].bytes);
    let listed: Vec<&str> = entries.iter().map(|e| e.0.as_str()).collect();
    assert_eq!(listed, vec!["meta.hl", "wait_000.png", "wait_001.png"]);
    assert_eq!(entries[1].1, extracted.shapes[1].files[0].png);
}

#[test]
fn theme_stages_stop_at_the_first_failure() {
    let cursors = vec![
        ThemeCursor { stem: "a".to_string(), data: xcursor((0, 0), 2, &[0]), aliases: Vec::new() },
        ThemeCursor { stem: "b".to_string(), data: b"Xcur".to_vec(), aliases: Vec::new() },
    ];
    assert_eq!(extract_xcursor_theme("t", &cursors, None).unwrap_err(), CursorError::Truncated);
    let dirs = vec![
        ShapeDirectory {
            name: "bad name".to_string(),
            notation: None,
            meta: String::new(),
            files: Vec::new(),
        },
        ShapeDirectory {
            name: "good".to_string(),
            notation: Some(Notation::Hl),
            meta: "define_size = 1, f, 0".to_string(),
            files: vec![file("f", b"x")],
        },
    ];
    let theme = create_cursor_theme(Notation::Hl, "name = n", &dirs).unwrap();
    assert_eq!(theme.skipped, names(&["bad name"]));
    assert_eq!(theme.packages.len(), 1);
    let mut broken = dirs;
    broken.push(ShapeDirectory {
        name: "nometa".to_string(),
        notation: None,
        meta: String::new(),
        files: Vec::new(),
    });
    assert_eq!(
        create_cursor_theme(Notation::Hl, "name = n", &broken).unwrap_err(),
        CursorError::Validation
    );
    assert_eq!(
        create_cursor_theme(Notation::Toml, "name = ", &Vec::new()).unwrap_err(),
        CursorError::Config
    );
}

#[test]
fn a_written_sidecar_reads_back() {
    let configs = vec![
        PngWriteConfig {
            filename: "left ptr_000.png".to_string(),
            size: 32,
            xhot: 4,
            yhot: 0,
            delay: 50,
        },
        PngWriteConfig {
            filename: String::new(),
            size: 4294967295,
            xhot: 10,
            yhot: 109,
            delay: 0,
        },
    ];
    let entries = parse_xconfig(&render_config_file(&configs));
    assert_eq!(entries.len(), 2);
    for (entry, config) in entries.iter().zip(configs.iter()) {
        assert_eq!(entry.size, config.size);
        assert_eq!(entry.hotspot_x, config.xhot);
        assert_eq!(entry.hotspot_y, config.yhot);
        assert_eq!(entry.image, config.filename);
        assert_eq!(entry.delay, config.delay);
    }
}

#[test]
fn short_delays_are_warned_of() {
    let shape = HyprShape {
        directory: "s".to_string(),
        resize_algorithm: "none".to_string(),
        images: vec![
            HyprImage { file: "a.png".to_string(), size: 24, delay: 5 },
            HyprImage { file: "b.png".to_string(), size: 48, delay: 0 },
            HyprImage { file: "c.png".to_string(), size: 48, delay: 10 },
            HyprImage { file: "d.png".to_string(), size: 48, delay: 9 },
        ],
        overrides: Vec::new(),
    };
    assert_eq!(
        shape.warnings(),
        names(&[
            "Warning: Very short delay (5ms) for image a.png",
            "Warning: Very short delay (9ms) for image d.png",
        ])
    );
    let files = vec![file("a.png", b"AA"), file("b.png", b"B")];
    let meta = "define_size = 24, a.png, 1\ndefine_size = 48, b.png, 50\n";
    let package = process_shape("hand", Notation::Hl, meta, &files).unwrap();
    assert_eq!(package.warnings, names(&["Warning: Very short delay (1ms) for image a.png"]));
    let calm = process_shape("hand", Notation::Hl, "define_size = 24, a.png, 0", &files).unwrap();
    assert!(calm.warnings.is_empty());
}

#[test]
fn an_archive_refuses_a_name_that_it_holds() {
    let files = vec![file("meta.hl", b"AA"), file("a.png", b"A")];
    let clash = process_shape("s", Notation::Hl, "define_size = 24, meta.hl, 0", &files);
    assert_eq!(clash.unwrap_err(), CursorError::Io);
    let fine = process_shape("s", Notation::Hl, "define_size = 24, a.png, 0", &files);
    assert!(fine.is_ok());
}

fn written(x: u32, size: u32) -> String {
    let mut out = String::new();
    push_fraction(&mut out, x, size);
    out
}

#[test]
fn fractions_are_those_of_single_precision() {
    for size in 1..=320u32 {
        for x in 0..=size + 3 {
            assert_eq!(written(x, size), format!("{:.2}", x as f32 / size as f32), "{x}/{size}");
        }
    }
    // Large numbers, which single precision cannot hold exactly.
    let mut state: u64 = 0x2545_F491_4F6C_DD1D;
    for round in 0..200_000u32 {
        state ^= state << 13;
        state ^= state >> 7;
        state ^= state << 17;
        let x = (state >> (round % 32)) as u32;
        let size = ((state >> 32) as u32 >> (round % 29)).max(1);
        assert_eq!(written(x, size), format!("{:.2}", x as f32 / size as f32), "{x}/{size}");
    }
    for x in [0, 1, 16_777_215, 16_777_216, 16_777_217, 16_777_219, 4_294_967_295] {
        for size in [1, 2, 3, 7, 40, 200, 16_777_217, 33_554_434, 4_294_967_295] {
            assert_eq!(written(x, size), format!("{:.2}", x as f32 / size as f32), "{x}/{size}");
        }
    }
}

#[test]
fn whole_numbers_are_rounded_to_24_bits() {
    for n in [0u32, 1, 5, 16_777_215, 16_777_216, 16_777_217, 16_777_218, 16_777_219] {
        assert_eq!(to_single(n), n as f32 as u64, "{n}");
    }
    for n in [33_554_433u32, 33_554_434, 33_554_435, 2_147_483_775, 4_294_967_167, 4_294_967_295] {
        assert_eq!(to_single(n), n as f32 as u64, "{n}");
    }
    assert_eq!(rounded(5, 2), 2);
    assert_eq!(rounded(7, 2), 4);
    assert_eq!(rounded(7, 3), 2);
    assert_eq!(rounded(8, 3), 3);
    assert_eq!(quotient_in_hundredths(1, 8), 12);
    assert_eq!(quotient_in_hundredths(3, 8), 38);
    assert_eq!(quotient_in_hundredths(3, 200), 1);
}
