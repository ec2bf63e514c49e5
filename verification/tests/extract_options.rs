use ani2hyprtui::pipeline::xcur2png::extractor::ExtractOptions;
use ani2hyprtui::pipeline::xcur2png::png_writer::{
    format_config_line, render_config_file, PngWriteConfig,
};

#[test]
fn test_extract_options() {
    let opts = ExtractOptions::new()
        .with_prefix("test")
        .with_initial_suffix(10)
        .with_config(false);

    assert_eq!(opts.prefix, "test");
    assert_eq!(opts.initial_suffix, 10);
    assert!(!opts.write_config);
}

#[test]
fn test_extract_options_default() {
    let opts = ExtractOptions::default();
    assert_eq!(opts.prefix, "cursor");
    assert_eq!(opts.initial_suffix, 0);
    assert!(opts.write_config);
}

#[test]
fn extract_options_builders_set_one_field_each() {
    let opts = ExtractOptions::new().with_config_name("list.conf").with_all_sizes(false);
    assert_eq!(opts.prefix, "cursor");
    assert_eq!(opts.config_name.as_deref(), Some("list.conf"));
    assert!(!opts.extract_all_sizes);
    assert!(opts.write_config);
    assert!(ExtractOptions::new().extract_all_sizes);
    assert!(ExtractOptions::new().config_name.is_none());
}

#[test]
fn test_format_config_line() {
    let config = PngWriteConfig {
        filename: "cursor_001.png".to_string(),
        size: 32,
        xhot: 16,
        yhot: 16,
        delay: 50,
    };

    let line = format_config_line(&config);
    assert_eq!(line, "32\t16\t16\tcursor_001.png\t50");
}

#[test]
fn config_line_writes_extreme_numbers() {
    let config = PngWriteConfig {
        filename: String::new(),
        size: 0,
        xhot: 4294967295,
        yhot: 10,
        delay: 1000,
    };
    assert_eq!(format_config_line(&config), "0\t4294967295\t10\t\t1000");
}

#[test]
fn test_write_config_file() {
    let configs = vec![
        PngWriteConfig {
            filename: "cursor_001.png".to_string(),
            size: 32,
            xhot: 16,
            yhot: 16,
            delay: 50,
        },
        PngWriteConfig {
            filename: "cursor_002.png".to_string(),
            size: 32,
            xhot: 16,
            yhot: 16,
            delay: 50,
        },
    ];

    let content = render_config_file(&configs);
    assert!(content.contains("#size"));
    assert!(content.contains("cursor_001.png"));
    assert!(content.contains("cursor_002.png"));
    assert_eq!(
        content,
        "#size\txhot\tyhot\tPath to PNG image\tdelay\n\
         32\t16\t16\tcursor_001.png\t50\n\
         32\t16\t16\tcursor_002.png\t50\n"
    );
}

#[test]
fn config_file_without_entries_is_the_header() {
    assert_eq!(
        render_config_file(&Vec::new()),
        "#size\txhot\tyhot\tPath to PNG image\tdelay\n"
    );
}
