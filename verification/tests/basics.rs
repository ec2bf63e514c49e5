use ani2hyprtui::components::mapping_editor::{find_best_match, score_match};
use ani2hyprtui::components::runner::{PipelineStatus, RunProgress};
use ani2hyprtui::components::settings::SettingsSection;
use ani2hyprtui::components::symlinks::SymlinksState;
use ani2hyprtui::components::theme_writer::ThemeWriterState;
use ani2hyprtui::error::CursorError;
use ani2hyprtui::focus::Focus;
use ani2hyprtui::model::cursor::CursorMeta;
use ani2hyprtui::model::state::{ActiveView, AppState};
use ani2hyprtui::pipeline::cursor_io::{
    classify_cursor_file, convert_to_cursor_meta, convert_windows_cursor_to_meta,
    load_cursor_file, load_preview_cursor, CursorFileKind, ImageInfo,
};
use ani2hyprtui::pipeline::raster::RgbaImage;
use ani2hyprtui::pipeline::win2xcur::cur::{CursorFrame, CursorImage};
use ani2hyprtui::pipeline::win2xcur::xcursor_writer::to_x11;
use ani2hyprtui::text::{
    decimal_digits, line_spans, parse_u16, parse_u32, push_decimal, push_decimal_padded3,
    split_spans, trim, word_spans,
};
use ani2hyprtui::widgets::theme::{
    get_current_theme_type, set_theme, ThemeSelection, ThemeType,
};

fn chars(s: &str) -> Vec<char> {
    s.chars().collect()
}

fn pieces(s: &str, cut: fn(&[char]) -> Vec<ani2hyprtui::text::Span>) -> Vec<String> {
    let text = chars(s);
    cut(&text).iter().map(|span| text[span.start..span.end].iter().collect()).collect()
}

fn image(size: u32, hotspot: (u16, u16)) -> CursorImage {
    CursorImage { image: RgbaImage::new(1, 1), hotspot, nominal_size: size }
}

#[test]
fn pixels_are_stored_row_by_row() {
    let mut img = RgbaImage::new(3, 2);
    assert_eq!((img.width(), img.height()), (3, 2));
    assert_eq!(img.as_raw(), &vec![0u8; 24]);
    img.put_pixel(2, 1, [1, 2, 3, 4]);
    img.put_pixel(0, 0, [5, 6, 7, 8]);
    img.set_alpha(0, 0, 9);
    assert_eq!(img.get_pixel(2, 1), [1, 2, 3, 4]);
    assert_eq!(img.get_pixel(0, 0), [5, 6, 7, 9]);
    assert_eq!(&img.as_raw()[20..], &[1, 2, 3, 4]);
    let copy = img.clone();
    assert_eq!(copy.as_raw(), img.as_raw());
    assert_eq!(img.into_raw().len(), 24);
    assert!(RgbaImage::from_raw(2, 2, vec![0; 16]).is_some());
    assert!(RgbaImage::from_raw(2, 2, vec![0; 15]).is_none());
    assert!(RgbaImage::from_raw(2, 2, vec![0; 17]).is_none());
    assert!(RgbaImage::from_raw(0, 7, Vec::new()).is_some());
}

#[test]
fn every_error_has_its_message() {
    let all = [
        CursorError::Format,
        CursorError::Truncated,
        CursorError::Decode,
        CursorError::Validation,
        CursorError::Io,
        CursorError::Config,
        CursorError::Empty,
    ];
    for (i, a) in all.iter().enumerate() {
        assert!(!a.message().is_empty());
        for b in &all[i + 1..] {
            assert_ne!(a.message(), b.message());
        }
    }
    assert_eq!(CursorError::Empty.message(), "no valid cursor images found");
}

#[test]
fn numbers_are_written_in_decimal() {
    assert_eq!(decimal_digits(0), vec!['0']);
    assert_eq!(decimal_digits(907), vec!['9', '0', '7']);
    let mut s = String::from("n=");
    push_decimal(&mut s, u64::MAX);
    assert_eq!(s, "n=18446744073709551615");
    for (n, text) in [(0, "000"), (7, "007"), (42, "042"), (999, "999"), (1000, "1000")] {
        let mut s = String::new();
        push_decimal_padded3(&mut s, n);
        assert_eq!(s, text);
    }
}

#[test]
fn numbers_are_read_in_decimal() {
    assert_eq!(parse_u32(&chars("0")), Some(0));
    assert_eq!(parse_u32(&chars("+12")), Some(12));
    assert_eq!(parse_u32(&chars("0004294967295")), Some(4294967295));
    assert_eq!(parse_u32(&chars("4294967296")), None);
    assert_eq!(parse_u32(&chars("99999999999999999999999")), None);
    assert_eq!(parse_u32(&chars("")), None);
    assert_eq!(parse_u32(&chars("+")), None);
    assert_eq!(parse_u32(&chars("-1")), None);
    assert_eq!(parse_u32(&chars("1 ")), None);
    assert_eq!(parse_u32(&chars("1+")), None);
    assert_eq!(parse_u32(&chars("\u{661}")), None);
    assert_eq!(parse_u16(&chars("65535")), Some(65535));
    assert_eq!(parse_u16(&chars("65536")), None);
}

#[test]
fn text_is_cut_into_lines_words_and_fields() {
    assert_eq!(pieces("a\nb c\n\nd", line_spans), vec!["a", "b c", "", "d"]);
    assert_eq!(pieces("a\n", line_spans), vec!["a"]);
    assert_eq!(pieces("\n", line_spans), vec![""]);
    assert!(pieces("", line_spans).is_empty());
    assert_eq!(pieces("  one\ttwo \u{a0} three\n", word_spans), vec!["one", "two", "three"]);
    assert!(pieces(" \t ", word_spans).is_empty());
    let text = chars("a,,b,");
    let fields: Vec<String> = split_spans(&text, ',')
        .iter()
        .map(|span| text[span.start..span.end].iter().collect())
        .collect();
    assert_eq!(fields, vec!["a", "", "b", ""]);
    assert_eq!(split_spans(&[], ',').len(), 1);
    assert_eq!(trim(&chars(" \r\n x y\u{3000}\t")), &chars("x y")[..]);
    assert_eq!(trim(&chars("   ")), &[] as &[char]);
    assert_eq!(trim(&chars("\u{200b}a")), &chars("\u{200b}a")[..]);
}

#[test]
fn focus_moves_between_the_panels() {
    let all = [
        Focus::FileBrowser,
        Focus::Runner,
        Focus::Overrides,
        Focus::Editor,
        Focus::Logs,
        Focus::Mapping,
    ];
    for show in [false, true] {
        for f in all {
            if f != Focus::Mapping || show {
                assert_eq!(f.next(show).prev(show), f);
                assert_eq!(f.prev(show).next(show), f);
            }
        }
    }
    assert_eq!(Focus::Logs.next(false), Focus::FileBrowser);
    assert_eq!(Focus::Logs.next(true), Focus::Mapping);
    assert_eq!(Focus::FileBrowser.prev(true), Focus::Mapping);
    assert_eq!(Focus::Editor.left(), Some(Focus::FileBrowser));
    assert_eq!(Focus::Runner.left(), None);
    assert_eq!(Focus::Editor.right(false), None);
    assert_eq!(Focus::Logs.right(true), Some(Focus::Mapping));
    assert_eq!(Focus::Overrides.right(false), Some(Focus::Logs));
    assert_eq!(Focus::Mapping.right(true), None);
    assert_eq!(Focus::Overrides.up(), Some(Focus::Runner));
    assert_eq!(Focus::Editor.up(), None);
    assert_eq!(Focus::Editor.down(), Some(Focus::Logs));
    assert_eq!(Focus::Logs.down(), None);
}

#[test]
fn colour_themes_form_a_cycle() {
    let all = ThemeType::all();
    assert_eq!(all.len(), 14);
    for (i, theme) in all.iter().enumerate() {
        assert_eq!(theme.index(), i);
        assert_eq!(theme.next(), all[(i + 1) % 14]);
        assert_eq!(theme.prev(), all[(i + 13) % 14]);
        assert_eq!(theme.next().prev(), *theme);
    }
    assert_eq!(ThemeType::SolarizedLight.next(), ThemeType::CatppuccinMocha);
    assert_eq!(ThemeType::CatppuccinMocha.prev(), ThemeType::SolarizedLight);
    assert_eq!(ThemeType::Gruvbox.name(), "Gruvbox Dark");
    assert_eq!(ThemeType::CatppuccinFrappe.name(), "Catppuccin Frapp\u{e9}");
    let mut selection = ThemeSelection::default();
    assert_eq!(get_current_theme_type(&selection), ThemeType::CatppuccinMocha);
    set_theme(&mut selection, ThemeType::Nord);
    assert_eq!(get_current_theme_type(&selection), ThemeType::Nord);
}

#[test]
fn a_run_is_idle_running_and_then_over() {
    let mut run = RunProgress::new();
    assert!(matches!(run.status, PipelineStatus::Idle));
    assert!(!run.status.ended());
    run.update_progress(1, 3);
    assert!(matches!(run.status, PipelineStatus::Running));
    assert_eq!((run.files_processed, run.total_files), (1, 3));
    run.update_progress(3, 3);
    assert!(matches!(run.status, PipelineStatus::Running));
    run.complete_pipeline(2);
    assert!(matches!(run.status, PipelineStatus::Completed(2)));
    assert!(run.status.ended());
    run.fail_pipeline("broken".to_string());
    assert!(matches!(&run.status, PipelineStatus::Failed(reason) if reason == "broken"));
    assert!(run.status.ended());
}

#[test]
fn panels_start_empty() {
    assert_eq!(SettingsSection::Theme.toggled(), SettingsSection::Performance);
    assert_eq!(SettingsSection::Performance.toggled(), SettingsSection::Theme);
    assert_eq!(SymlinksState::default().count(), 0);
    let mut writer = ThemeWriterState::default();
    assert_eq!(writer.label(), "No theme name set");
    writer.name = "Mine".to_string();
    assert_eq!(writer.label(), "Theme: Mine");
    let state = AppState::default();
    assert_eq!(state.active_view, ActiveView::FileBrowser);
    assert_eq!(ActiveView::default(), ActiveView::FileBrowser);
    assert!(state.cursors.is_empty() && state.theme_name.is_empty());
    assert_eq!(state.frame_ix, 0);
    let meta = CursorMeta::default();
    assert!(meta.x11_name.is_empty() && meta.variants.is_empty());
}

#[test]
fn files_are_classified_by_extension_and_content() {
    assert_eq!(classify_cursor_file(Some("CUR"), b""), CursorFileKind::Windows);
    assert_eq!(classify_cursor_file(None, b"\x00\x00\x02\x00"), CursorFileKind::Windows);
    assert_eq!(classify_cursor_file(Some("png"), b"\x00\x00\x02\x00"), CursorFileKind::Windows);
    assert_eq!(classify_cursor_file(None, b"Xcur...."), CursorFileKind::Xcursor);
    assert_eq!(classify_cursor_file(Some("bak"), b"Xcur"), CursorFileKind::Xcursor);
    assert_eq!(classify_cursor_file(Some("PNG"), b"Xcur"), CursorFileKind::Other);
    assert_eq!(classify_cursor_file(Some("Theme"), b"Xcur"), CursorFileKind::Other);
    assert_eq!(classify_cursor_file(Some("md"), b"Xcur"), CursorFileKind::Other);
    assert_eq!(classify_cursor_file(None, b"Xcu"), CursorFileKind::Other);
    assert_eq!(classify_cursor_file(Some("txt"), b"hello"), CursorFileKind::Other);
}

#[test]
fn a_windows_cursor_is_summarised_by_size() {
    let frames = vec![
        CursorFrame { images: vec![image(48, (5, 6)), image(24, (1, 2))], delay: 100 },
        CursorFrame { images: vec![image(24, (9, 9)), image(48, (8, 8))], delay: 200 },
    ];
    let meta = convert_windows_cursor_to_meta(Some("busy"), "in/busy.ani", &frames);
    assert_eq!(meta.x11_name, "busy");
    assert!(meta.win_names.is_empty());
    assert_eq!(meta.src_cursor_path.as_deref(), Some("in/busy.ani"));
    let seen: Vec<(u32, (u32, u32), Vec<u32>)> = meta
        .variants
        .iter()
        .map(|v| (v.size, v.hotspot, v.frames.iter().map(|f| f.delay_ms).collect()))
        .collect();
    // Every size gets one step per frame of the cursor.
    assert_eq!(seen, vec![(24, (1, 2), vec![100, 200]), (48, (5, 6), vec![100, 200])]);
    assert!(meta.variants[0].frames[0].png_path.is_empty());
    let unnamed = convert_windows_cursor_to_meta(None, "p", &Vec::new());
    assert_eq!(unnamed.x11_name, "unknown");
    assert!(unnamed.variants.is_empty());
}

#[test]
fn an_x11_cursor_is_summarised_by_size() {
    let images = vec![
        ImageInfo { size: 48, xhot: 5, yhot: 6, delay: 10 },
        ImageInfo { size: 24, xhot: 1, yhot: 2, delay: 20 },
        ImageInfo { size: 48, xhot: 7, yhot: 7, delay: 30 },
    ];
    let meta = convert_to_cursor_meta(Some("wait"), "t/cursors/wait", &images);
    assert_eq!(meta.x11_name, "wait");
    let seen: Vec<(u32, (u32, u32), Vec<u32>)> = meta
        .variants
        .iter()
        .map(|v| (v.size, v.hotspot, v.frames.iter().map(|f| f.delay_ms).collect()))
        .collect();
    assert_eq!(seen, vec![(24, (1, 2), vec![20]), (48, (5, 6), vec![10, 30])]);
    assert_eq!(convert_to_cursor_meta(None, "p", &images).x11_name, "unknown");
}

#[test]
fn cursor_files_are_loaded_by_their_kind() {
    let frames = vec![
        CursorFrame { images: vec![image(32, (1, 0))], delay: 70 },
        CursorFrame { images: vec![image(32, (1, 0))], delay: 80 },
    ];
    let xcursor = to_x11(&frames).unwrap();
    let meta = load_cursor_file(Some("wait"), Some("wait"), None, "c/wait", &xcursor).unwrap();
    assert_eq!(meta.x11_name, "wait");
    assert_eq!(meta.variants.len(), 1);
    assert_eq!(meta.variants[0].size, 32);
    assert_eq!(meta.variants[0].hotspot, (1, 0));
    let delays: Vec<u32> = meta.variants[0].frames.iter().map(|f| f.delay_ms).collect();
    assert_eq!(delays, vec![70, 80]);
    // A Windows cursor is named by its stem.
    let cur = b"\x00\x00\x02\x00\x00\x00";
    let meta = load_cursor_file(Some("a.cur"), Some("a"), Some("cur"), "in/a.cur", cur).unwrap();
    assert_eq!(meta.x11_name, "a");
    assert!(load_cursor_file(Some("a.cur"), Some("a"), Some("cur"), "p", b"junk").is_none());
    assert!(load_cursor_file(Some("x"), Some("x"), None, "p", b"Xcur").is_none());
    assert!(load_cursor_file(Some("x.txt"), Some("x"), Some("txt"), "p", &xcursor).is_none());
    // The X11 parser refuses a hotspot outside the image.
    let outside = to_x11(&[CursorFrame { images: vec![image(32, (3, 4))], delay: 0 }]).unwrap();
    assert!(load_cursor_file(Some("x"), Some("x"), None, "p", &outside).is_none());
}

#[test]
fn a_preview_cursor_is_loaded_from_its_document() {
    let conf = "#size xhot yhot path delay\n\
                32 16 8 arrow_000.png 50\n\
                \n\
                24\t1\t2\tmy file.png\n\
                32 9 9 /abs/arrow 001.png 75\n\
                bad 1 2 x.png 5\n\
                32 70000 2 y.png 5\n\
                48 1 2 only.png 50x\n\
                1 2 3\n";
    let meta = load_preview_cursor("arrow", "out/arrow", conf).unwrap();
    assert_eq!(meta.x11_name, "arrow");
    assert_eq!(meta.win_names, vec!["arrow".to_string()]);
    assert_eq!(meta.src_cursor_path.as_deref(), Some("out/arrow"));
    let seen: Vec<(u32, (u32, u32), Vec<(&str, u32)>)> = meta
        .variants
        .iter()
        .map(|v| {
            (
                v.size,
                v.hotspot,
                v.frames.iter().map(|f| (f.png_path.as_str(), f.delay_ms)).collect(),
            )
        })
        .collect();
    assert_eq!(
        seen,
        vec![
            (24, (1, 2), vec![("out/arrow/my file.png", 50)]),
            (32, (16, 8), vec![("out/arrow/arrow_000.png", 50), ("/abs/arrow 001.png", 75)]),
            (48, (1, 2), vec![("out/arrow/only.png 50x", 50)]),
        ]
    );
    assert!(load_preview_cursor("a", "d", "# nothing\n").is_none());
    let rooted = load_preview_cursor("a", "d/", "1 0 0 f 2").unwrap();
    assert_eq!(rooted.variants[0].frames[0].png_path, "d/f");
    assert_eq!(rooted.variants[0].frames[0].delay_ms, 2);
}

#[test]
fn source_names_are_scored_against_standard_names() {
    assert_eq!(score_match("Normal Select", "Normal"), Some(60));
    assert_eq!(score_match("NORMAL", "normal"), Some(60));
    assert_eq!(score_match("arrow", "Normal"), None);
    assert_eq!(score_match("norm", "Normal"), Some(20));
    assert_eq!(score_match("normalised", "Normal"), Some(30));
    assert_eq!(score_match("abnormal", "Normal"), Some(12));
    assert_eq!(score_match("or", "Normal"), Some(4));
    assert_eq!(score_match("Link-Select_2", "Link Select"), Some(100));
    assert_eq!(score_match("select", "Link Select"), Some(60));
    assert_eq!(score_match("a b", "a b"), None);
    assert_eq!(score_match("", "Normal"), None);
    assert_eq!(score_match("Normal", ""), None);
    // A term counts by its bytes: one accented letter is a term of its own.
    assert_eq!(score_match("\u{e9}", "\u{c9}"), Some(20));
    let sources: Vec<String> =
        ["Normal Select", "busy", "Normal", "normal2"].iter().map(|s| s.to_string()).collect();
    assert_eq!(find_best_match(&sources, "Normal").map(String::as_str), Some("Normal"));
    assert_eq!(find_best_match(&sources, "Busy").map(String::as_str), Some("busy"));
    assert_eq!(find_best_match(&sources, "Text"), None);
    assert_eq!(find_best_match(&Vec::new(), "Normal"), None);
    // Of equal candidates the last one wins.
    let twins: Vec<String> = ["Busy A1", "Busy B2"].iter().map(|s| s.to_string()).collect();
    assert_eq!(find_best_match(&twins, "busy").map(String::as_str), Some("Busy B2"));
}
