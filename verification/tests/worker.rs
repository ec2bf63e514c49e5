use ani2hyprtui::model::mapping::{CursorMapping, NameTable};
use ani2hyprtui::pipeline::hyprcursor::ShapeFile;
use ani2hyprtui::pipeline::win2xcur::converter::ConversionOptions;
use ani2hyprtui::pipeline::xcur2png::xcursor_reader::XcursorFile;
use ani2hyprtui::pipeline_worker::{
    convert_batch, find_source_file, is_cursor_extension, process_file,
    run_ani_to_png_pipeline, run_ani_to_xcur_pipeline, run_full_theme_pipeline,
    run_incremental_theme_update, update_cursor, update_options, CursorOverrides, Notification,
    SourceFile,
};
use std::collections::HashMap;

fn names(list: &[&str]) -> Vec<String> {
    list.iter().map(|s| s.to_string()).collect()
}

/// A cursor file with one 2 by 2 image of 32 bits per pixel.
fn cursor(hotspot: u16) -> Vec<u8> {
    let mut out = vec![0, 0, 2, 0, 1, 0, 2, 2, 0, 0];
    out.extend_from_slice(&hotspot.to_le_bytes());
    out.extend_from_slice(&0u16.to_le_bytes());
    out.extend_from_slice(&64u32.to_le_bytes());
    out.extend_from_slice(&22u32.to_le_bytes());
    out.extend_from_slice(&40u32.to_le_bytes());
    out.extend_from_slice(&2i32.to_le_bytes());
    out.extend_from_slice(&4i32.to_le_bytes());
    out.extend_from_slice(&1u16.to_le_bytes());
    out.extend_from_slice(&32u16.to_le_bytes());
    out.extend_from_slice(&[0; 24]);
    out.extend_from_slice(&[9; 16]);
    out.extend_from_slice(&[0; 8]);
    out
}

fn source(stem: &str, data: Vec<u8>) -> SourceFile {
    SourceFile { stem: stem.to_string(), data }
}

fn progress(notes: &[Notification]) -> Vec<(usize, usize)> {
    notes
        .iter()
        .filter_map(|n| match n {
            Notification::Progress(done, total) => Some((*done, *total)),
            _ => None,
        })
        .collect()
}

fn logs(notes: &[Notification]) -> Vec<&str> {
    notes
        .iter()
        .filter_map(|n| match n {
            Notification::Log(text) => Some(text.as_str()),
            _ => None,
        })
        .collect()
}

fn terminals(notes: &[Notification]) -> usize {
    notes
        .iter()
        .filter(|n| matches!(n, Notification::Completed(_) | Notification::Failed(_)))
        .count()
}

#[test]
fn cursor_files_are_known_by_their_extension() {
    for ext in ["ani", "cur", "ANI", "Cur", "aNi", "cuR"] {
        assert!(is_cursor_extension(ext));
    }
    for ext in ["", "an", "anim", "png", "curs", "a\u{f1}i", "cu\u{212a}"] {
        assert!(!is_cursor_extension(ext));
    }
}

#[test]
fn a_corrupt_file_does_not_stop_the_batch() {
    let files = vec![
        source("one", cursor(0)),
        source("two", b"not a cursor".to_vec()),
        source("three", cursor(1)),
    ];
    let report = run_ani_to_xcur_pipeline(&files);
    let notes = &report.notifications;
    assert!(matches!(notes[0], Notification::Started));
    assert_eq!(progress(notes), vec![(1, 3), (2, 3), (3, 3)]);
    assert!(matches!(notes[notes.len() - 1], Notification::Completed(2)));
    assert_eq!(terminals(notes), 1);
    assert_eq!(
        logs(notes),
        vec![
            "Found 3 cursor files",
            "Processing 1/3: one",
            "Processing 2/3: two",
            "Failed to convert: input is not in the expected format",
            "Processing 3/3: three",
        ]
    );
    // The failure is logged before the progress of its file is reported.
    let failed = notes
        .iter()
        .position(|n| matches!(n, Notification::Log(t) if t.starts_with("Failed")))
        .unwrap();
    assert!(matches!(notes[failed + 1], Notification::Progress(2, 3)));
    let stems: Vec<&str> = report.converted.iter().map(|c| c.stem.as_str()).collect();
    assert_eq!(stems, vec!["one", "three"]);
    assert!(report.converted[0].pngs.is_none());
    assert_eq!(XcursorFile::from_bytes(&report.converted[1].xcursor).unwrap().images[0].xhot, 1);
}

#[test]
fn a_run_without_files_fails_at_once() {
    for report in [run_ani_to_xcur_pipeline(&Vec::new()), run_ani_to_png_pipeline(&Vec::new())] {
        assert_eq!(report.notifications.len(), 2);
        assert!(matches!(report.notifications[0], Notification::Started));
        assert!(matches!(report.notifications[1], Notification::Failed(_)));
        assert!(report.converted.is_empty());
    }
    let full = run_full_theme_pipeline(
        &Vec::new(),
        "T",
        "out/T",
        CursorMapping::default(),
        Vec::new(),
        &Vec::new(),
    );
    assert!(matches!(full.notifications.last(), Some(Notification::Failed(_))));
    assert!(full.plan.is_none() && full.theme.is_none());
}

#[test]
fn the_png_run_sums_up_its_failures() {
    let files = vec![source("bad", Vec::new()), source("good", cursor(0))];
    let report = run_ani_to_png_pipeline(&files);
    assert_eq!(progress(&report.notifications), vec![(1, 2), (2, 2)]);
    assert!(matches!(report.notifications.last(), Some(Notification::Completed(1))));
    assert!(logs(&report.notifications).contains(&"Completed with 1 successes and 1 failures"));
    let pngs = report.converted[0].pngs.as_ref().unwrap();
    assert_eq!(pngs.files[0].filename, "good_000.png");
    assert_eq!(pngs.config.as_ref().unwrap().name, "good.conf");
    let clean = run_ani_to_png_pipeline(&files[1..].to_vec_of_sources());
    assert!(!logs(&clean.notifications).iter().any(|l| l.starts_with("Completed with")));
}

trait CloneSources {
    fn to_vec_of_sources(&self) -> Vec<SourceFile>;
}

impl CloneSources for [SourceFile] {
    fn to_vec_of_sources(&self) -> Vec<SourceFile> {
        self.iter().map(|f| source(&f.stem, f.data.clone())).collect()
    }
}

#[test]
fn a_batch_reports_into_the_notifications_it_is_given() {
    let files = vec![source("a", cursor(0)), source("b", vec![1, 2, 3])];
    let mut notes = vec![Notification::Log("before".to_string())];
    let outcome = convert_batch(&files, &ConversionOptions::new(), true, &mut notes);
    assert_eq!((outcome.processed, outcome.failed), (1, 1));
    assert_eq!(outcome.converted.len(), 1);
    assert!(matches!(&notes[0], Notification::Log(t) if t == "before"));
    assert_eq!(progress(&notes), vec![(1, 2), (2, 2)]);
    assert_eq!(terminals(&notes), 0);
    let single = process_file(&files[0], &ConversionOptions::new(), false).unwrap();
    assert_eq!(single.stem, "a");
    assert!(process_file(&files[1], &ConversionOptions::new(), false).is_err());
}

#[test]
fn a_full_run_builds_both_themes() {
    let mut mapping = CursorMapping { x11_to_win: NameTable::new(), symlinks: NameTable::new() };
    mapping.set_mapping("left_ptr".to_string(), "Normal".to_string());
    mapping.set_mapping("text".to_string(), "Text".to_string());
    mapping.set_mapping("wait".to_string(), "Busy".to_string());
    mapping.symlinks.insert("left_ptr".to_string(), names(&["arrow"]));
    let files = vec![
        source("Normal", cursor(0)),
        source("broken", vec![0; 3]),
        source("Busy", cursor(1)),
    ];
    let report =
        run_full_theme_pipeline(&files, "Mine", "out/Mine", mapping, vec![2, 4], &Vec::new());
    let notes = &report.notifications;
    assert!(matches!(notes[0], Notification::Started));
    assert_eq!(progress(notes), vec![(1, 3), (2, 3), (3, 3)]);
    assert!(matches!(notes[notes.len() - 1], Notification::Completed(2)));
    assert!(matches!(&notes[notes.len() - 2], Notification::ArtifactPath(p) if p == "out/Mine"));
    assert_eq!(terminals(notes), 1);
    assert!(logs(notes).contains(&"Converted 2/3 cursor files"));
    assert!(logs(notes).contains(&"Created theme with 3 cursors and symlinks"));
    // The target sizes were synthesized for the preview images.
    let sizes: Vec<u32> = XcursorFile::from_bytes(&report.converted[0].xcursor)
        .unwrap()
        .images
        .iter()
        .map(|i| i.size)
        .collect();
    assert_eq!(sizes, vec![2, 4]);
    let plan = report.plan.unwrap();
    let copies: Vec<(&str, &str)> =
        plan.copies.iter().map(|c| (c.source.as_str(), c.dest.as_str())).collect();
    assert_eq!(copies, vec![("Normal", "left_ptr"), ("Normal", "text"), ("Busy", "wait")]);
    assert_eq!(plan.links.len(), 1);
    let theme = report.theme.unwrap();
    assert_eq!(theme.manifest.name, "Mine");
    let packed: Vec<&str> = theme.packages.iter().map(|p| p.file_name.as_str()).collect();
    assert_eq!(packed, vec!["left_ptr.hlc", "text.hlc", "wait.hlc"]);
}

#[test]
fn a_full_run_fails_when_nothing_converts() {
    let files = vec![source("a", Vec::new()), source("b", vec![1])];
    let report = run_full_theme_pipeline(
        &files,
        "T",
        "out/T",
        CursorMapping::default(),
        Vec::new(),
        &Vec::new(),
    );
    assert_eq!(progress(&report.notifications), vec![(1, 2), (2, 2)]);
    assert!(matches!(
        report.notifications.last(),
        Some(Notification::Failed(reason)) if reason == "Failed to convert any cursor files"
    ));
    assert_eq!(terminals(&report.notifications), 1);
    assert!(report.plan.is_none());
}

#[test]
fn sources_are_sought_as_ani_then_cur() {
    let sources = vec![
        ShapeFile { name: "Busy.cur".to_string(), content: vec![1] },
        ShapeFile { name: "Busy.ani".to_string(), content: vec![2] },
        ShapeFile { name: "Text.cur".to_string(), content: vec![3] },
    ];
    assert_eq!(find_source_file(&sources, "Busy"), Some(1));
    assert_eq!(find_source_file(&sources, "Text"), Some(2));
    assert_eq!(find_source_file(&sources, "Normal"), None);
    assert_eq!(find_source_file(&sources, "busy"), None);
}

#[test]
fn a_cursor_is_updated_under_its_own_overrides() {
    let mut hot = HashMap::new();
    hot.insert(2, (1, 1));
    let overrides = vec![
        CursorOverrides { x11_name: "wait".to_string(), hotspots: hot },
        CursorOverrides { x11_name: "wait".to_string(), hotspots: HashMap::new() },
    ];
    assert!(update_options(&overrides, "text").hotspot_overrides.is_empty());
    let options = update_options(&overrides, "wait");
    assert_eq!(options.hotspot_overrides.get(&2), Some(&(1, 1)));
    let update = update_cursor("wait", &cursor(0), &options, &names(&["watch"]));
    assert_eq!(update.x11_name, "wait");
    assert_eq!(update.links, names(&["watch"]));
    let file = XcursorFile::from_bytes(update.xcursor.as_ref().unwrap()).unwrap();
    assert_eq!((file.images[0].xhot, file.images[0].yhot), (1, 1));
    assert_eq!(update.package.unwrap().file_name, "wait.hlc");
    assert_eq!(update.log, names(&["Updated wait"]));
    let failed = update_cursor("wait", b"junk", &options, &names(&["watch"]));
    assert!(failed.xcursor.is_none() && failed.package.is_none() && failed.links.is_empty());
    assert_eq!(
        failed.log,
        names(&["Failed to convert XCursor: input is not in the expected format"])
    );
}

#[test]
fn an_incremental_run_reaches_the_mapped_cursors() {
    let mut mapping = CursorMapping { x11_to_win: NameTable::new(), symlinks: NameTable::new() };
    mapping.set_mapping("wait".to_string(), "Busy".to_string());
    mapping.set_mapping("text".to_string(), "Text".to_string());
    mapping.set_mapping("help".to_string(), "Help".to_string());
    mapping.symlinks.insert("wait".to_string(), names(&["watch"]));
    let sources = vec![
        ShapeFile { name: "Busy.cur".to_string(), content: cursor(1) },
        ShapeFile { name: "Help.ani".to_string(), content: b"junk".to_vec() },
    ];
    let changed = names(&["unmapped", "text", "help", "wait"]);
    let report = run_incremental_theme_update(&sources, &mapping, &changed, &Vec::new());
    let notes = &report.notifications;
    assert!(matches!(notes[0], Notification::Started));
    assert_eq!(progress(notes), vec![(1, 4), (2, 4), (3, 4), (4, 4)]);
    assert!(matches!(notes[notes.len() - 1], Notification::Completed(2)));
    assert_eq!(terminals(notes), 1);
    assert_eq!(
        logs(notes),
        vec![
            "Starting incremental update for 4 cursors...",
            "Updating text -> Text",
            "Source file not found for Text",
            "Updating help -> Help",
            "Failed to convert XCursor: input is not in the expected format",
            "Updating wait -> Busy",
            "Updated wait",
            "Incremental update completed.",
        ]
    );
    let reached: Vec<&str> = report.updates.iter().map(|u| u.x11_name.as_str()).collect();
    assert_eq!(reached, vec!["help", "wait"]);
    assert!(report.updates[0].xcursor.is_none());
    assert_eq!(report.updates[1].links, names(&["watch"]));
    assert!(report.updates[1].package.is_some());
}

#[test]
fn a_batch_logs_the_warnings_of_its_files() {
    let mut odd = cursor(0);
    odd[8] = 1;
    let files = vec![source("odd", odd), source("plain", cursor(0))];
    let report = run_ani_to_xcur_pipeline(&files);
    assert_eq!(
        logs(&report.notifications),
        vec![
            "Found 2 cursor files",
            "Processing 1/2: odd",
            "Warning: Suspicious color count 1 in cursor entry",
            "Processing 2/2: plain",
        ]
    );
    assert!(matches!(report.notifications.last(), Some(Notification::Completed(2))));
}

#[test]
fn a_full_run_logs_the_names_without_fallback() {
    let mut mapping = CursorMapping { x11_to_win: NameTable::new(), symlinks: NameTable::new() };
    mapping.set_mapping("left_ptr".to_string(), "Gone".to_string());
    mapping.set_mapping("text".to_string(), "Text".to_string());
    mapping.set_mapping("wait".to_string(), "Busy".to_string());
    let files = vec![source("Busy", cursor(1))];
    let report = run_full_theme_pipeline(&files, "Mine", "out/Mine", mapping, vec![2], &Vec::new());
    let notes = &report.notifications;
    assert!(matches!(notes[notes.len() - 1], Notification::Completed(1)));
    let plan = report.plan.unwrap();
    assert_eq!(plan.fallback_missing, names(&["left_ptr", "text"]));
    let warnings: Vec<&str> =
        logs(notes).into_iter().filter(|l| l.starts_with("Warning: Fallback")).collect();
    assert_eq!(
        warnings,
        vec!["Warning: Fallback missing for left_ptr", "Warning: Fallback missing for text"]
    );
    // With the pointer in place nothing is missing.
    let mut mapping = CursorMapping { x11_to_win: NameTable::new(), symlinks: NameTable::new() };
    mapping.set_mapping("left_ptr".to_string(), "Busy".to_string());
    mapping.set_mapping("text".to_string(), "Text".to_string());
    let report = run_full_theme_pipeline(&files, "Mine", "out/Mine", mapping, vec![2], &Vec::new());
    assert!(report.plan.unwrap().fallback_missing.is_empty());
    assert!(!logs(&report.notifications).iter().any(|l| l.starts_with("Warning: Fallback")));
}

#[test]
fn a_full_run_passes_over_names_that_cannot_name_a_shape() {
    let mut mapping = CursorMapping { x11_to_win: NameTable::new(), symlinks: NameTable::new() };
    mapping.set_mapping("bad name".to_string(), "Busy".to_string());
    let files = vec![source("Busy", cursor(1))];
    let report = run_full_theme_pipeline(&files, "Mine", "out/Mine", mapping, vec![2], &Vec::new());
    let notes = &report.notifications;
    assert_eq!(terminals(notes), 1);
    assert!(matches!(notes[notes.len() - 1], Notification::Completed(1)));
    assert_eq!(report.plan.unwrap().copies.len(), 1);
    let theme = report.theme.unwrap();
    assert!(theme.packages.is_empty());
    assert_eq!(theme.skipped, names(&["bad name"]));
}
