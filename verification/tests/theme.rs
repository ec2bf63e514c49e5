use ani2hyprtui::config::Config;
use ani2hyprtui::model::mapping::{
    default_symlinks, default_x11_to_win, str_less, CursorMapping, NameTable, Slot,
};
use ani2hyprtui::model::theme::{CursorTheme, IndexTheme};
use ani2hyprtui::pipeline::xcursor_gen::{Resolution, XCursorThemeBuilder};

fn names(list: &[&str]) -> Vec<String> {
    list.iter().map(|s| s.to_string()).collect()
}

fn small_mapping() -> CursorMapping {
    let mut mapping = CursorMapping {
        x11_to_win: NameTable::new(),
        symlinks: NameTable::new(),
    };
    mapping.set_mapping("wait".to_string(), "Busy".to_string());
    mapping.set_mapping("left_ptr".to_string(), "Arrow".to_string());
    mapping.set_mapping("text".to_string(), "Beam".to_string());
    mapping.symlinks.insert("left_ptr".to_string(), names(&["arrow", "default", "arrow"]));
    mapping.symlinks.insert("text".to_string(), names(&["xterm", "wait"]));
    mapping.symlinks.insert("help".to_string(), names(&["question"]));
    mapping
}

fn builder(mapping: CursorMapping) -> XCursorThemeBuilder {
    XCursorThemeBuilder::new("out/Theme".to_string(), "Theme".to_string(), mapping)
}

#[test]
fn default_mapping_names_the_standard_roles() {
    let mapping = CursorMapping::default();
    assert_eq!(mapping.x11_to_win.len(), 35);
    assert_eq!(mapping.symlinks.len(), 34);
    assert_eq!(mapping.get_win_name("left_ptr").map(String::as_str), Some("Normal"));
    assert_eq!(mapping.get_win_name("link").map(String::as_str), Some("Link Select"));
    assert_eq!(mapping.get_win_name("progress").map(String::as_str), Some("Working in Background"));
    assert_eq!(mapping.get_win_name("size_fdiag").map(String::as_str), Some("Diagonal2"));
    assert_eq!(mapping.get_win_name("X_cursor").map(String::as_str), Some("Normal"));
    assert_eq!(mapping.get_win_name("color-picker"), None);
    assert_eq!(mapping.get_win_name(""), None);
    assert_eq!(
        mapping.get_symlinks("left_ptr"),
        names(&["arrow", "default", "top_left_arrow", "wayland-cursor"])
    );
    assert_eq!(mapping.get_symlinks("color-picker"), names(&["tcross"]));
    assert_eq!(mapping.get_symlinks("wait"), names(&["watch"]));
    assert!(mapping.get_symlinks("pin").is_empty());
    assert_eq!(default_x11_to_win().len(), 35);
    assert_eq!(default_symlinks().len(), 34);
}

#[test]
fn no_default_alias_is_its_own_name() {
    let mapping = CursorMapping::default();
    for i in 0..mapping.symlinks.len() {
        let name = mapping.symlinks.name(i);
        assert!(!mapping.symlinks.value(i).contains(name));
    }
}

#[test]
fn tables_are_kept_in_the_order_of_their_names() {
    let mapping = CursorMapping::default();
    for i in 1..mapping.x11_to_win.len() {
        assert!(mapping.x11_to_win.name(i - 1) < mapping.x11_to_win.name(i));
    }
    assert_eq!(mapping.x11_to_win.name(0), "X_cursor");
    assert_eq!(mapping.x11_to_win.value(0), "Normal");
    assert!(str_less("X_cursor", "bottom_side"));
    assert!(str_less("size", "size_all"));
    assert!(!str_less("size_all", "size"));
    assert!(!str_less("a", "a"));
    assert!(str_less("", "a"));
    assert!(str_less("z", "\u{e9}"));
}

#[test]
fn a_name_has_one_mapping_at_most() {
    let mut mapping = small_mapping();
    assert_eq!(mapping.x11_to_win.len(), 3);
    mapping.set_mapping("text".to_string(), "IBeam".to_string());
    assert_eq!(mapping.x11_to_win.len(), 3);
    assert_eq!(mapping.get_win_name("text").map(String::as_str), Some("IBeam"));
    assert_eq!(mapping.get_win_name("wait").map(String::as_str), Some("Busy"));
    mapping.set_mapping("a".to_string(), "First".to_string());
    assert_eq!(mapping.x11_to_win.name(0), "a");
    assert!(matches!(mapping.x11_to_win.slot("left_ptr"), Slot::Found(1)));
    assert!(matches!(mapping.x11_to_win.slot("m"), Slot::Vacant(2)));
    assert!(matches!(mapping.x11_to_win.slot("zz"), Slot::Vacant(4)));
}

#[test]
fn config_starts_with_the_default_mapping() {
    let config = Config::default();
    assert_eq!(config.input_dir, ".");
    assert_eq!(config.output_dir, "./out");
    assert_eq!(config.thread_count, 0);
    assert_eq!(config.mapping.x11_to_win.len(), 35);
}

#[test]
fn a_mapped_cursor_is_copied_under_its_x11_name() {
    let b = builder(small_mapping());
    let sources = names(&["Arrow", "Beam", "Busy"]);
    assert_eq!(b.resolve(&sources, "text"), Resolution::Mapped);
    let (copies, missing) = b.plan_copies(&sources, &names(&["text"]));
    let plan: Vec<(&str, &str, Resolution)> =
        copies.iter().map(|c| (c.source.as_str(), c.dest.as_str(), c.how)).collect();
    assert_eq!(
        plan,
        vec![
            ("Arrow", "left_ptr", Resolution::Mapped),
            ("Beam", "text", Resolution::Mapped),
            ("Busy", "wait", Resolution::Mapped),
        ]
    );
    assert!(missing.is_empty());
}

#[test]
fn a_missing_cursor_falls_back_on_the_pointer() {
    let b = builder(small_mapping());
    let sources = names(&["Arrow", "Normal"]);
    assert_eq!(b.resolve(&sources, "text"), Resolution::PointerFallback);
    let (copies, missing) = b.plan_copies(&sources, &names(&["wait"]));
    let plan: Vec<(&str, &str, Resolution)> =
        copies.iter().map(|c| (c.source.as_str(), c.dest.as_str(), c.how)).collect();
    // A fallback does not replace a file that the theme holds already.
    assert_eq!(
        plan,
        vec![
            ("Arrow", "left_ptr", Resolution::Mapped),
            ("Arrow", "text", Resolution::PointerFallback),
        ]
    );
    assert!(missing.is_empty());
}

#[test]
fn the_fallback_file_stands_in_for_a_missing_pointer() {
    let b = builder(small_mapping());
    let sources = names(&["Busy", "Normal"]);
    assert_eq!(b.resolve(&sources, "left_ptr"), Resolution::HardFallback);
    let (copies, missing) = b.plan_copies(&sources, &Vec::new());
    let plan: Vec<(&str, &str, Resolution)> =
        copies.iter().map(|c| (c.source.as_str(), c.dest.as_str(), c.how)).collect();
    assert_eq!(
        plan,
        vec![
            ("Normal", "left_ptr", Resolution::HardFallback),
            ("Normal", "text", Resolution::HardFallback),
            ("Busy", "wait", Resolution::Mapped),
        ]
    );
    assert_eq!(missing, names(&["left_ptr", "text"]));
}

#[test]
fn a_cursor_without_any_candidate_is_left_out() {
    let b = builder(small_mapping());
    let sources = names(&["Busy"]);
    assert_eq!(b.resolve(&sources, "text"), Resolution::Unresolved);
    let (copies, missing) = b.plan_copies(&sources, &Vec::new());
    assert_eq!(copies.len(), 1);
    assert_eq!(copies[0].dest, "wait");
    assert_eq!(missing, names(&["left_ptr", "text"]));
    // Without a mapping for the pointer there is nothing to fall back on,
    // not even the fallback file.
    let mut mapping = CursorMapping { x11_to_win: NameTable::new(), symlinks: NameTable::new() };
    mapping.set_mapping("text".to_string(), "Beam".to_string());
    let lonely = builder(mapping);
    assert_eq!(lonely.resolve(&names(&["Normal"]), "text"), Resolution::Unresolved);
}

#[test]
fn aliases_are_linked_to_the_files_of_the_theme() {
    let b = builder(small_mapping());
    // "help" has no file; "arrow" is listed twice; "wait" exists.
    let links = b.plan_symlinks(&names(&["left_ptr", "text", "wait"]));
    let plan: Vec<(&str, &str)> =
        links.iter().map(|l| (l.link.as_str(), l.target.as_str())).collect();
    assert_eq!(plan, vec![("arrow", "left_ptr"), ("default", "left_ptr"), ("xterm", "text")]);
    // An alias that exists is passed over.
    let links = b.plan_symlinks(&names(&["left_ptr", "default"]));
    let plan: Vec<(&str, &str)> =
        links.iter().map(|l| (l.link.as_str(), l.target.as_str())).collect();
    assert_eq!(plan, vec![("arrow", "left_ptr")]);
    assert!(b.plan_symlinks(&Vec::new()).is_empty());
}

#[test]
fn links_can_point_to_links() {
    let mut mapping = CursorMapping { x11_to_win: NameTable::new(), symlinks: NameTable::new() };
    mapping.symlinks.insert("a".to_string(), names(&["b"]));
    mapping.symlinks.insert("b".to_string(), names(&["c"]));
    let links = builder(mapping).plan_symlinks(&names(&["a"]));
    let plan: Vec<(&str, &str)> =
        links.iter().map(|l| (l.link.as_str(), l.target.as_str())).collect();
    assert_eq!(plan, vec![("b", "a"), ("c", "b")]);
}

#[test]
fn the_whole_theme_is_planned_at_once() {
    let b = builder(small_mapping());
    let plan = b.build_from_xcur_files(&names(&["Arrow", "Busy"]), &Vec::new());
    assert_eq!(plan.copies.len(), 3);
    assert!(plan.fallback_missing.is_empty());
    // The links see the copied files.
    let links: Vec<(&str, &str)> =
        plan.links.iter().map(|l| (l.link.as_str(), l.target.as_str())).collect();
    assert_eq!(links, vec![("arrow", "left_ptr"), ("default", "left_ptr"), ("xterm", "text")]);
    assert_eq!(
        plan.index_theme,
        "[Icon Theme]\nName=Theme\nComment=Theme cursor theme\nInherits=hicolor\n\n\
         # Directory list\nDirectories=cursors,hyprcursors\n\n\
         [cursors]\nContext=Cursors\nType=Fixed\n\n\
         [hyprcursors]\nContext=Cursors\nType=Fixed\n\n"
    );
    assert_eq!(
        plan.cursor_theme,
        "[Icon Theme]\nName=Theme\nComment=Theme cursor theme\nInherits=Theme\n"
    );
}

#[test]
fn theme_documents_leave_out_an_empty_parent() {
    let index = IndexTheme {
        name: "N".to_string(),
        comment: "C".to_string(),
        inherits: String::new(),
        directories: Vec::new(),
    };
    assert_eq!(
        index.to_text(),
        "[Icon Theme]\nName=N\nComment=C\n\n# Directory list\nDirectories=\n\n"
    );
    let cursor = CursorTheme {
        name: "N".to_string(),
        comment: String::new(),
        inherits: String::new(),
    };
    assert_eq!(cursor.to_text(), "[Icon Theme]\nName=N\nComment=\n");
}
