//! The state that the interactive layer keeps between events.

use crate::model::cursor::CursorMeta;
use vstd::prelude::*;

verus! {

/// The view that is shown.
#[derive(Clone, Copy, Debug, PartialEq, Eq, Structural)]
pub enum ActiveView {
    FileBrowser,
    MappingEditor,
    HotspotEditor,
    Preview,
    Runner,
    Symlinks,
    ThemeWriter,
}

impl Default for ActiveView {
    fn default() -> (r: ActiveView)
        ensures
            r == ActiveView::FileBrowser,
    {
        ActiveView::FileBrowser
    }
}

/// The directories, the theme name and the cursors that are being worked
/// on.
#[derive(Debug)]
pub struct AppState {
    pub input_dir: String,
    pub output_dir: String,
    pub theme_name: String,
    pub cursors: Vec<CursorMeta>,
    pub active_view: ActiveView,
    pub frame_ix: usize,
}

impl Default for AppState {
    fn default() -> (r: AppState)
        ensures
            r.input_dir@ == Seq::<char>::empty(),
            r.output_dir@ == Seq::<char>::empty(),
            r.theme_name@ == Seq::<char>::empty(),
            r.cursors@ == Seq::<CursorMeta>::empty(),
            r.active_view == ActiveView::FileBrowser,
            r.frame_ix == 0,
    {
        AppState {
            input_dir: String::new(),
            output_dir: String::new(),
            theme_name: String::new(),
            cursors: Vec::new(),
            active_view: ActiveView::FileBrowser,
            frame_ix: 0,
        }
    }
}

} // verus!
