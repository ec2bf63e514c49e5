//! The settings of a run.

use crate::model::mapping::{
    default_symlinks_map, default_x11_to_win_map, CursorMapping,
};
use vstd::prelude::*;

verus! {

/// Where cursors are read from and written to, how they are named, and how
/// many worker threads convert them (0 leaves the choice to the system).
#[derive(Debug)]
pub struct Config {
    pub input_dir: String,
    pub output_dir: String,
    pub mapping: CursorMapping,
    pub thread_count: usize,
}

impl Default for Config {
    fn default() -> (r: Config)
        ensures
            r.input_dir@ == "."@,
            r.output_dir@ == "./out"@,
            r.mapping@.x11_to_win == default_x11_to_win_map(),
            r.mapping@.symlinks == default_symlinks_map(),
            r.thread_count == 0,
    {
        Config {
            input_dir: ".".to_owned(),
            output_dir: "./out".to_owned(),
            mapping: CursorMapping::default(),
            thread_count: 0,
        }
    }
}

} // verus!
