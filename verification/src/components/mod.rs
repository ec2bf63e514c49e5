//! The state of the panels of the interactive layer, as far as it is
//! plain data.

pub mod mapping_editor;
pub mod runner;
pub mod settings;
pub mod symlinks;
pub mod theme_writer;
