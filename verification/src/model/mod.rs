//! The data that describes cursors, name mappings and theme documents.

pub mod cursor;
pub mod mapping;
pub mod state;
pub mod theme;
