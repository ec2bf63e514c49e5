//! The colour themes of the interactive layer.

pub mod theme;
