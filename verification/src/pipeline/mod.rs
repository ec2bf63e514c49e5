//! The conversion stages, from decoded Windows cursors to packaged themes.

pub mod archive;
pub mod cursor_io;
pub mod cursor_types;
pub mod hyprcursor;
pub mod raster;
pub mod round_trip;
pub mod sidecar;
pub mod single_precision;
pub mod toml_source;
pub mod win2xcur;
pub mod xcur2png;
pub mod xcursor_format;
pub mod xcursor_gen;
