//! Conversion of Windows cursor resources (`.cur`, `.ani`) into the X11
//! Xcursor format, PNG frame sets and packaged theme layouts.
//!
//! Every function of this crate carries a contract that Verus proves; the
//! calls into other crates are isolated in small trusted wrappers.

pub mod bytes;
pub mod components;
pub mod config;
pub mod error;
pub mod focus;
pub mod model;
pub mod pipeline;
pub mod pipeline_worker;
pub mod text;
pub mod widgets;
