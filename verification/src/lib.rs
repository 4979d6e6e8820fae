//! Screen-capture core: axis-aligned rectangle geometry, a geometry-string
//! parser, a pixel-format decoder that turns a server-native framebuffer into
//! a canonical RGBA buffer, and a compositor that blanks the parts of a
//! root-window capture lying outside the physical monitors.
//!
//! The windowing transport, command-line handling and image encoding are left
//! to the surrounding application; this crate works on plain buffers and
//! integer coordinates only.

pub mod decode;
pub mod error;
pub mod geometry;
pub mod mask;
pub mod parse;
pub mod resolve;

pub use error::CaptureError;
pub use geometry::Point;
pub use geometry::Rect;
pub use parse::parse_geometry;
pub use parse::parse_int;
