//! A verified image editing engine.
//!
//! The engine models raster images as plain byte buffers ([`buffer::PixelBuffer`]),
//! offers a catalog of pure pixel transforms (color filters, brightness and
//! contrast, sharpen and edge detection, rotation and cropping), and keeps an
//! undo/redo history of snapshots behind a single [`session::EditorSession`].
//! Every transform is specified by a per-pixel rule and proved to meet it;
//! decoding and encoding image files is left to unverified callers, which hand
//! the engine plain bytes.

pub mod buffer;
pub mod catalog;
pub mod color;
pub mod convolve;
pub mod error;
pub mod geometry;
pub mod history;
pub mod session;
