//! Damage-tracking render cache for a CPU-blitted editor front end.
//!
//! Drawing primitives issued during a frame are recorded in a command log,
//! hashed into a coarse grid of cells, and diffed against the previous frame
//! to compute the minimal set of dirty rectangles that must be repainted and
//! presented.

pub mod cells;
pub mod command;
pub mod color;
pub mod compositor;
pub mod font;
pub mod geometry;
pub mod hash;
pub mod image;
pub mod laws;
pub mod rect_buffer;
pub mod rencache;
pub mod window_input;

pub use color::Color;
pub use geometry::Rect;
pub use image::Image;
