//! Terminal graphics on a grid of Braille cells: a sparse canvas of 2x4 dot
//! blocks, per-dot colour blending, line drawing and a text serialiser that
//! emits a colour escape only where the colour changes.

pub mod canvas;
pub mod color;
pub mod grid;
pub mod laws;
pub mod pixel;

pub use canvas::{clamp_coordinate, Canvas, CanvasView};
pub use color::Color;
pub use pixel::{colorize_char, Content, Pixel, PixelView};
