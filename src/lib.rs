//! Turns colour images into grids of coloured characters and plans the
//! minimal set of terminal writes that bring a screen from one grid to the next.

pub mod frame;
pub mod glyph;
pub mod display;

pub use frame::{Cell, Color, Image, Pixel};
pub use glyph::AsciiRenderer;
pub use display::{Display, DrawOp};
