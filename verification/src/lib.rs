//! Turns an RGBA8 pixel buffer into a grid of brightness glyphs and renders
//! that grid as ANSI truecolor text, one line per image row.

pub mod glyph;
pub mod grid;
pub mod lines;
pub mod render;
