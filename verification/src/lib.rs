//! Glyph-atlas construction and text layout for a bitmap text editor.
//!
//! The crate packs pre-rasterized glyphs into one atlas bitmap with
//! per-glyph metrics, keeps an editable buffer of placed glyphs with a
//! cursor and a highlight selection, and lays the buffer out into wrapped
//! rows of placement rectangles for a caller-supplied drawing surface.
//! Rasterizing glyphs and presenting pixels are the caller's business;
//! everything here is plain computation.

use vstd::prelude::*;

pub mod atlas;
pub mod font;
pub mod geometry;
pub mod glyph;
pub mod layout;
pub mod res_man;
pub mod screen;

verus! {

/// Widest atlas bitmap the builder will produce, in pixels.
pub const ATLAS_MAX_WIDTH: u32 = 16384;

/// Tallest atlas bitmap the builder will produce, in pixels.
pub const ATLAS_MAX_HEIGHT: u32 = 16384;

} // verus!
