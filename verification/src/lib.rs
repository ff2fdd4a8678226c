//! Rendering of text as multi-line banners from FIGfont glyph tables.
//!
//! The crate decodes a font's packed layout integer into smushing rules,
//! parses font files, and composes glyphs column by column.

pub mod font;
pub mod layout;
pub mod render;
pub mod rules;
pub mod text;
