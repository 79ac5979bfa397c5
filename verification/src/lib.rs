//! Glyph tables and compound-character maps for games whose dialog text is
//! stored in a byte-oriented encoding tied to a per-title glyph set.

pub mod charset;
pub mod text;
pub mod compound;
pub mod compound_map;
pub mod gamedef;
pub mod diagnostic;
