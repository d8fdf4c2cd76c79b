//! Line layout bookkeeping for shaped text.
//!
//! A shaping backend breaks a paragraph into lines and reports where each
//! line starts, counted in UTF-16 code units. This library keeps the text,
//! turns those line starts into UTF-8 byte offsets, and answers questions
//! about lines by index: their byte range, their text, their trailing
//! whitespace, and which line holds a given byte offset or a given point.
//! Everything here is integer arithmetic; the backend keeps the glyphs and
//! hands over positions as whole numbers of a unit it chooses.

pub mod encoding;
pub mod error;
pub mod layout;
pub mod offsets;
pub mod whitespace;
pub mod width;
