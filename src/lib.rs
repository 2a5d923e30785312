//! Transposition of chord symbols embedded in song sheets.
//!
//! A document is split into lines, each line into runs of whitespace and
//! non-whitespace, and each run is classified as a chord, a word or
//! whitespace. Lines that are predominantly chords have their chords moved by
//! a number of half-steps and respelled with sharps; all other text is kept
//! verbatim.
pub mod document;
pub mod line;
pub mod notes;
pub mod text_util;
pub mod token;
pub mod transposer;

pub use document::transpose_text;
pub use line::Line;
pub use token::{Chord, Text};
pub use transposer::ChordTransposerApp;
