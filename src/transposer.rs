//! State of an interactive transposer: the half-step setting, the text typed
//! in, and the transposed text shown beside it.
use vstd::prelude::*;
use crate::document::{transpose_document, transpose_text};

verus! {

/// What an editor front end keeps between frames and sessions.
pub struct ChordTransposerApp {
    pub half_steps: i32,
    pub original_chord_input: String,
    pub transposed_chords: String,
}

impl Default for ChordTransposerApp {
    fn default() -> (r: ChordTransposerApp)
        ensures
            r.half_steps == 0,
            r.original_chord_input@ == Seq::<char>::empty(),
            r.transposed_chords@ == Seq::<char>::empty(),
    {
        ChordTransposerApp {
            half_steps: 0,
            original_chord_input: String::new(),
            transposed_chords: String::new(),
        }
    }
}

impl ChordTransposerApp {
    /// Recomputes the transposed text from the input and the half-step
    /// setting.
    pub fn update_transposed_text(&mut self)
        ensures
            final(self).half_steps == old(self).half_steps,
            final(self).original_chord_input == old(self).original_chord_input,
            final(self).transposed_chords@ == transpose_document(
                old(self).original_chord_input@,
                old(self).half_steps as int,
            ),
    {
        self.transposed_chords = transpose_text(&self.original_chord_input, self.half_steps);
    }
}

} // verus!
