//! A tuner display of two lines: the note, and how far off it is.
use crate::common::error::PitchError;
use crate::note::note_detection_result::NoteDetection;
use vstd::prelude::*;
use vstd::string::StringExecFns;

verus! {

/// Shows the name of the note on a line of its own.
pub struct SimpleCommandLineRenderer;

impl SimpleCommandLineRenderer {
    /// The line that names the note.
    pub fn note_line(&self, note: &NoteDetection) -> (line: String)
        ensures
            line@ == "Note: "@ + note.note_name.name(),
    {
        let name = note.note_name.to_string();
        String::from_str("Note: ").concat(name.as_str())
    }

    /// The line shown where no note was detected: the error, displayed.
    pub fn no_note_line(&self, error: &PitchError) -> (line: String)
        ensures
            line@ == error.label() + error.message() + "\n"@,
    {
        error.to_string()
    }
}

} // verus!
