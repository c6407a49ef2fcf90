use vstd::prelude::*;
use vstd::string::StringExecFns;

verus! {

/// Why a detection call produced no result.
#[derive(Debug, Clone)]
pub enum PitchError {
    /// An internal numerical routine failed.
    UnexpectedError(String),
    /// The range or the shape of the data cannot yield a result.
    IncorrectParameters(String),
    /// The algorithm ran but found no sufficiently confident peak.
    NoPitchDetected(String),
}

impl PitchError {
    /// The text carried by the error.
    pub open spec fn message(&self) -> Seq<char> {
        match self {
            PitchError::UnexpectedError(msg) => msg@,
            PitchError::IncorrectParameters(msg) => msg@,
            PitchError::NoPitchDetected(msg) => msg@,
        }
    }

    /// The label that precedes the message when the error is displayed.
    pub open spec fn label(&self) -> Seq<char> {
        match self {
            PitchError::UnexpectedError(_) => "Unexpected Error: "@,
            PitchError::IncorrectParameters(_) => "Incorrect Parameters Error: "@,
            PitchError::NoPitchDetected(_) => "No Pitch Detected Error: "@,
        }
    }

    /// The error as one line of text: label, message, line break.
    pub fn to_string(&self) -> (s: String)
        ensures
            s@ == self.label() + self.message() + "\n"@,
    {
        match self {
            PitchError::UnexpectedError(msg) => String::from_str("Unexpected Error: ").concat(
                msg.as_str(),
            ).concat("\n"),
            PitchError::IncorrectParameters(msg) => String::from_str(
                "Incorrect Parameters Error: ",
            ).concat(msg.as_str()).concat("\n"),
            PitchError::NoPitchDetected(msg) => String::from_str(
                "No Pitch Detected Error: ",
            ).concat(msg.as_str()).concat("\n"),
        }
    }
}

} // verus!
