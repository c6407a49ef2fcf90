//! Pitch and note detection over fixed-point numbers.
//!
//! Every quantity is an integer: samples and spectral magnitudes are plain
//! signed integers on a scale the caller chooses, frequencies are counted
//! in millihertz, fractional bin positions in millionths of a bin, and
//! pitch offsets in thousandths of a cent.
//!
//! What a detector cannot compute in integers it is given when it is made:
//! the transforms, the window, the curve fit, the search for candidate
//! peaks, the logarithm. Of these the detectors assume nothing; what they
//! return is stated for whatever these hand back.
pub mod common;
pub mod note;
pub mod note_renderers;
pub mod pitch;
