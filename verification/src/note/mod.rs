//! Notes: the mapping from a pitch to a note, and detection with a hint.
pub mod hinted;
pub mod note_detection_result;
pub mod peak_detector;
pub mod peak_iter;

use crate::common::error::PitchError;
use crate::note::note_detection_result::{is_note_of_freq, NoteDetection};
use crate::pitch::{conventional_range, PitchDetector};
use std::ops::Range;
use vstd::prelude::*;

verus! {

/// `result` is the note of what a detector found: the error where it found
/// no pitch, and else the note of the frequency.
pub open spec fn is_note_of_detection<C: Fn(i64) -> i64>(
    detection: Result<i64, PitchError>,
    cents: C,
    result: Result<NoteDetection, PitchError>,
) -> bool {
    match detection {
        Ok(freq) => is_note_of_freq(freq, cents, result),
        Err(e) => result == Err::<NoteDetection, PitchError>(e),
    }
}

/// Returns the predominant note of the given signal. It will detect within
/// the conventional range of frequencies, from 20 Hz to half the sample
/// rate. To detect a note in a specific range, use `detect_note_in_range`.
pub fn detect_note<D: PitchDetector, C: Fn(i64) -> i64>(
    signal: &[i64],
    freq_detector: &mut D,
    sample_rate: u32,
    cents: &C,
) -> (result: Result<NoteDetection, PitchError>)
    requires
        old(freq_detector).accepts(signal@, sample_rate, conventional_range(sample_rate)),
        forall|f: i64| #[trigger] cents.requires((f,)),
    ensures
        exists|detection: Result<i64, PitchError>| #[trigger]
            old(freq_detector).detects(
                signal@,
                sample_rate,
                conventional_range(sample_rate),
                detection,
            ) && is_note_of_detection(detection, *cents, result),
{
    let nyquist_freq: i64 = 500 * (sample_rate as i64);
    let min_freq: i64 = 20_000;
    detect_note_in_range(signal, freq_detector, sample_rate, min_freq..nyquist_freq, cents)
}

/// Returns the predominant note of the given signal within the specified
/// range: the note of the pitch that the detector finds, with `cents` to
/// say where on the scale of cents the pitch lies.
pub fn detect_note_in_range<D: PitchDetector, C: Fn(i64) -> i64>(
    signal: &[i64],
    freq_detector: &mut D,
    sample_rate: u32,
    freq_range: Range<i64>,
    cents: &C,
) -> (result: Result<NoteDetection, PitchError>)
    requires
        old(freq_detector).accepts(signal@, sample_rate, freq_range),
        forall|f: i64| #[trigger] cents.requires((f,)),
    ensures
        exists|detection: Result<i64, PitchError>| #[trigger]
            old(freq_detector).detects(signal@, sample_rate, freq_range, detection)
                && is_note_of_detection(detection, *cents, result),
{
    let detection = freq_detector.detect_pitch_in_range(signal, sample_rate, freq_range);
    let result = match detection {
        Ok(freq) => NoteDetection::try_from_freq(freq, cents),
        Err(e) => Err(e),
    };
    assert(is_note_of_detection(detection, *cents, result));
    result
}

} // verus!
