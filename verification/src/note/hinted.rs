//! For scenarios where an audio sample might contain multiple frequencies,
//! especially when those other frequencies might be very prominent, the
//! hinted detection identifies the accuracy of a specified note: among all
//! significant peaks it takes the strongest one that sounds as that note.
use crate::common::constants::MIN_FREQ;
use crate::common::error::PitchError;
use crate::common::fixed::{clamp_i64, saturate_i64};
use crate::common::into_frequency_domain::{BinMapping, IntoFrequencyDomain};
use crate::common::utils::{
    is_refined, lemma_peak_neighborhood, peak_estimate, peak_estimate_at, refine, Fit, PeakEstimate,
};
use crate::common::{FftPoint, FrequencyBin, NoteName};
use crate::note::note_detection_result::{note_of, NoteDetection, Pitch};
use crate::note::peak_detector::{is_sorted_descending, sort_candidates, PeakFinderDetector};
use crate::pitch::{peak_frequency, pitch_at};
use std::ops::Range;
use vstd::prelude::*;
use vstd::string::StringExecFns;

verus! {

/// How many thousandths of a standard deviation a peak has to rise above
/// the mean of the spectrum to be a candidate for the hinted note.
pub const HINT_SIGMAS: i64 = 6000;

/// The detector of candidate peaks that hinted detection works with.
pub fn hint_peak_detector() -> (detector: PeakFinderDetector)
    ensures
        detector.sigmas() == HINT_SIGMAS,
{
    PeakFinderDetector::new(HINT_SIGMAS)
}

/// The frequency of each candidate, in millihertz, where it has one. The
/// candidates' bins are counted from the start of a spectrum that begins at
/// bin `start_bin`.
pub fn candidate_frequencies(
    mapping: BinMapping,
    candidates: &Vec<FrequencyBin>,
    start_bin: usize,
    sample_rate: u32,
) -> (freqs: Vec<Option<i64>>)
    ensures
        freqs.len() == candidates.len(),
        forall|i: int|
            0 <= i < freqs.len() ==> candidate_frequency(
                mapping,
                candidates[i],
                start_bin as int,
                sample_rate as int,
            ) == match #[trigger] freqs[i] {
                Some(freq) => Some(freq as int),
                None => None,
            },
{
    let mut freqs: Vec<Option<i64>> = Vec::new();
    let mut i: usize = 0;
    while i < candidates.len()
        invariant
            i <= candidates.len(),
            freqs.len() == i,
            forall|j: int|
                0 <= j < i ==> candidate_frequency(
                    mapping,
                    candidates[j],
                    start_bin as int,
                    sample_rate as int,
                ) == match #[trigger] freqs[j] {
                    Some(freq) => Some(freq as int),
                    None => None,
                },
        decreases candidates.len() - i,
    {
        let bin = saturate_i64(
            1_000_000 * ((candidates[i].bin as i128) + (start_bin as i128)),
        );
        freqs.push(mapping.bin_to_freq(bin, sample_rate));
        i = i + 1;
    }
    freqs
}

/// The frequency of a candidate in a spectrum that begins at bin
/// `start_bin`.
pub open spec fn candidate_frequency(
    mapping: BinMapping,
    candidate: FrequencyBin,
    start_bin: int,
    sample_rate: int,
) -> Option<int> {
    mapping.spec_bin_to_freq(clamp_i64(1_000_000 * (candidate.bin + start_bin)), sample_rate)
}

/// Whether a candidate with this pitch sounds as the hinted note. A
/// candidate without a pitch, or with one below the range of notes, sounds
/// as none.
pub open spec fn matches_hint(pitch: Option<Pitch>, note_hint: NoteName) -> bool {
    match pitch {
        Some(p) => p.freq >= MIN_FREQ && note_of(p).note_name == note_hint,
        None => false,
    }
}

/// Candidate `i` is the first that sounds as the hinted note.
pub open spec fn is_first_match(pitches: Seq<Option<Pitch>>, note_hint: NoteName, i: int) -> bool {
    &&& 0 <= i < pitches.len()
    &&& matches_hint(pitches[i], note_hint)
    &&& forall|j: int| 0 <= j < i ==> !matches_hint(#[trigger] pitches[j], note_hint)
}

/// The position of the first candidate that sounds as the hinted note.
pub fn find_hinted(pitches: &Vec<Option<Pitch>>, note_hint: NoteName) -> (found: Option<usize>)
    ensures
        match found {
            Some(i) => is_first_match(pitches@, note_hint, i as int),
            None => forall|j: int|
                0 <= j < pitches.len() ==> !matches_hint(#[trigger] pitches[j], note_hint),
        },
{
    let mut i: usize = 0;
    while i < pitches.len()
        invariant
            i <= pitches.len(),
            forall|j: int| 0 <= j < i ==> !matches_hint(#[trigger] pitches[j], note_hint),
        decreases pitches.len() - i,
    {
        let matched = match pitches[i] {
            Some(pitch) => match NoteDetection::try_from(pitch) {
                Ok(result) => result.note_name == note_hint,
                Err(_) => false,
            },
            None => false,
        };
        if matched {
            return Some(i);
        }
        i = i + 1;
    }
    None
}

/// Picks, among candidates sorted from the strongest down, the first that
/// sounds as the hinted note, and says where in its neighbourhood in the
/// spectrum the peak lies. `pitches` holds the pitch of each candidate.
pub fn detect_peak_with_hint(
    note_hint: NoteName,
    spectrum: &[i64],
    candidates: &Vec<FrequencyBin>,
    pitches: &Vec<Option<Pitch>>,
) -> (result: Result<PeakEstimate, PitchError>)
    requires
        candidates.len() == pitches.len(),
    ensures
        (forall|j: int| 0 <= j < pitches.len() ==> !matches_hint(#[trigger] pitches[j], note_hint))
            ==> result is Err && result->Err_0 is NoPitchDetected,
        forall|i: int|
            is_first_match(pitches@, note_hint, i) ==> if candidates[i].bin < spectrum.len() {
                result == Ok::<PeakEstimate, PitchError>(
                    peak_estimate(spectrum@, candidates[i].bin as int),
                )
            } else {
                result is Err && result->Err_0 is IncorrectParameters
            },
{
    match find_hinted(pitches, note_hint) {
        None => Err(
            PitchError::NoPitchDetected(String::from_str("Did not find pitch that matches hint")),
        ),
        Some(found) => {
            proof {
                lemma_first_match_unique(pitches@, note_hint, found as int);
            }
            peak_estimate_at(spectrum, candidates[found].bin)
        },
    }
}

/// There is at most one first candidate that sounds as the hinted note.
pub proof fn lemma_first_match_unique(pitches: Seq<Option<Pitch>>, note_hint: NoteName, i: int)
    requires
        is_first_match(pitches, note_hint, i),
    ensures
        forall|k: int| is_first_match(pitches, note_hint, k) ==> k == i,
{
    assert forall|k: int| is_first_match(pitches, note_hint, k) implies k == i by {
        if k < i {
            assert(!matches_hint(pitches[k], note_hint));
        } else if i < k {
            assert(!matches_hint(pitches[i], note_hint));
        }
    }
}

/// `pitches` holds the pitch of each candidate: none where the candidate
/// has no frequency, and else its frequency with the cents that `cents`
/// gives for it.
pub open spec fn are_pitches_of<C: Fn(i64) -> i64>(
    candidates: Seq<FrequencyBin>,
    mapping: BinMapping,
    start_bin: usize,
    sample_rate: u32,
    cents: C,
    pitches: Seq<Option<Pitch>>,
) -> bool {
    &&& pitches.len() == candidates.len()
    &&& forall|i: int|
        0 <= i < pitches.len() ==> match candidate_frequency(
            mapping,
            candidates[i],
            start_bin as int,
            sample_rate as int,
        ) {
            None => (#[trigger] pitches[i]) is None,
            Some(freq) => pitches[i] is Some && pitches[i]->Some_0.freq == freq && cents.ensures(
                (freq as i64,),
                pitches[i]->Some_0.cents,
            ),
        }
}

/// The pitch of each candidate, with `cents` to say where on the scale of
/// cents its frequency lies.
pub fn candidate_pitches<C: Fn(i64) -> i64>(
    mapping: BinMapping,
    candidates: &Vec<FrequencyBin>,
    start_bin: usize,
    sample_rate: u32,
    cents: &C,
) -> (pitches: Vec<Option<Pitch>>)
    requires
        forall|f: i64| #[trigger] cents.requires((f,)),
    ensures
        are_pitches_of(candidates@, mapping, start_bin, sample_rate, *cents, pitches@),
{
    let freqs = candidate_frequencies(mapping, candidates, start_bin, sample_rate);
    let mut pitches: Vec<Option<Pitch>> = Vec::new();
    let mut i: usize = 0;
    while i < freqs.len()
        invariant
            i <= freqs.len(),
            freqs.len() == candidates.len(),
            pitches.len() == i,
            forall|f: i64| #[trigger] cents.requires((f,)),
            forall|j: int|
                0 <= j < freqs.len() ==> candidate_frequency(
                    mapping,
                    candidates[j],
                    start_bin as int,
                    sample_rate as int,
                ) == match #[trigger] freqs[j] {
                    Some(freq) => Some(freq as int),
                    None => None,
                },
            forall|j: int|
                0 <= j < i ==> match freqs[j] {
                    None => (#[trigger] pitches[j]) is None,
                    Some(freq) => pitches[j] is Some && pitches[j]->Some_0.freq == freq
                        && cents.ensures((freq,), pitches[j]->Some_0.cents),
                },
        decreases freqs.len() - i,
    {
        let pitch = match freqs[i] {
            Some(freq) => Some(Pitch { freq, cents: cents(freq) }),
            None => None,
        };
        pitches.push(pitch);
        i = i + 1;
    }
    assert forall|i: int| 0 <= i < pitches.len() implies match candidate_frequency(
        mapping,
        candidates[i],
        start_bin as int,
        sample_rate as int,
    ) {
        None => (#[trigger] pitches[i]) is None,
        Some(freq) => pitches[i] is Some && pitches[i]->Some_0.freq == freq && cents.ensures(
            (freq as i64,),
            pitches[i]->Some_0.cents,
        ),
    } by {
        assert(freqs[i] == freqs[i]);
    }
    pitches
}

/// `result` is the note of the chosen candidate. Where no candidate sounds
/// as the hinted note, no pitch is detected; and else the first one that
/// does is refined in the spectrum, where it has to lie, and the note is
/// that of the frequency of the refined peak, as long as that still sounds
/// as the hinted note.
pub open spec fn is_note_of_hint<C: Fn(i64) -> i64, F: Fn(Vec<i64>, Vec<i64>) -> Fit>(
    note_hint: NoteName,
    domain: (usize, Seq<i64>),
    candidates: Seq<FrequencyBin>,
    pitches: Seq<Option<Pitch>>,
    mapping: BinMapping,
    sample_rate: u32,
    cents: C,
    fit: F,
    result: Result<NoteDetection, PitchError>,
) -> bool {
    &&& (forall|j: int| 0 <= j < pitches.len() ==> !matches_hint(#[trigger] pitches[j], note_hint))
        ==> result is Err && result->Err_0 is NoPitchDetected
    &&& forall|i: int| #[trigger]
        is_first_match(pitches, note_hint, i) ==> if candidates[i].bin < domain.1.len() {
            exists|peak: Result<FftPoint, PitchError>| #[trigger]
                is_refined(domain.1, peak_estimate(domain.1, candidates[i].bin as int), fit, peak)
                    && is_note_of_peak(
                    note_hint,
                    peak,
                    mapping,
                    domain.0,
                    sample_rate,
                    cents,
                    result,
                )
        } else {
            result is Err && result->Err_0 is IncorrectParameters
        }
}

/// `result` is the hinted note as a frequency sounds it: the note of the
/// frequency with the cents that `cents` gives for it, where that is the
/// hinted note; a frequency below the range of notes, or one that sounds as
/// another note, is no detection of the hinted note.
pub open spec fn is_hinted_note_of_freq<C: Fn(i64) -> i64>(
    note_hint: NoteName,
    freq: i64,
    cents: C,
    result: Result<NoteDetection, PitchError>,
) -> bool {
    if freq < MIN_FREQ {
        result is Err && result->Err_0 is NoPitchDetected
    } else {
        exists|above_a4: i64| #[trigger]
            cents.ensures((freq,), above_a4) && if note_of(Pitch { freq, cents: above_a4 }).note_name
                == note_hint {
                result == Ok::<NoteDetection, PitchError>(note_of(Pitch { freq, cents: above_a4 }))
            } else {
                result is Err && result->Err_0 is NoPitchDetected
            }
    }
}

/// The hinted note as a frequency in millihertz sounds it, with `cents` to
/// say where on the scale of cents the frequency lies. A frequency that
/// does not sound as the hinted note is no detection of it.
pub fn hinted_note<C: Fn(i64) -> i64>(note_hint: NoteName, freq: i64, cents: &C) -> (result: Result<
    NoteDetection,
    PitchError,
>)
    requires
        forall|f: i64| #[trigger] cents.requires((f,)),
    ensures
        is_hinted_note_of_freq(note_hint, freq, *cents, result),
        result matches Ok(note) ==> note.note_name == note_hint && note.actual_freq >= MIN_FREQ
            && note.actual_freq == freq,
{
    match NoteDetection::try_from_freq(freq, cents) {
        Ok(note) => if note.note_name == note_hint {
            Ok(note)
        } else {
            Err(
                PitchError::NoPitchDetected(
                    String::from_str("Refined pitch does not match hint"),
                ),
            )
        },
        Err(_) => Err(
            PitchError::NoPitchDetected(String::from_str("Refined pitch does not match hint")),
        ),
    }
}

/// `result` is the hinted note as the frequency of a refined peak sounds
/// it, in a spectrum that begins at bin `start_bin`, or the error that
/// refining came to.
pub open spec fn is_note_of_peak<C: Fn(i64) -> i64>(
    note_hint: NoteName,
    peak: Result<FftPoint, PitchError>,
    mapping: BinMapping,
    start_bin: usize,
    sample_rate: u32,
    cents: C,
    result: Result<NoteDetection, PitchError>,
) -> bool {
    match peak {
        Ok(point) => match peak_frequency(mapping, point, start_bin as int, sample_rate as int) {
            Some(freq) => is_hinted_note_of_freq(note_hint, freq as i64, cents, result),
            None => result is Err && result->Err_0 is NoPitchDetected,
        },
        Err(e) => result == Err::<NoteDetection, PitchError>(e),
    }
}

/// Detection with a hint finds the hinted note or nothing: a note that it
/// returns has the name that the hint gives, and a frequency in the range
/// of notes.
pub proof fn lemma_note_of_hint_is_hinted<C: Fn(i64) -> i64, F: Fn(Vec<i64>, Vec<i64>) -> Fit>(
    note_hint: NoteName,
    domain: (usize, Seq<i64>),
    candidates: Seq<FrequencyBin>,
    pitches: Seq<Option<Pitch>>,
    mapping: BinMapping,
    sample_rate: u32,
    cents: C,
    fit: F,
    result: Result<NoteDetection, PitchError>,
)
    requires
        is_note_of_hint(
            note_hint,
            domain,
            candidates,
            pitches,
            mapping,
            sample_rate,
            cents,
            fit,
            result,
        ),
    ensures
        result matches Ok(note) ==> note.note_name == note_hint && note.actual_freq >= MIN_FREQ,
{
    if result is Ok {
        let j = choose|j: int| 0 <= j < pitches.len() && matches_hint(#[trigger] pitches[j], note_hint);
        lemma_first_match_exists(pitches, note_hint, j);
        let i = choose|i: int| #[trigger] is_first_match(pitches, note_hint, i);
        assert(is_first_match(pitches, note_hint, i));
    }
}

/// `result` is what detection with a hint finds in a frequency domain:
/// among the candidate peaks that `peaks` finds, sorted from the strongest
/// down, the hinted note as the first that sounds as it sounds it once its
/// peak is refined.
pub open spec fn is_hinted_detection<
    P: Fn(&[i64], i64) -> Vec<FrequencyBin>,
    C: Fn(i64) -> i64,
    F: Fn(Vec<i64>, Vec<i64>) -> Fit,
>(
    note_hint: NoteName,
    domain: (usize, Seq<i64>),
    mapping: BinMapping,
    sample_rate: u32,
    peaks: P,
    cents: C,
    fit: F,
    result: Result<NoteDetection, PitchError>,
) -> bool {
    exists|
        spectrum: &[i64],
        found: Vec<FrequencyBin>,
        candidates: Seq<FrequencyBin>,
        pitches: Seq<Option<Pitch>>,
    |
        spectrum@ == domain.1 && #[trigger] peaks.ensures((spectrum, HINT_SIGMAS), found)
            && is_sorted_descending(found@, candidates) && #[trigger] are_pitches_of(
            candidates,
            mapping,
            domain.0,
            sample_rate,
            cents,
            pitches,
        ) && is_note_of_hint(
            note_hint,
            domain,
            candidates,
            pitches,
            mapping,
            sample_rate,
            cents,
            fit,
            result,
        )
}

/// Detects the note that the hint names in a frequency domain that begins
/// at bin `start_bin`: takes all candidate peaks that `peaks` finds more
/// than `HINT_SIGMAS` thousandths of a standard deviation above the mean,
/// sorts them from the strongest down, takes the first whose frequency
/// sounds as the hinted note, refines its peak, and returns the note of
/// the refined frequency. A note other than the hinted one is never
/// returned: where the refined frequency sounds as another note, no pitch
/// is detected.
pub fn detect_note_in_domain<
    P: Fn(&[i64], i64) -> Vec<FrequencyBin>,
    C: Fn(i64) -> i64,
    F: Fn(Vec<i64>, Vec<i64>) -> Fit,
>(
    note_hint: NoteName,
    start_bin: usize,
    spectrum: &[i64],
    mapping: BinMapping,
    sample_rate: u32,
    peaks: &P,
    cents: &C,
    fit: &F,
) -> (result: Result<NoteDetection, PitchError>)
    requires
        forall|s: &[i64], k: i64| #[trigger] peaks.requires((s, k)),
        forall|f: i64| #[trigger] cents.requires((f,)),
        forall|x: Vec<i64>, y: Vec<i64>| #[trigger] fit.requires((x, y)),
    ensures
        is_hinted_detection(
            note_hint,
            (start_bin, spectrum@),
            mapping,
            sample_rate,
            *peaks,
            *cents,
            *fit,
            result,
        ),
        result matches Ok(note) ==> note.note_name == note_hint && note.actual_freq >= MIN_FREQ,
{
    let found = peaks(spectrum, HINT_SIGMAS);
    let candidates = sort_candidates(&found);
    let pitches = candidate_pitches(mapping, &candidates, start_bin, sample_rate, cents);
    let result = match detect_peak_with_hint(note_hint, spectrum, &candidates, &pitches) {
        Err(e) => Err(e),
        Ok(estimate) => {
            let ghost chosen = choose|i: int| is_first_match(pitches@, note_hint, i);
            proof {
                assert(exists|j: int|
                    0 <= j < pitches.len() && matches_hint(#[trigger] pitches[j], note_hint));
                let j = choose|j: int|
                    0 <= j < pitches.len() && matches_hint(#[trigger] pitches[j], note_hint);
                lemma_first_match_exists(pitches@, note_hint, j);
                lemma_first_match_unique(pitches@, note_hint, chosen);
                lemma_peak_neighborhood(spectrum@, candidates[chosen].bin as int);
            }
            let peak = refine(spectrum, estimate, fit);
            let result = match peak {
                Ok(point) => match pitch_at(mapping, point, start_bin, sample_rate) {
                    Ok(freq) => hinted_note(note_hint, freq, cents),
                    Err(e) => Err(e),
                },
                Err(e) => Err(e),
            };
            assert(is_refined(
                spectrum@,
                peak_estimate(spectrum@, candidates[chosen].bin as int),
                *fit,
                peak,
            ));
            assert(is_note_of_peak(
                note_hint,
                peak,
                mapping,
                start_bin,
                sample_rate,
                *cents,
                result,
            ));
            result
        },
    };
    proof {
        assert(peaks.ensures((spectrum, HINT_SIGMAS), found));
        assert forall|i: int| #[trigger] is_first_match(pitches@, note_hint, i) implies if candidates[i].bin
            < spectrum@.len() {
            exists|peak: Result<FftPoint, PitchError>| #[trigger]
                is_refined(
                    spectrum@,
                    peak_estimate(spectrum@, candidates[i].bin as int),
                    *fit,
                    peak,
                ) && is_note_of_peak(
                    note_hint,
                    peak,
                    mapping,
                    start_bin,
                    sample_rate,
                    *cents,
                    result,
                )
        } else {
            result is Err && result->Err_0 is IncorrectParameters
        } by {
            lemma_first_match_unique(pitches@, note_hint, i);
        }
        assert(is_note_of_hint(
            note_hint,
            (start_bin, spectrum@),
            candidates@,
            pitches@,
            mapping,
            sample_rate,
            *cents,
            *fit,
            result,
        ));
        assert(is_sorted_descending(found@, candidates@));
        assert(are_pitches_of(candidates@, mapping, start_bin, sample_rate, *cents, pitches@));
        let domain = (start_bin, spectrum@);
        assert(spectrum@ == domain.1 && peaks.ensures((spectrum, HINT_SIGMAS), found)
            && is_sorted_descending(found@, candidates@) && are_pitches_of(
            candidates@,
            mapping,
            domain.0,
            sample_rate,
            *cents,
            pitches@,
        ) && is_note_of_hint(
            note_hint,
            domain,
            candidates@,
            pitches@,
            mapping,
            sample_rate,
            *cents,
            *fit,
            result,
        ));
    }
    result
}

/// Where a candidate sounds as the hinted note, there is a first that does.
pub proof fn lemma_first_match_exists(pitches: Seq<Option<Pitch>>, note_hint: NoteName, j: int)
    requires
        0 <= j < pitches.len(),
        matches_hint(pitches[j], note_hint),
    ensures
        exists|i: int| is_first_match(pitches, note_hint, i),
    decreases j,
{
    if forall|k: int| 0 <= k < j ==> !matches_hint(#[trigger] pitches[k], note_hint) {
        assert(is_first_match(pitches, note_hint, j));
    } else {
        let k = choose|k: int| 0 <= k < j && matches_hint(#[trigger] pitches[k], note_hint);
        lemma_first_match_exists(pitches, note_hint, k);
    }
}

/// `result` is what detection with a hint finds in a signal: what it finds
/// in a frequency domain of the signal that the detector gives.
pub open spec fn is_hinted_note<
    T: IntoFrequencyDomain,
    P: Fn(&[i64], i64) -> Vec<FrequencyBin>,
    C: Fn(i64) -> i64,
    F: Fn(Vec<i64>, Vec<i64>) -> Fit,
>(
    detector: T,
    after: T,
    note_hint: NoteName,
    signal: Seq<i64>,
    sample_rate: u32,
    freq_range: Option<(Range<i64>, u32)>,
    peaks: P,
    cents: C,
    fit: F,
    result: Result<NoteDetection, PitchError>,
) -> bool {
    exists|domain: (usize, Seq<i64>)| #[trigger]
        detector.is_domain_of(signal, freq_range, domain) && after.spec_mapping() is Some
            && is_hinted_detection(
            note_hint,
            domain,
            after.spec_mapping()->Some_0,
            sample_rate,
            peaks,
            cents,
            fit,
            result,
        )
}

/// Detects the note that the hint names in the signal, within the range of
/// frequencies where one is given: among all significant peaks of the
/// frequency domain that the detector makes of the signal, the strongest
/// one that sounds as the hinted note decides.
pub fn detect_note_with_hint_and_range<
    T: IntoFrequencyDomain,
    P: Fn(&[i64], i64) -> Vec<FrequencyBin>,
    C: Fn(i64) -> i64,
    F: Fn(Vec<i64>, Vec<i64>) -> Fit,
>(
    detector: &mut T,
    note_hint: NoteName,
    signal: &[i64],
    sample_rate: u32,
    freq_range_hint: Option<Range<i64>>,
    peaks: &P,
    cents: &C,
    fit: &F,
) -> (result: Result<NoteDetection, PitchError>)
    requires
        old(detector).takes(signal@),
        forall|s: &[i64], k: i64| #[trigger] peaks.requires((s, k)),
        forall|f: i64| #[trigger] cents.requires((f,)),
        forall|x: Vec<i64>, y: Vec<i64>| #[trigger] fit.requires((x, y)),
    ensures
        final(detector).spec_mapping() is Some,
        result matches Ok(note) ==> note.note_name == note_hint && note.actual_freq >= MIN_FREQ,
        is_hinted_note(
            *old(detector),
            *final(detector),
            note_hint,
            signal@,
            sample_rate,
            match freq_range_hint {
                Some(r) => Some((r, sample_rate)),
                None => None,
            },
            *peaks,
            *cents,
            *fit,
            result,
        ),
{
    let freq_range = match freq_range_hint {
        Some(r) => Some((r, sample_rate)),
        None => None,
    };
    let (start_bin, spectrum) = detector.into_frequency_domain(signal, freq_range);
    let mapping = detector.mapping();
    let result = detect_note_in_domain(
        note_hint,
        start_bin,
        spectrum.as_slice(),
        mapping,
        sample_rate,
        peaks,
        cents,
        fit,
    );
    assert(old(detector).is_domain_of(signal@, freq_range, (start_bin, spectrum@)));
    result
}

/// Detects the note that the hint names in the signal, in the whole of the
/// frequency domain that the detector makes of it.
pub fn detect_note_with_hint<
    T: IntoFrequencyDomain,
    P: Fn(&[i64], i64) -> Vec<FrequencyBin>,
    C: Fn(i64) -> i64,
    F: Fn(Vec<i64>, Vec<i64>) -> Fit,
>(
    detector: &mut T,
    note_hint: NoteName,
    signal: &[i64],
    sample_rate: u32,
    peaks: &P,
    cents: &C,
    fit: &F,
) -> (result: Result<NoteDetection, PitchError>)
    requires
        old(detector).takes(signal@),
        forall|s: &[i64], k: i64| #[trigger] peaks.requires((s, k)),
        forall|f: i64| #[trigger] cents.requires((f,)),
        forall|x: Vec<i64>, y: Vec<i64>| #[trigger] fit.requires((x, y)),
    ensures
        final(detector).spec_mapping() is Some,
        result matches Ok(note) ==> note.note_name == note_hint && note.actual_freq >= MIN_FREQ,
        is_hinted_note(
            *old(detector),
            *final(detector),
            note_hint,
            signal@,
            sample_rate,
            None,
            *peaks,
            *cents,
            *fit,
            result,
        ),
{
    detect_note_with_hint_and_range(
        detector,
        note_hint,
        signal,
        sample_rate,
        None,
        peaks,
        cents,
        fit,
    )
}

} // verus!
