//! Pitch detection algorithms.
//!
//! The recommended algorithm is the windowed magnitude spectrum, which is
//! the most versatile. The power cepstrum is less versatile, but it is able
//! to detect a fundamental from a sample that includes many harmonics.
pub mod autocorrelation;
pub mod autocorrelation2;
pub mod autocorrelation_detector;
pub mod cepstrum;
pub mod cepstrum2;
pub mod hanned_fft;
pub mod utils;

use crate::common::fixed::{clamp_i64, clamp_usize, div_round, round_div, saturate_i64, saturate_usize};
use crate::common::into_frequency_domain::BinMapping;
use crate::common::error::PitchError;
use crate::common::utils::{
    is_refined, is_single_valued_fit, lemma_peak_neighborhood, lemma_refined_once, peak_estimate,
    peak_estimate_at, refine, Fit, PeakEstimate,
};
use crate::common::FftPoint;
use std::ops::Range;
use vstd::prelude::*;
use vstd::string::StringExecFns;

verus! {

/// The largest magnitude of a sample that the detectors in the time domain
/// take: that of a sample of 16 bits, which is what a buffer of raw audio
/// bytes holds. The detectors in the time domain add up products of
/// samples and multiply such sums by lags, in 128 bits; this bound and the
/// one on the length of the signal are what keeps them within that width.
pub const MAX_SAMPLE: i64 = 0x8000;

/// Every sample is a sample of 16 bits.
pub open spec fn is_sampled(signal: Seq<i64>) -> bool {
    forall|i: int| 0 <= i < signal.len() ==> -MAX_SAMPLE <= #[trigger] signal[i] <= MAX_SAMPLE
}

/// The conventional range of frequencies: from 20 Hz, the least that a
/// human hears, to half the sample rate.
pub open spec fn conventional_range(sample_rate: u32) -> Range<i64> {
    Range { start: 20_000i64, end: (500 * sample_rate) as i64 }
}

/// A detector of the pitch of a sampled signal, in millihertz.
pub trait PitchDetector {
    /// Whether the detector takes the signal with this range.
    spec fn accepts(&self, signal: Seq<i64>, sample_rate: u32, freq_range: Range<i64>) -> bool;

    /// Whether `result` is what the detector finds in the signal.
    spec fn detects(
        &self,
        signal: Seq<i64>,
        sample_rate: u32,
        freq_range: Range<i64>,
        result: Result<i64, PitchError>,
    ) -> bool;

    /// Detects within the conventional range of frequencies. To detect a
    /// pitch in a specific range, use `detect_pitch_in_range`.
    fn detect_pitch(&mut self, signal: &[i64], sample_rate: u32) -> (result: Result<i64, PitchError>)
        requires
            old(self).accepts(signal@, sample_rate, conventional_range(sample_rate)),
        ensures
            old(self).detects(signal@, sample_rate, conventional_range(sample_rate), result),
    {
        let nyquist_freq: i64 = 500 * (sample_rate as i64);
        let min_freq: i64 = 20_000;
        self.detect_pitch_in_range(signal, sample_rate, min_freq..nyquist_freq)
    }

    /// Detects a pitch within the specified frequency range.
    fn detect_pitch_in_range(
        &mut self,
        signal: &[i64],
        sample_rate: u32,
        freq_range: Range<i64>,
    ) -> (result: Result<i64, PitchError>)
        requires
            old(self).accepts(signal@, sample_rate, freq_range),
        ensures
            old(self).detects(signal@, sample_rate, freq_range, result),
    ;
}

/// `bin` is where the largest magnitude of the spectrum first occurs.
pub open spec fn is_max_bin(s: Seq<i64>, bin: int) -> bool {
    &&& 0 <= bin < s.len()
    &&& forall|j: int| 0 <= j < s.len() ==> #[trigger] s[j] <= s[bin]
    &&& forall|j: int| 0 <= j < bin ==> #[trigger] s[j] < s[bin]
}

/// The bin where the largest magnitude first occurs; none in an empty
/// spectrum.
pub fn max_bin(spectrum: &[i64]) -> (bin: Option<usize>)
    ensures
        spectrum.len() == 0 ==> bin.is_none(),
        spectrum.len() > 0 ==> bin.is_some() && is_max_bin(spectrum@, bin.unwrap() as int),
{
    if spectrum.len() == 0 {
        return None;
    }
    let mut best: usize = 0;
    let mut i: usize = 1;
    while i < spectrum.len()
        invariant
            1 <= i <= spectrum.len(),
            best < i,
            forall|j: int| 0 <= j < i ==> #[trigger] spectrum[j] <= spectrum[best as int],
            forall|j: int| 0 <= j < best ==> #[trigger] spectrum[j] < spectrum[best as int],
        decreases spectrum.len() - i,
    {
        if spectrum[i] > spectrum[best] {
            best = i;
        }
        i = i + 1;
    }
    Some(best)
}

/// A spectrum has at most one bin where its largest magnitude first occurs.
pub proof fn lemma_max_bin_unique(s: Seq<i64>, a: int, b: int)
    requires
        is_max_bin(s, a),
        is_max_bin(s, b),
    ensures
        a == b,
{
    if a < b {
        assert(s[a] < s[b]);
        assert(s[b] <= s[a]);
    } else if b < a {
        assert(s[b] < s[a]);
        assert(s[a] <= s[b]);
    }
}

/// The part of `values` from bin `lower` up to, not including, bin `upper`,
/// as far as there are values.
pub open spec fn restricted<T>(values: Seq<T>, lower: int, upper: int) -> Seq<T> {
    let begin = if lower < values.len() {
        lower
    } else {
        values.len() as int
    };
    let end = if upper < values.len() {
        upper
    } else {
        values.len() as int
    };
    if begin < end {
        values.subrange(begin, end)
    } else {
        Seq::empty()
    }
}

/// The whole bin nearest to a frequency in a transform of `padded_len`
/// points. Without a sample rate every frequency above zero lies beyond the
/// last bin.
pub open spec fn whole_bin(freq: int, sample_rate: int, padded_len: int) -> int {
    if sample_rate == 0 {
        if freq * padded_len > 0 {
            usize::MAX as int
        } else {
            0
        }
    } else {
        clamp_usize(round_div(freq * padded_len, 1000 * sample_rate))
    }
}

/// The whole lag nearest to the period of a frequency. The period of
/// frequency zero is beyond the last lag; a frequency below zero has lag
/// zero, and so has every frequency without a sample rate.
pub open spec fn whole_lag(freq: int, sample_rate: int) -> int {
    if freq > 0 {
        clamp_usize(round_div(1000 * sample_rate, freq))
    } else if freq == 0 && sample_rate > 0 {
        usize::MAX as int
    } else {
        0
    }
}

/// The whole bin nearest to a frequency in a transform of `padded_len`
/// points.
pub fn nearest_whole_bin(freq: i64, sample_rate: u32, padded_len: usize) -> (bin: usize)
    ensures
        bin == whole_bin(freq as int, sample_rate as int, padded_len as int),
{
    assert(-0x8000_0000_0000_0000_0000_0000_0000_0000 < freq * padded_len
        < 0x8000_0000_0000_0000_0000_0000_0000_0000) by (nonlinear_arith)
        requires
            -0x8000_0000_0000_0000 <= freq < 0x8000_0000_0000_0000,
            0 <= padded_len < 0x1_0000_0000_0000_0000,
    ;
    let product: i128 = (freq as i128) * (padded_len as i128);
    if sample_rate == 0 {
        if product > 0 {
            usize::MAX
        } else {
            0
        }
    } else {
        saturate_usize(div_round(product, 1000 * (sample_rate as i128)))
    }
}

/// The whole lag nearest to the period of a frequency.
pub fn nearest_whole_lag(freq: i64, sample_rate: u32) -> (lag: usize)
    ensures
        lag == whole_lag(freq as int, sample_rate as int),
{
    if freq > 0 {
        saturate_usize(div_round(1000 * (sample_rate as i128), freq as i128))
    } else if freq == 0 && sample_rate > 0 {
        usize::MAX
    } else {
        0
    }
}

/// The frequency of a peak found at `peak.x` in a spectrum that begins at
/// bin `start_bin`, where the position has a frequency.
pub open spec fn peak_frequency(
    mapping: BinMapping,
    peak: FftPoint,
    start_bin: int,
    sample_rate: int,
) -> Option<int> {
    mapping.spec_bin_to_freq(clamp_i64(peak.x + 1_000_000 * start_bin), sample_rate)
}

/// `result` is the frequency of a refined peak in a spectrum that begins at
/// bin `start_bin`, or the error that refining came to.
pub open spec fn is_pitch_of_peak(
    peak: Result<FftPoint, PitchError>,
    mapping: BinMapping,
    start_bin: usize,
    sample_rate: u32,
    result: Result<i64, PitchError>,
) -> bool {
    match peak {
        Ok(point) => match peak_frequency(mapping, point, start_bin as int, sample_rate as int) {
            Some(freq) => result == Ok::<i64, PitchError>(freq as i64),
            None => result is Err && result->Err_0 is NoPitchDetected,
        },
        Err(e) => result == Err::<i64, PitchError>(e),
    }
}

/// The frequency in millihertz of a peak found at `peak.x`, in millionths
/// of a bin, in a spectrum that begins at bin `start_bin`. A position that
/// stands for no frequency gives no pitch.
pub fn pitch_at(mapping: BinMapping, peak: FftPoint, start_bin: usize, sample_rate: u32) -> (result:
    Result<i64, PitchError>)
    ensures
        match peak_frequency(mapping, peak, start_bin as int, sample_rate as int) {
            Some(freq) => result == Ok::<i64, PitchError>(freq as i64),
            None => result is Err && result->Err_0 is NoPitchDetected,
        },
{
    let bin = saturate_i64((peak.x as i128) + 1_000_000 * (start_bin as i128));
    match mapping.bin_to_freq(bin, sample_rate) {
        Some(freq) => Ok(freq),
        None => Err(PitchError::NoPitchDetected(String::from_str("No pitch detected"))),
    }
}

/// `result` is the pitch found in the spectrum of a range of bins, with
/// `fit` to refine the peak. A range without bins is a mistake of the
/// caller's; a spectrum that is empty though the range has bins holds no
/// pitch; and else the pitch is the frequency of the refined peak of the
/// bin where the largest magnitude first occurs.
pub open spec fn is_pitch_of_spectrum<F: Fn(Vec<i64>, Vec<i64>) -> Fit>(
    bin_range: (usize, usize),
    spectrum: Seq<i64>,
    fit: F,
    mapping: BinMapping,
    sample_rate: u32,
    result: Result<i64, PitchError>,
) -> bool {
    if bin_range.1 <= bin_range.0 {
        result is Err && result->Err_0 is IncorrectParameters
    } else if spectrum.len() == 0 {
        result is Err && result->Err_0 is NoPitchDetected
    } else {
        exists|bin: int, peak: Result<FftPoint, PitchError>|
            is_max_bin(spectrum, bin) && #[trigger] is_refined(
                spectrum,
                peak_estimate(spectrum, bin),
                fit,
                peak,
            ) && is_pitch_of_peak(peak, mapping, bin_range.0, sample_rate, result)
    }
}

/// Two results are the same outcome: the same pitch, or errors of the same
/// kind.
pub open spec fn same_outcome(one: Result<i64, PitchError>, other: Result<i64, PitchError>) -> bool {
    match (one, other) {
        (Ok(a), Ok(b)) => a == b,
        (Err(PitchError::UnexpectedError(_)), Err(PitchError::UnexpectedError(_))) => true,
        (Err(PitchError::IncorrectParameters(_)), Err(PitchError::IncorrectParameters(_))) => true,
        (Err(PitchError::NoPitchDetected(_)), Err(PitchError::NoPitchDetected(_))) => true,
        _ => false,
    }
}

/// With a single-valued fit a spectrum has one pitch, or none for one
/// reason.
pub proof fn lemma_one_pitch_of_spectrum<F: Fn(Vec<i64>, Vec<i64>) -> Fit>(
    bin_range: (usize, usize),
    spectrum: Seq<i64>,
    fit: F,
    mapping: BinMapping,
    sample_rate: u32,
    one: Result<i64, PitchError>,
    other: Result<i64, PitchError>,
)
    requires
        is_single_valued_fit(fit),
        is_pitch_of_spectrum(bin_range, spectrum, fit, mapping, sample_rate, one),
        is_pitch_of_spectrum(bin_range, spectrum, fit, mapping, sample_rate, other),
    ensures
        same_outcome(one, other),
{
    if bin_range.0 < bin_range.1 && spectrum.len() > 0 {
        let (bin1, peak1) = choose|bin: int, peak: Result<FftPoint, PitchError>|
            is_max_bin(spectrum, bin) && #[trigger] is_refined(
                spectrum,
                peak_estimate(spectrum, bin),
                fit,
                peak,
            ) && is_pitch_of_peak(peak, mapping, bin_range.0, sample_rate, one);
        let (bin2, peak2) = choose|bin: int, peak: Result<FftPoint, PitchError>|
            is_max_bin(spectrum, bin) && #[trigger] is_refined(
                spectrum,
                peak_estimate(spectrum, bin),
                fit,
                peak,
            ) && is_pitch_of_peak(peak, mapping, bin_range.0, sample_rate, other);
        lemma_max_bin_unique(spectrum, bin1, bin2);
        lemma_refined_once(spectrum, peak_estimate(spectrum, bin1), fit, peak1, peak2);
    }
}

/// Looks for the peak in the spectrum of a range of bins: takes the bin
/// where the largest magnitude first occurs and says where in its
/// neighbourhood the peak lies. A range without bins is a mistake of the
/// caller's; a spectrum that is empty though the range has bins, because
/// the buffer ends before the range begins, holds no pitch.
pub fn peak_in_range(bin_range: (usize, usize), spectrum: &[i64]) -> (result: Result<
    PeakEstimate,
    PitchError,
>)
    ensures
        bin_range.1 <= bin_range.0 ==> result is Err && result->Err_0 is IncorrectParameters,
        bin_range.0 < bin_range.1 && spectrum.len() == 0 ==> result is Err && result->Err_0
            is NoPitchDetected,
        bin_range.0 < bin_range.1 && spectrum.len() > 0 ==> result is Ok && exists|bin: int|
            is_max_bin(spectrum@, bin) && result->Ok_0 == peak_estimate(spectrum@, bin),
{
    if bin_range.1 <= bin_range.0 {
        return Err(PitchError::IncorrectParameters(String::from_str("Frequency range has no bins")));
    }
    match max_bin(spectrum) {
        None => Err(PitchError::NoPitchDetected(String::from_str("Spectrum had no elements"))),
        Some(bin) => peak_estimate_at(spectrum, bin),
    }
}

/// The pitch in a spectrum of the range of bins, which begins at bin
/// `bin_range.0`: the peak of the bin where the largest magnitude first
/// occurs, refined by `fit` where its neighbourhood has three bins or more,
/// as a frequency in millihertz by the given mapping.
pub fn detect_pitch_in_spectrum<F: Fn(Vec<i64>, Vec<i64>) -> Fit>(
    bin_range: (usize, usize),
    spectrum: &[i64],
    fit: &F,
    mapping: BinMapping,
    sample_rate: u32,
) -> (result: Result<i64, PitchError>)
    requires
        forall|x: Vec<i64>, y: Vec<i64>| #[trigger] fit.requires((x, y)),
    ensures
        is_pitch_of_spectrum(bin_range, spectrum@, *fit, mapping, sample_rate, result),
{
    match peak_in_range(bin_range, spectrum) {
        Err(e) => Err(e),
        Ok(estimate) => {
            let ghost bin = choose|bin: int|
                is_max_bin(spectrum@, bin) && estimate == peak_estimate(spectrum@, bin);
            proof {
                lemma_peak_neighborhood(spectrum@, bin);
            }
            let peak = refine(spectrum, estimate, fit);
            let result = match peak {
                Ok(point) => pitch_at(mapping, point, bin_range.0, sample_rate),
                Err(e) => Err(e),
            };
            assert(is_refined(spectrum@, peak_estimate(spectrum@, bin), *fit, peak));
            assert(is_pitch_of_peak(peak, mapping, bin_range.0, sample_rate, result));
            result
        },
    }
}

} // verus!
