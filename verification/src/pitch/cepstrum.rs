//! Pitch from the dominant peak of the power cepstrum.
use crate::common::error::PitchError;
use crate::common::fft_space::{loaded, Complex, FftSpace};
use crate::common::fixed::{clamp_i64, ratio_less, ratio_lt};
use crate::common::into_frequency_domain::{BinMapping, IntoFrequencyDomain};
use crate::common::utils::{
    is_padded_len, is_refined, is_single_valued_fit, lemma_padded_len_unique,
    lemma_peak_neighborhood, lemma_refined_once, peak_estimate, peak_estimate_at, refine, Fit,
    PeakEstimate, MAX_FFT_LEN,
};
use crate::common::{FftPoint, FrequencyBin};
use crate::note::peak_detector::{
    descending_order, is_descending_order, lemma_order_unique, PeakFinderDetector,
};
use crate::pitch::{
    is_pitch_of_peak, nearest_whole_lag, peak_frequency, pitch_at, restricted, same_outcome,
    whole_lag, PitchDetector,
};
use std::ops::Range;
use vstd::prelude::*;
use vstd::string::StringExecFns;

verus! {

/// Detects a pitch as the dominant peak of the power cepstrum, which makes
/// out a fundamental among many harmonics. The detector is made with what
/// it works with: `forward` and `inverse` give the transforms of a buffer,
/// `log_power` the logarithm of the power of a value of the spectrum,
/// `peaks` the candidate peaks of a spectrum that rise a number of
/// thousandths of a standard deviation above its mean, and `fit` fits a
/// curve to the bins around a peak.
pub struct PowerCepstrum<T, L, I, P, F> {
    fft_space: Option<FftSpace>,
    /// How many thousandths of a standard deviation a peak has to rise above
    /// the mean to be a candidate.
    sigmas: i64,
    /// How many thousandths of the next candidate's height the best
    /// candidate has to exceed to be taken for the pitch.
    prominence_threshold: i64,
    forward: T,
    log_power: L,
    inverse: I,
    peaks: P,
    fit: F,
}

/// Whether `best` over `second` exceeds the threshold, given in thousandths.
pub open spec fn is_prominent(best: int, second: int, threshold: int) -> bool {
    ratio_lt(threshold, 1000, best, second)
}

/// The range of lags that a frequency range covers; without a frequency
/// range, from lag 3 to the length of the signal.
pub open spec fn cepstrum_bin_range(signal_len: int, freq_range: Option<(Range<i64>, u32)>) -> (
    usize,
    usize,
) {
    match freq_range {
        Some((r, sample_rate)) => (
            whole_lag(r.end as int, sample_rate as int) as usize,
            whole_lag(r.start as int, sample_rate as int) as usize,
        ),
        None => (3, signal_len as usize),
    }
}

/// `spectrum` holds the squared magnitudes of the lags from `lower` up to,
/// not including, `upper`, as far as the buffer has them.
pub open spec fn is_power_spectrum(
    buffer: Seq<Complex>,
    lower: int,
    upper: int,
    spectrum: Seq<i64>,
) -> bool {
    let part = restricted(buffer, lower, upper);
    &&& spectrum.len() == part.len()
    &&& forall|i: int|
        0 <= i < spectrum.len() ==> #[trigger] spectrum[i] == clamp_i64(part[i].spec_norm_sqr())
}

/// `values` is the power cepstrum that a spectrum comes to within a range
/// of lags: each value of the spectrum is replaced by what `log_power`
/// makes of it, `inverse` transforms the result, and the squared magnitudes
/// of the lags of the range are read off. A transform that does not keep
/// the length leaves nothing.
pub open spec fn is_cepstrum_of_spectrum<L: Fn(&Complex) -> Complex, I: Fn(&[Complex]) -> Vec<Complex>>(
    spectrum: Seq<Complex>,
    log_power: L,
    inverse: I,
    bin_range: (usize, usize),
    values: Seq<i64>,
) -> bool {
    exists|log_spectrum: &[Complex], cepstrum: Vec<Complex>|
        {
            &&& log_spectrum@.len() == spectrum.len()
            &&& forall|i: int|
                0 <= i < spectrum.len() ==> log_power.ensures(
                    (&spectrum[i],),
                    #[trigger] log_spectrum@[i],
                )
            &&& #[trigger] inverse.ensures((log_spectrum,), cepstrum)
            &&& if cepstrum.len() == spectrum.len() {
                is_power_spectrum(cepstrum@, bin_range.0 as int, bin_range.1 as int, values)
            } else {
                values.len() == 0
            }
        }
}

/// What the detector makes of its candidates, listed in `order` from the
/// largest magnitude down: the first one, unless a second one comes too
/// close to it.
pub open spec fn dominant(c: Seq<FrequencyBin>, order: Seq<usize>, threshold: int) -> Option<
    FrequencyBin,
> {
    if c.len() >= 2 && !is_prominent(
        c[order[0] as int].magnitude as int,
        c[order[1] as int].magnitude as int,
        threshold,
    ) {
        None
    } else {
        Some(c[order[0] as int])
    }
}

/// `result` is the pitch that the candidates of a spectrum come to. Without
/// candidates there is nothing to choose from; a best candidate that does
/// not stand out is no pitch; and else the pitch is the frequency of the
/// refined peak of the best candidate, which has to lie in the spectrum.
pub open spec fn is_pitch_of_candidates<F: Fn(Vec<i64>, Vec<i64>) -> Fit>(
    spectrum: Seq<i64>,
    candidates: Seq<FrequencyBin>,
    threshold: int,
    fit: F,
    start_bin: usize,
    sample_rate: u32,
    result: Result<i64, PitchError>,
) -> bool {
    if candidates.len() == 0 {
        result is Err && result->Err_0 is IncorrectParameters
    } else {
        exists|order: Seq<usize>| #[trigger]
            is_descending_order(candidates, order) && is_pitch_of_dominant(
                spectrum,
                dominant(candidates, order, threshold),
                fit,
                start_bin,
                sample_rate,
                result,
            )
    }
}

/// `result` is the pitch that the dominant candidate comes to, if there is
/// one: the frequency of its refined peak, which has to lie in the
/// spectrum.
pub open spec fn is_pitch_of_dominant<F: Fn(Vec<i64>, Vec<i64>) -> Fit>(
    spectrum: Seq<i64>,
    chosen: Option<FrequencyBin>,
    fit: F,
    start_bin: usize,
    sample_rate: u32,
    result: Result<i64, PitchError>,
) -> bool {
    match chosen {
        None => result is Err && result->Err_0 is NoPitchDetected,
        Some(bin) => if bin.bin < spectrum.len() {
            exists|peak: Result<FftPoint, PitchError>| #[trigger]
                is_refined(spectrum, peak_estimate(spectrum, bin.bin as int), fit, peak)
                    && is_pitch_of_peak(
                    peak,
                    BinMapping::Reciprocal,
                    start_bin,
                    sample_rate,
                    result,
                )
        } else {
            result is Err && result->Err_0 is IncorrectParameters
        },
    }
}

/// The candidate that dominates the others: the one of the largest
/// magnitude, if it is the only one or if its magnitude over that of the
/// next exceeds the threshold, given in thousandths.
pub fn dominant_candidate(candidates: &Vec<FrequencyBin>, prominence_threshold: i64) -> (result:
    Result<FrequencyBin, PitchError>)
    ensures
        candidates.len() == 0 ==> result is Err && result->Err_0 is IncorrectParameters,
        candidates.len() > 0 ==> exists|order: Seq<usize>|
            #[trigger] is_descending_order(candidates@, order) && match dominant(
                candidates@,
                order,
                prominence_threshold as int,
            ) {
                Some(bin) => result == Ok::<FrequencyBin, PitchError>(bin),
                None => result is Err && result->Err_0 is NoPitchDetected,
            },
{
    let order = descending_order(candidates);
    if order.len() == 0 {
        return Err(
            PitchError::IncorrectParameters(
                String::from_str("Expected to have at least one bin value"),
            ),
        );
    }
    assert(order[0] < candidates.len());
    let freq_bin = candidates[order[0]];
    if order.len() >= 2 {
        assert(order[1] < candidates.len());
        let freq_bin_2 = candidates[order[1]];
        if ratio_less(
            prominence_threshold as i128,
            1000,
            freq_bin.magnitude as i128,
            freq_bin_2.magnitude as i128,
        ) {
            Ok(freq_bin)
        } else {
            Err(
                PitchError::NoPitchDetected(
                    String::from_str(
                        "Dominant pitch did not exceed threshold to be considered a pitch detection",
                    ),
                ),
            )
        }
    } else {
        Ok(freq_bin)
    }
}

/// The pitch that the candidates of a spectrum come to: the frequency in
/// millihertz of the refined peak of the candidate that dominates. The
/// spectrum begins at lag `start_bin`.
pub fn detect_pitch_of_candidates<F: Fn(Vec<i64>, Vec<i64>) -> Fit>(
    spectrum: &[i64],
    candidates: &Vec<FrequencyBin>,
    prominence_threshold: i64,
    fit: &F,
    start_bin: usize,
    sample_rate: u32,
) -> (result: Result<i64, PitchError>)
    requires
        forall|x: Vec<i64>, y: Vec<i64>| #[trigger] fit.requires((x, y)),
    ensures
        is_pitch_of_candidates(
            spectrum@,
            candidates@,
            prominence_threshold as int,
            *fit,
            start_bin,
            sample_rate,
            result,
        ),
{
    match dominant_candidate(candidates, prominence_threshold) {
        Err(e) => Err(e),
        Ok(freq_bin) => {
            let ghost order = choose|order: Seq<usize>|
                #[trigger] is_descending_order(candidates@, order) && dominant(
                    candidates@,
                    order,
                    prominence_threshold as int,
                ) == Some(freq_bin);
            match peak_estimate_at(spectrum, freq_bin.bin) {
                Err(e) => Err(e),
                Ok(estimate) => {
                    proof {
                        lemma_peak_neighborhood(spectrum@, freq_bin.bin as int);
                    }
                    let peak = refine(spectrum, estimate, fit);
                    let result = match peak {
                        Ok(point) => pitch_at(
                            BinMapping::Reciprocal,
                            point,
                            start_bin,
                            sample_rate,
                        ),
                        Err(e) => Err(e),
                    };
                    assert(is_refined(
                        spectrum@,
                        peak_estimate(spectrum@, freq_bin.bin as int),
                        *fit,
                        peak,
                    ));
                    assert(is_pitch_of_peak(
                        peak,
                        BinMapping::Reciprocal,
                        start_bin,
                        sample_rate,
                        result,
                    ));
                    result
                },
            }
        },
    }
}

impl<
    T: Fn(&[Complex]) -> Vec<Complex>,
    L: Fn(&Complex) -> Complex,
    I: Fn(&[Complex]) -> Vec<Complex>,
    P: Fn(&[i64], i64) -> Vec<FrequencyBin>,
    F: Fn(Vec<i64>, Vec<i64>) -> Fit,
> PowerCepstrum<T, L, I, P, F> {
    /// Reasonable settings: candidates six standard deviations above the
    /// mean, and a best candidate a quarter above the next.
    pub fn new_with_defaults(forward: T, log_power: L, inverse: I, peaks: P, fit: F) -> (detector:
        Self)
        requires
            forall|b: &[Complex]| #[trigger] forward.requires((b,)),
            forall|c: &Complex| #[trigger] log_power.requires((c,)),
            forall|b: &[Complex]| #[trigger] inverse.requires((b,)),
            forall|s: &[i64], k: i64| #[trigger] peaks.requires((s, k)),
            forall|x: Vec<i64>, y: Vec<i64>| #[trigger] fit.requires((x, y)),
        ensures
            detector.well_formed(),
            detector.space().is_none(),
            detector.sigmas() == 6000,
            detector.prominence_threshold() == 1250,
            detector.collaborators() == (forward, log_power, inverse, peaks, fit),
    {
        Self {
            fft_space: None,
            sigmas: 6000,
            prominence_threshold: 1250,
            forward,
            log_power,
            inverse,
            peaks,
            fit,
        }
    }

    /// A detector with the given settings, both in thousandths.
    pub fn new(
        sigmas: i64,
        prominence_threshold: i64,
        forward: T,
        log_power: L,
        inverse: I,
        peaks: P,
        fit: F,
    ) -> (detector: Self)
        requires
            forall|b: &[Complex]| #[trigger] forward.requires((b,)),
            forall|c: &Complex| #[trigger] log_power.requires((c,)),
            forall|b: &[Complex]| #[trigger] inverse.requires((b,)),
            forall|s: &[i64], k: i64| #[trigger] peaks.requires((s, k)),
            forall|x: Vec<i64>, y: Vec<i64>| #[trigger] fit.requires((x, y)),
        ensures
            detector.well_formed(),
            detector.space().is_none(),
            detector.sigmas() == sigmas,
            detector.prominence_threshold() == prominence_threshold,
            detector.collaborators() == (forward, log_power, inverse, peaks, fit),
    {
        Self { fft_space: None, sigmas, prominence_threshold, forward, log_power, inverse, peaks, fit }
    }

    /// The same detector with another number of standard deviations.
    pub fn with_sigmas(self, sigmas: i64) -> (detector: Self)
        ensures
            detector.space() == self.space(),
            detector.sigmas() == sigmas,
            detector.prominence_threshold() == self.prominence_threshold(),
            detector.collaborators() == self.collaborators(),
            self.well_formed() ==> detector.well_formed(),
    {
        Self {
            fft_space: self.fft_space,
            sigmas,
            prominence_threshold: self.prominence_threshold,
            forward: self.forward,
            log_power: self.log_power,
            inverse: self.inverse,
            peaks: self.peaks,
            fit: self.fit,
        }
    }

    /// The same detector with another prominence threshold.
    pub fn with_promince_threshold(self, prominence_threshold: i64) -> (detector: Self)
        ensures
            detector.space() == self.space(),
            detector.sigmas() == self.sigmas(),
            detector.prominence_threshold() == prominence_threshold,
            detector.collaborators() == self.collaborators(),
            self.well_formed() ==> detector.well_formed(),
    {
        Self {
            fft_space: self.fft_space,
            sigmas: self.sigmas,
            prominence_threshold,
            forward: self.forward,
            log_power: self.log_power,
            inverse: self.inverse,
            peaks: self.peaks,
            fit: self.fit,
        }
    }

    /// The buffer of the detector, once it has one.
    pub closed spec fn space(&self) -> Option<FftSpace> {
        self.fft_space
    }

    /// The threshold for candidates, in thousandths of a standard deviation.
    pub closed spec fn sigmas(&self) -> i64 {
        self.sigmas
    }

    /// The threshold for the best candidate, in thousandths.
    pub closed spec fn prominence_threshold(&self) -> i64 {
        self.prominence_threshold
    }

    /// What the detector works with: the forward transform, the logarithm
    /// of the power, the inverse transform, the search for candidate peaks,
    /// and the curve fit.
    pub closed spec fn collaborators(&self) -> (T, L, I, P, F) {
        (self.forward, self.log_power, self.inverse, self.peaks, self.fit)
    }

    /// The buffer, where there is one, is well formed, and the detector
    /// may ask anything of what it works with.
    pub open spec fn well_formed(&self) -> bool {
        &&& self.space() is Some ==> self.space()->Some_0.well_formed()
        &&& forall|b: &[Complex]| #[trigger] self.collaborators().0.requires((b,))
        &&& forall|c: &Complex| #[trigger] self.collaborators().1.requires((c,))
        &&& forall|b: &[Complex]| #[trigger] self.collaborators().2.requires((b,))
        &&& forall|s: &[i64], k: i64| #[trigger] self.collaborators().3.requires((s, k))
        &&& forall|x: Vec<i64>, y: Vec<i64>| #[trigger] self.collaborators().4.requires((x, y))
    }

    /// The length of the buffer that a signal will be loaded into: that of
    /// the buffer in place, or of a fresh one made for the signal.
    pub open spec fn length_for(&self, signal_len: int, padded_len: int) -> bool {
        match self.space() {
            Some(space) => padded_len == space@.len(),
            None => is_padded_len(signal_len, padded_len),
        }
    }

    /// `domain` is the power cepstrum of the signal within the range, by
    /// way of a buffer of `padded_len` values: the signal is loaded and
    /// transformed forward, each value is replaced by the logarithm of its
    /// power, the buffer is transformed back, and the squared magnitudes of
    /// the lags of the range are read off it. A transform that does not
    /// keep the length of the buffer leaves no spectrum.
    pub open spec fn is_cepstrum_of(
        &self,
        signal: Seq<i64>,
        freq_range: Option<(Range<i64>, u32)>,
        padded_len: int,
        domain: (usize, Seq<i64>),
    ) -> bool {
        exists|buffer: &[Complex], spectrum: Vec<Complex>|
            {
                let bin_range = cepstrum_bin_range(signal.len() as int, freq_range);
                &&& self.length_for(signal.len() as int, padded_len)
                &&& buffer@ == loaded(signal, padded_len)
                &&& #[trigger] self.collaborators().0.ensures((buffer,), spectrum)
                &&& domain.0 == bin_range.0
                &&& if spectrum.len() != padded_len {
                    domain.1.len() == 0
                } else {
                    is_cepstrum_of_spectrum(
                        spectrum@,
                        self.collaborators().1,
                        self.collaborators().2,
                        bin_range,
                        domain.1,
                    )
                }
            }
    }

    /// The detector of candidate peaks that goes with this detector.
    pub fn peak_detector(&self) -> (detector: PeakFinderDetector)
        ensures
            detector.sigmas() == self.sigmas(),
    {
        PeakFinderDetector::new(self.sigmas)
    }

    /// Prepares the buffer for the transform: makes one for the signal if
    /// the detector has none yet, and loads the signal.
    pub fn load(&mut self, signal: &[i64])
        requires
            old(self).well_formed(),
            signal.len() <= MAX_FFT_LEN,
            old(self).space() is Some ==> signal.len() <= old(self).space()->Some_0@.len(),
        ensures
            final(self).well_formed(),
            final(self).space() is Some,
            old(self).length_for(signal.len() as int, final(self).space()->Some_0@.len() as int),
            final(self).space()->Some_0@ == loaded(
                signal@,
                final(self).space()->Some_0@.len() as int,
            ),
            final(self).sigmas() == old(self).sigmas(),
            final(self).prominence_threshold() == old(self).prominence_threshold(),
            final(self).collaborators() == old(self).collaborators(),
    {
        if self.fft_space.is_none() {
            self.fft_space = Some(FftSpace::new(signal.len()));
        }
        match &mut self.fft_space {
            Some(space) => {
                space.init_with_signal(signal);
            },
            None => {},
        }
        assert(self.collaborators() == old(self).collaborators());
    }

    /// Takes over the contents of the buffer after a transform.
    pub fn store(&mut self, values: &[Complex])
        requires
            old(self).well_formed(),
            old(self).space() is Some,
            values.len() == old(self).space()->Some_0@.len(),
        ensures
            final(self).well_formed(),
            final(self).space() is Some,
            final(self).space()->Some_0@ == values@,
            final(self).sigmas() == old(self).sigmas(),
            final(self).prominence_threshold() == old(self).prominence_threshold(),
            final(self).collaborators() == old(self).collaborators(),
    {
        match &mut self.fft_space {
            Some(space) => {
                space.store(values);
            },
            None => {},
        }
        assert(self.collaborators() == old(self).collaborators());
    }

    /// Replaces each value of the buffer by the logarithm of its power.
    pub fn take_log_power(&mut self)
        requires
            old(self).well_formed(),
            old(self).space() is Some,
        ensures
            final(self).well_formed(),
            final(self).space() is Some,
            final(self).space()->Some_0@.len() == old(self).space()->Some_0@.len(),
            forall|i: int|
                0 <= i < old(self).space()->Some_0@.len() ==> old(self).collaborators().1.ensures(
                    (&old(self).space()->Some_0@[i],),
                    #[trigger] final(self).space()->Some_0@[i],
                ),
            final(self).sigmas() == old(self).sigmas(),
            final(self).prominence_threshold() == old(self).prominence_threshold(),
            final(self).collaborators() == old(self).collaborators(),
    {
        assert(self.collaborators().1 == self.log_power);
        match &mut self.fft_space {
            Some(space) => {
                space.map(&self.log_power);
            },
            None => {},
        }
        assert(self.collaborators() == old(self).collaborators());
    }

    /// The length of the buffer, once the detector has one.
    pub fn padded_len(&self) -> (len: Option<usize>)
        requires
            self.well_formed(),
        ensures
            len.is_some() == self.space().is_some(),
            len.is_some() ==> len.unwrap() == self.space()->Some_0@.len(),
    {
        match &self.fft_space {
            Some(space) => Some(space.padded_len()),
            None => None,
        }
    }

    /// The contents of the buffer.
    pub fn buffer(&self) -> (buffer: &[Complex])
        requires
            self.space() is Some,
        ensures
            buffer@ == self.space()->Some_0@,
    {
        match &self.fft_space {
            Some(space) => space.space(),
            None => &[],
        }
    }

    /// The range of lags to search: from the lag of the upper end of the
    /// frequency range to the lag of its lower end or, without a frequency
    /// range, from lag 3 to the length of the signal.
    pub fn bin_range(&self, signal_len: usize, freq_range: Option<(Range<i64>, u32)>) -> (range: (
        usize,
        usize,
    ))
        ensures
            range == cepstrum_bin_range(signal_len as int, freq_range),
    {
        match freq_range {
            Some((r, sample_rate)) => (
                nearest_whole_lag(r.end, sample_rate),
                nearest_whole_lag(r.start, sample_rate),
            ),
            None => (3, signal_len),
        }
    }

    /// The squared magnitudes of the lags in the range.
    pub fn unscaled_spectrum(&self, bin_range: (usize, usize)) -> (spectrum: Vec<i64>)
        requires
            self.space() is Some,
        ensures
            is_power_spectrum(
                self.space()->Some_0@,
                bin_range.0 as int,
                bin_range.1 as int,
                spectrum@,
            ),
    {
        let buffer = self.buffer();
        let n = buffer.len();
        let (lower_limit, upper_limit) = bin_range;
        let begin = if lower_limit < n {
            lower_limit
        } else {
            n
        };
        let end = if upper_limit < n {
            upper_limit
        } else {
            n
        };
        let mut spectrum: Vec<i64> = Vec::new();
        if begin >= end {
            return spectrum;
        }
        let ghost part = restricted(buffer@, lower_limit as int, upper_limit as int);
        let mut i: usize = begin;
        while i < end
            invariant
                begin <= i <= end <= n,
                n == buffer.len(),
                part == buffer@.subrange(begin as int, end as int),
                spectrum.len() == i - begin,
                forall|j: int|
                    0 <= j < spectrum.len() ==> #[trigger] spectrum[j] == clamp_i64(
                        part[j].spec_norm_sqr(),
                    ),
            decreases end - i,
        {
            let squared = buffer[i].norm_sqr();
            let value = if squared > i64::MAX as u128 {
                i64::MAX
            } else {
                squared as i64
            };
            spectrum.push(value);
            i = i + 1;
        }
        spectrum
    }

    /// Chooses among the candidate peaks of a spectrum and says where in its
    /// neighbourhood the chosen peak lies.
    pub fn detect_peak(&self, spectrum: &[i64], candidates: &Vec<FrequencyBin>) -> (result: Result<
        PeakEstimate,
        PitchError,
    >)
        ensures
            candidates.len() == 0 ==> result is Err && result->Err_0 is IncorrectParameters,
            candidates.len() > 0 ==> exists|order: Seq<usize>|
                #[trigger] is_descending_order(candidates@, order) && match dominant(
                    candidates@,
                    order,
                    self.prominence_threshold() as int,
                ) {
                    Some(bin) => if bin.bin < spectrum.len() {
                        result == Ok::<PeakEstimate, PitchError>(
                            peak_estimate(spectrum@, bin.bin as int),
                        )
                    } else {
                        result is Err && result->Err_0 is IncorrectParameters
                    },
                    None => result is Err && result->Err_0 is NoPitchDetected,
                },
    {
        match dominant_candidate(candidates, self.prominence_threshold) {
            Ok(freq_bin) => peak_estimate_at(spectrum, freq_bin.bin),
            Err(e) => Err(e),
        }
    }

    /// The frequency in millihertz of the peak found in a spectrum that
    /// begins at lag `start_bin`. Lag zero has no frequency.
    pub fn pitch(&self, peak: FftPoint, start_bin: usize, sample_rate: u32) -> (result: Result<
        i64,
        PitchError,
    >)
        ensures
            match peak_frequency(
                BinMapping::Reciprocal,
                peak,
                start_bin as int,
                sample_rate as int,
            ) {
                Some(freq) => result == Ok::<i64, PitchError>(freq as i64),
                None => result is Err && result->Err_0 is NoPitchDetected,
            },
    {
        pitch_at(BinMapping::Reciprocal, peak, start_bin, sample_rate)
    }
}

impl<
    T: Fn(&[Complex]) -> Vec<Complex>,
    L: Fn(&Complex) -> Complex,
    I: Fn(&[Complex]) -> Vec<Complex>,
    P: Fn(&[i64], i64) -> Vec<FrequencyBin>,
    F: Fn(Vec<i64>, Vec<i64>) -> Fit,
> IntoFrequencyDomain for PowerCepstrum<T, L, I, P, F> {
    /// A signal that fits the buffer in place, or the longest buffer where
    /// there is none yet.
    open spec fn takes(&self, signal: Seq<i64>) -> bool {
        &&& self.well_formed()
        &&& signal.len() <= MAX_FFT_LEN
        &&& self.space() is Some ==> signal.len() <= self.space()->Some_0@.len()
    }

    /// The power cepstrum of the signal within the range.
    open spec fn is_domain_of(
        &self,
        signal: Seq<i64>,
        freq_range: Option<(Range<i64>, u32)>,
        domain: (usize, Seq<i64>),
    ) -> bool {
        exists|padded_len: int| #[trigger] self.is_cepstrum_of(signal, freq_range, padded_len, domain)
    }

    /// Reciprocal, whatever the buffer.
    open spec fn spec_mapping(&self) -> Option<BinMapping> {
        Some(BinMapping::Reciprocal)
    }

    fn into_frequency_domain(
        &mut self,
        signal: &[i64],
        freq_range: Option<(Range<i64>, u32)>,
    ) -> (domain: (usize, Vec<i64>))
        ensures
            final(self).well_formed(),
            final(self).space() is Some,
            final(self).sigmas() == old(self).sigmas(),
            final(self).prominence_threshold() == old(self).prominence_threshold(),
            final(self).collaborators() == old(self).collaborators(),
            final(self).takes(signal@),
            old(self).length_for(signal.len() as int, final(self).space()->Some_0@.len() as int),
            old(self).is_cepstrum_of(
                signal@,
                freq_range,
                final(self).space()->Some_0@.len() as int,
                (domain.0, domain.1@),
            ),
    {
        self.load(signal);
        let bin_range = self.bin_range(signal.len(), freq_range);
        let buffer = self.buffer();
        let ghost loaded_buffer: &[Complex] = buffer;
        let padded_len = buffer.len();
        assert(self.collaborators().0 == self.forward);
        let spectrum = (self.forward)(buffer);
        if spectrum.len() != padded_len {
            let domain = (bin_range.0, Vec::new());
            proof {
                assert(old(self).collaborators().0.ensures((loaded_buffer,), spectrum));
                assert(old(self).is_cepstrum_of(
                    signal@,
                    freq_range,
                    padded_len as int,
                    (domain.0, domain.1@),
                ));
            }
            return domain;
        }
        self.store(spectrum.as_slice());
        self.take_log_power();
        let buffer = self.buffer();
        let ghost log_spectrum: &[Complex] = buffer;
        assert(self.collaborators().2 == self.inverse);
        let cepstrum = (self.inverse)(buffer);
        let domain = if cepstrum.len() == padded_len {
            self.store(cepstrum.as_slice());
            (bin_range.0, self.unscaled_spectrum(bin_range))
        } else {
            (bin_range.0, Vec::new())
        };
        proof {
            assert(old(self).collaborators().0.ensures((loaded_buffer,), spectrum));
            assert(old(self).collaborators().2.ensures((log_spectrum,), cepstrum));
            assert(is_cepstrum_of_spectrum(
                spectrum@,
                old(self).collaborators().1,
                old(self).collaborators().2,
                bin_range,
                domain.1@,
            ));
            assert(old(self).is_cepstrum_of(
                signal@,
                freq_range,
                padded_len as int,
                (domain.0, domain.1@),
            ));
        }
        domain
    }

    fn mapping(&self) -> (mapping: BinMapping) {
        BinMapping::Reciprocal
    }

    fn name(&self) -> (name: &'static str)
        ensures
            name@ == "power"@,
    {
        "power"
    }
}

impl<
    T: Fn(&[Complex]) -> Vec<Complex>,
    L: Fn(&Complex) -> Complex,
    I: Fn(&[Complex]) -> Vec<Complex>,
    P: Fn(&[i64], i64) -> Vec<FrequencyBin>,
    F: Fn(Vec<i64>, Vec<i64>) -> Fit,
> PitchDetector for PowerCepstrum<T, L, I, P, F> {
    /// A signal that fits the buffer.
    open spec fn accepts(&self, signal: Seq<i64>, sample_rate: u32, freq_range: Range<i64>) -> bool {
        self.takes(signal)
    }

    /// The pitch that the candidate peaks of the power cepstrum of the
    /// signal within the range come to.
    open spec fn detects(
        &self,
        signal: Seq<i64>,
        sample_rate: u32,
        freq_range: Range<i64>,
        result: Result<i64, PitchError>,
    ) -> bool {
        exists|
            padded_len: int,
            domain: (usize, Seq<i64>),
            spectrum: &[i64],
            candidates: Vec<FrequencyBin>,
        |
            #[trigger] self.is_cepstrum_of(
                signal,
                Some((freq_range, sample_rate)),
                padded_len,
                domain,
            ) && spectrum@ == domain.1 && #[trigger] self.collaborators().3.ensures(
                (spectrum, self.sigmas()),
                candidates,
            ) && is_pitch_of_candidates(
                domain.1,
                candidates@,
                self.prominence_threshold() as int,
                self.collaborators().4,
                domain.0,
                sample_rate,
                result,
            )
    }

    fn detect_pitch_in_range(
        &mut self,
        signal: &[i64],
        sample_rate: u32,
        freq_range: Range<i64>,
    ) -> (result: Result<i64, PitchError>)
        ensures
            final(self).well_formed(),
            final(self).space() is Some,
            final(self).sigmas() == old(self).sigmas(),
            final(self).prominence_threshold() == old(self).prominence_threshold(),
            final(self).collaborators() == old(self).collaborators(),
            final(self).accepts(signal@, sample_rate, freq_range),
            old(self).length_for(signal.len() as int, final(self).space()->Some_0@.len() as int),
    {
        let (start_bin, spectrum) = self.into_frequency_domain(
            signal,
            Some((freq_range, sample_rate)),
        );
        assert(self.collaborators().3 == self.peaks);
        assert(self.collaborators().4 == self.fit);
        let values = spectrum.as_slice();
        let ghost searched: &[i64] = values;
        let candidates = (self.peaks)(values, self.sigmas);
        let result = detect_pitch_of_candidates(
            values,
            &candidates,
            self.prominence_threshold,
            &self.fit,
            start_bin,
            sample_rate,
        );
        proof {
            let padded_len = self.space()->Some_0@.len() as int;
            assert(old(self).is_cepstrum_of(
                signal@,
                Some((freq_range, sample_rate)),
                padded_len,
                (start_bin, spectrum@),
            ));
            assert(old(self).collaborators().3.ensures(
                (searched, old(self).sigmas()),
                candidates,
            ));
        }
        result
    }
}

/// A well-formed detector accepts every signal that a buffer can hold and
/// that fits the buffer in place, if there is one, with any sample rate and
/// any range; and it takes such a signal into the frequency domain.
pub proof fn lemma_power_cepstrum_accepts<
    T: Fn(&[Complex]) -> Vec<Complex>,
    L: Fn(&Complex) -> Complex,
    I: Fn(&[Complex]) -> Vec<Complex>,
    P: Fn(&[i64], i64) -> Vec<FrequencyBin>,
    F: Fn(Vec<i64>, Vec<i64>) -> Fit,
>(
    detector: &PowerCepstrum<T, L, I, P, F>,
    signal: Seq<i64>,
    sample_rate: u32,
    freq_range: Range<i64>,
)
    requires
        detector.well_formed(),
        signal.len() <= MAX_FFT_LEN,
        detector.space() is Some ==> signal.len() <= detector.space()->Some_0@.len(),
    ensures
        detector.takes(signal),
        detector.accepts(signal, sample_rate, freq_range),
{
}

/// What a detector finds does not depend on what its buffer has held. Let
/// `reused` be a detector as a run on a signal of some length leaves
/// `fresh`: with the same settings and collaborators and with the buffer
/// that `fresh` would load such a signal into. Then in every signal of
/// that length, with any sample rate and any range, `reused` detects what
/// `fresh` detects.
pub proof fn lemma_power_cepstrum_reused_detects_the_same<
    T: Fn(&[Complex]) -> Vec<Complex>,
    L: Fn(&Complex) -> Complex,
    I: Fn(&[Complex]) -> Vec<Complex>,
    P: Fn(&[i64], i64) -> Vec<FrequencyBin>,
    F: Fn(Vec<i64>, Vec<i64>) -> Fit,
>(
    fresh: &PowerCepstrum<T, L, I, P, F>,
    reused: &PowerCepstrum<T, L, I, P, F>,
    signal: Seq<i64>,
    sample_rate: u32,
    freq_range: Range<i64>,
    result: Result<i64, PitchError>,
)
    requires
        reused.collaborators() == fresh.collaborators(),
        reused.sigmas() == fresh.sigmas(),
        reused.prominence_threshold() == fresh.prominence_threshold(),
        reused.space() is Some,
        fresh.length_for(signal.len() as int, reused.space()->Some_0@.len() as int),
    ensures
        reused.detects(signal, sample_rate, freq_range, result) == fresh.detects(
            signal,
            sample_rate,
            freq_range,
            result,
        ),
{
    let range = Some((freq_range, sample_rate));
    let len = reused.space()->Some_0@.len() as int;
    assert forall|padded_len: int| #[trigger]
        fresh.length_for(signal.len() as int, padded_len) implies padded_len == len by {
        if fresh.space() is None {
            lemma_padded_len_unique(signal.len() as int, padded_len, len);
        }
    }
    assert forall|padded_len: int, domain: (usize, Seq<i64>)| #[trigger]
        fresh.is_cepstrum_of(signal, range, padded_len, domain) implies reused.is_cepstrum_of(
        signal,
        range,
        padded_len,
        domain,
    ) by {
        assert(fresh.length_for(signal.len() as int, padded_len));
        assert(reused.length_for(signal.len() as int, padded_len));
    }
    assert forall|padded_len: int, domain: (usize, Seq<i64>)| #[trigger]
        reused.is_cepstrum_of(signal, range, padded_len, domain) implies fresh.is_cepstrum_of(
        signal,
        range,
        padded_len,
        domain,
    ) by {
        assert(reused.length_for(signal.len() as int, padded_len));
        assert(fresh.length_for(signal.len() as int, padded_len));
    }
}

/// With a single-valued fit the candidates of a spectrum come to one
/// pitch, or to none for one reason.
pub proof fn lemma_one_pitch_of_candidates<F: Fn(Vec<i64>, Vec<i64>) -> Fit>(
    spectrum: Seq<i64>,
    candidates: Seq<FrequencyBin>,
    threshold: int,
    fit: F,
    start_bin: usize,
    sample_rate: u32,
    one: Result<i64, PitchError>,
    other: Result<i64, PitchError>,
)
    requires
        is_single_valued_fit(fit),
        is_pitch_of_candidates(spectrum, candidates, threshold, fit, start_bin, sample_rate, one),
        is_pitch_of_candidates(spectrum, candidates, threshold, fit, start_bin, sample_rate, other),
    ensures
        same_outcome(one, other),
{
    if candidates.len() > 0 {
        let o1 = choose|order: Seq<usize>| #[trigger]
            is_descending_order(candidates, order) && is_pitch_of_dominant(
                spectrum,
                dominant(candidates, order, threshold),
                fit,
                start_bin,
                sample_rate,
                one,
            );
        let o2 = choose|order: Seq<usize>| #[trigger]
            is_descending_order(candidates, order) && is_pitch_of_dominant(
                spectrum,
                dominant(candidates, order, threshold),
                fit,
                start_bin,
                sample_rate,
                other,
            );
        lemma_order_unique(candidates, o1, o2);
        match dominant(candidates, o1, threshold) {
            Some(bin) => {
                if bin.bin < spectrum.len() {
                    let estimate = peak_estimate(spectrum, bin.bin as int);
                    let peak_one = choose|peak: Result<FftPoint, PitchError>| #[trigger]
                        is_refined(spectrum, estimate, fit, peak) && is_pitch_of_peak(
                            peak,
                            BinMapping::Reciprocal,
                            start_bin,
                            sample_rate,
                            one,
                        );
                    let peak_two = choose|peak: Result<FftPoint, PitchError>| #[trigger]
                        is_refined(spectrum, estimate, fit, peak) && is_pitch_of_peak(
                            peak,
                            BinMapping::Reciprocal,
                            start_bin,
                            sample_rate,
                            other,
                        );
                    lemma_refined_once(spectrum, estimate, fit, peak_one, peak_two);
                }
            },
            None => {},
        }
    }
}

/// The collaborators of a detector are single-valued: each has one answer
/// for the same question.
pub open spec fn is_single_valued<
    T: Fn(&[Complex]) -> Vec<Complex>,
    L: Fn(&Complex) -> Complex,
    I: Fn(&[Complex]) -> Vec<Complex>,
    P: Fn(&[i64], i64) -> Vec<FrequencyBin>,
    F: Fn(Vec<i64>, Vec<i64>) -> Fit,
>(collaborators: (T, L, I, P, F)) -> bool {
    &&& forall|b1: &[Complex], v1: Vec<Complex>, b2: &[Complex], v2: Vec<Complex>| #[trigger]
        collaborators.0.ensures((b1,), v1) && #[trigger] collaborators.0.ensures((b2,), v2) && b1@
            == b2@ ==> v1@ == v2@
    &&& forall|c1: &Complex, l1: Complex, c2: &Complex, l2: Complex| #[trigger]
        collaborators.1.ensures((c1,), l1) && #[trigger] collaborators.1.ensures((c2,), l2) && *c1
            == *c2 ==> l1 == l2
    &&& forall|b1: &[Complex], v1: Vec<Complex>, b2: &[Complex], v2: Vec<Complex>| #[trigger]
        collaborators.2.ensures((b1,), v1) && #[trigger] collaborators.2.ensures((b2,), v2) && b1@
            == b2@ ==> v1@ == v2@
    &&& forall|s1: &[i64], k: i64, f1: Vec<FrequencyBin>, s2: &[i64], f2: Vec<FrequencyBin>|
     #[trigger]
        collaborators.3.ensures((s1, k), f1) && #[trigger] collaborators.3.ensures((s2, k), f2)
            && s1@ == s2@ ==> f1@ == f2@
    &&& is_single_valued_fit(collaborators.4)
}

/// With single-valued collaborators a signal has one power cepstrum.
pub proof fn lemma_power_cepstrum_one_cepstrum<
    T: Fn(&[Complex]) -> Vec<Complex>,
    L: Fn(&Complex) -> Complex,
    I: Fn(&[Complex]) -> Vec<Complex>,
    P: Fn(&[i64], i64) -> Vec<FrequencyBin>,
    F: Fn(Vec<i64>, Vec<i64>) -> Fit,
>(
    detector: &PowerCepstrum<T, L, I, P, F>,
    signal: Seq<i64>,
    freq_range: Option<(Range<i64>, u32)>,
    padded_len: int,
    one: (usize, Seq<i64>),
    other: (usize, Seq<i64>),
)
    requires
        is_single_valued(detector.collaborators()),
        detector.is_cepstrum_of(signal, freq_range, padded_len, one),
        detector.is_cepstrum_of(signal, freq_range, padded_len, other),
    ensures
        one == other,
{
    let bin_range = cepstrum_bin_range(signal.len() as int, freq_range);
    let (b1, s1) = choose|buffer: &[Complex], spectrum: Vec<Complex>|
        {
            &&& buffer@ == loaded(signal, padded_len)
            &&& #[trigger] detector.collaborators().0.ensures((buffer,), spectrum)
            &&& one.0 == bin_range.0
            &&& if spectrum.len() != padded_len {
                one.1.len() == 0
            } else {
                is_cepstrum_of_spectrum(
                    spectrum@,
                    detector.collaborators().1,
                    detector.collaborators().2,
                    bin_range,
                    one.1,
                )
            }
        };
    let (b2, s2) = choose|buffer: &[Complex], spectrum: Vec<Complex>|
        {
            &&& buffer@ == loaded(signal, padded_len)
            &&& #[trigger] detector.collaborators().0.ensures((buffer,), spectrum)
            &&& other.0 == bin_range.0
            &&& if spectrum.len() != padded_len {
                other.1.len() == 0
            } else {
                is_cepstrum_of_spectrum(
                    spectrum@,
                    detector.collaborators().1,
                    detector.collaborators().2,
                    bin_range,
                    other.1,
                )
            }
        };
    assert(s1@ == s2@);
    if s1.len() == padded_len {
        lemma_one_cepstrum_of_spectrum(
            s1@,
            detector.collaborators().1,
            detector.collaborators().2,
            bin_range,
            one.1,
            other.1,
        );
    }
    assert(one.1 =~= other.1);
}

/// With a single-valued logarithm and inverse transform a spectrum comes
/// to one power cepstrum.
pub proof fn lemma_one_cepstrum_of_spectrum<
    L: Fn(&Complex) -> Complex,
    I: Fn(&[Complex]) -> Vec<Complex>,
>(
    spectrum: Seq<Complex>,
    log_power: L,
    inverse: I,
    bin_range: (usize, usize),
    one: Seq<i64>,
    other: Seq<i64>,
)
    requires
        forall|c1: &Complex, l1: Complex, c2: &Complex, l2: Complex| #[trigger]
            log_power.ensures((c1,), l1) && #[trigger] log_power.ensures((c2,), l2) && *c1 == *c2
                ==> l1 == l2,
        forall|b1: &[Complex], v1: Vec<Complex>, b2: &[Complex], v2: Vec<Complex>| #[trigger]
            inverse.ensures((b1,), v1) && #[trigger] inverse.ensures((b2,), v2) && b1@ == b2@
                ==> v1@ == v2@,
        is_cepstrum_of_spectrum(spectrum, log_power, inverse, bin_range, one),
        is_cepstrum_of_spectrum(spectrum, log_power, inverse, bin_range, other),
    ensures
        one == other,
{
    let (l1, c1) = choose|log_spectrum: &[Complex], cepstrum: Vec<Complex>|
        {
            &&& log_spectrum@.len() == spectrum.len()
            &&& forall|i: int|
                0 <= i < spectrum.len() ==> log_power.ensures(
                    (&spectrum[i],),
                    #[trigger] log_spectrum@[i],
                )
            &&& #[trigger] inverse.ensures((log_spectrum,), cepstrum)
            &&& if cepstrum.len() == spectrum.len() {
                is_power_spectrum(cepstrum@, bin_range.0 as int, bin_range.1 as int, one)
            } else {
                one.len() == 0
            }
        };
    let (l2, c2) = choose|log_spectrum: &[Complex], cepstrum: Vec<Complex>|
        {
            &&& log_spectrum@.len() == spectrum.len()
            &&& forall|i: int|
                0 <= i < spectrum.len() ==> log_power.ensures(
                    (&spectrum[i],),
                    #[trigger] log_spectrum@[i],
                )
            &&& #[trigger] inverse.ensures((log_spectrum,), cepstrum)
            &&& if cepstrum.len() == spectrum.len() {
                is_power_spectrum(cepstrum@, bin_range.0 as int, bin_range.1 as int, other)
            } else {
                other.len() == 0
            }
        };
    assert forall|i: int| 0 <= i < spectrum.len() implies l1@[i] == l2@[i] by {
        assert(log_power.ensures((&spectrum[i],), l1@[i]));
        assert(log_power.ensures((&spectrum[i],), l2@[i]));
    }
    assert(l1@ =~= l2@);
    assert(c1@ == c2@);
    assert(one =~= other);
}

/// Detection is repeatable. Let `reused` be a detector as a run on a
/// signal of some length leaves `fresh`, and let their collaborators be
/// single-valued. Then what `reused` detects in a signal of that length is
/// what `fresh` detects in it: the same pitch, or an error of the same
/// kind.
pub proof fn lemma_power_cepstrum_detection_repeats<
    T: Fn(&[Complex]) -> Vec<Complex>,
    L: Fn(&Complex) -> Complex,
    I: Fn(&[Complex]) -> Vec<Complex>,
    P: Fn(&[i64], i64) -> Vec<FrequencyBin>,
    F: Fn(Vec<i64>, Vec<i64>) -> Fit,
>(
    fresh: &PowerCepstrum<T, L, I, P, F>,
    reused: &PowerCepstrum<T, L, I, P, F>,
    signal: Seq<i64>,
    sample_rate: u32,
    freq_range: Range<i64>,
    first: Result<i64, PitchError>,
    second: Result<i64, PitchError>,
)
    requires
        is_single_valued(fresh.collaborators()),
        reused.collaborators() == fresh.collaborators(),
        reused.sigmas() == fresh.sigmas(),
        reused.prominence_threshold() == fresh.prominence_threshold(),
        reused.space() is Some,
        fresh.length_for(signal.len() as int, reused.space()->Some_0@.len() as int),
        fresh.detects(signal, sample_rate, freq_range, first),
        reused.detects(signal, sample_rate, freq_range, second),
    ensures
        same_outcome(first, second),
{
    lemma_power_cepstrum_reused_detects_the_same(
        fresh,
        reused,
        signal,
        sample_rate,
        freq_range,
        second,
    );
    let range = Some((freq_range, sample_rate));
    let len = reused.space()->Some_0@.len() as int;
    let (len_one, d1, s1, c1) = choose|
        padded_len: int,
        domain: (usize, Seq<i64>),
        spectrum: &[i64],
        candidates: Vec<FrequencyBin>,
    |
        #[trigger] fresh.is_cepstrum_of(signal, range, padded_len, domain) && spectrum@ == domain.1
            && #[trigger] fresh.collaborators().3.ensures((spectrum, fresh.sigmas()), candidates)
            && is_pitch_of_candidates(
            domain.1,
            candidates@,
            fresh.prominence_threshold() as int,
            fresh.collaborators().4,
            domain.0,
            sample_rate,
            first,
        );
    let (len_two, d2, s2, c2) = choose|
        padded_len: int,
        domain: (usize, Seq<i64>),
        spectrum: &[i64],
        candidates: Vec<FrequencyBin>,
    |
        #[trigger] fresh.is_cepstrum_of(signal, range, padded_len, domain) && spectrum@ == domain.1
            && #[trigger] fresh.collaborators().3.ensures((spectrum, fresh.sigmas()), candidates)
            && is_pitch_of_candidates(
            domain.1,
            candidates@,
            fresh.prominence_threshold() as int,
            fresh.collaborators().4,
            domain.0,
            sample_rate,
            second,
        );
    assert(fresh.length_for(signal.len() as int, len_one));
    assert(fresh.length_for(signal.len() as int, len_two));
    if fresh.space() is None {
        lemma_padded_len_unique(signal.len() as int, len_one, len);
        lemma_padded_len_unique(signal.len() as int, len_two, len);
    }
    lemma_power_cepstrum_one_cepstrum(fresh, signal, range, len_one, d1, d2);
    assert(s1@ == s2@);
    assert(c1@ == c2@);
    lemma_one_pitch_of_candidates(
        d1.1,
        c1@,
        fresh.prominence_threshold() as int,
        fresh.collaborators().4,
        d1.0,
        sample_rate,
        first,
        second,
    );
}

} // verus!
