//! Pitch from the largest peak of the windowed magnitude spectrum.
use crate::common::error::PitchError;
use crate::common::fft_space::{
    is_sqrt_floor, lemma_well_formed_len, loaded, sqrt_floor, windowed, Complex, FftSpace,
};
use crate::common::into_frequency_domain::{BinMapping, IntoFrequencyDomain};
use crate::common::utils::{
    is_padded_len, is_single_valued_fit, lemma_padded_len_unique, Fit, MAX_FFT_LEN,
};
use crate::common::FftPoint;
use crate::pitch::{
    detect_pitch_in_spectrum, is_pitch_of_spectrum, lemma_one_pitch_of_spectrum, nearest_whole_bin,
    peak_frequency, pitch_at, restricted, same_outcome, whole_bin, PitchDetector,
};
use std::ops::Range;
use vstd::prelude::*;

verus! {

/// The denominator of the coefficients of a window.
pub const WINDOW_SCALE: i64 = 0x4000_0000;

/// Detects a pitch as the strongest bin of the magnitude spectrum of the
/// windowed signal. The detector is made with what it works with: `window`
/// gives the coefficients of a window of a given length, as multiples of
/// `1 / WINDOW_SCALE`; `transform` gives the forward transform of a buffer;
/// `fit` fits a curve to the bins around a peak.
pub struct HannedFftDetector<W, T, F> {
    fft_space: Option<FftSpace>,
    window: W,
    transform: T,
    fit: F,
}

/// Another name of the detector.
pub type RawFftDetector<W, T, F> = HannedFftDetector<W, T, F>;

/// `value` is the magnitude of `c` over the square root of `padded_len`,
/// rounded down.
pub open spec fn is_magnitude(c: Complex, padded_len: int, value: int) -> bool {
    is_sqrt_floor(c.spec_norm_sqr() / padded_len, value)
}

/// `spectrum` holds the magnitudes of the bins from `lower` up to, not
/// including, `upper`, as far as the buffer has them.
pub open spec fn is_magnitude_spectrum(
    buffer: Seq<Complex>,
    lower: int,
    upper: int,
    spectrum: Seq<i64>,
) -> bool {
    let part = restricted(buffer, lower, upper);
    &&& spectrum.len() == part.len()
    &&& forall|i: int|
        0 <= i < spectrum.len() ==> is_magnitude(
            part[i],
            buffer.len() as int,
            #[trigger] spectrum[i] as int,
        )
}

/// The range of bins that a frequency range covers in a transform of
/// `padded_len` points; without a frequency range, the first half of the
/// signal's length.
pub open spec fn hanned_bin_range(
    padded_len: int,
    signal_len: int,
    freq_range: Option<(Range<i64>, u32)>,
) -> (usize, usize) {
    match freq_range {
        Some((r, sample_rate)) => (
            whole_bin(r.start as int, sample_rate as int, padded_len) as usize,
            whole_bin(r.end as int, sample_rate as int, padded_len) as usize,
        ),
        None => (0, (signal_len / 2) as usize),
    }
}

impl<W: Fn(usize) -> Vec<i64>, T: Fn(&[Complex]) -> Vec<Complex>, F: Fn(Vec<i64>, Vec<i64>) -> Fit>
    HannedFftDetector<W, T, F> {
    /// The buffer of the detector, once it has one.
    pub closed spec fn space(&self) -> Option<FftSpace> {
        self.fft_space
    }

    /// What gives the coefficients of the window.
    pub closed spec fn window(&self) -> W {
        self.window
    }

    /// What transforms the buffer.
    pub closed spec fn transform(&self) -> T {
        self.transform
    }

    /// What fits a curve to the bins around a peak.
    pub closed spec fn fit(&self) -> F {
        self.fit
    }

    /// The buffer, where there is one, is well formed, and the detector
    /// may ask for any window, any transform and any fit.
    pub open spec fn well_formed(&self) -> bool {
        &&& self.space() is Some ==> self.space()->Some_0.well_formed()
        &&& forall|n: usize| #[trigger] self.window().requires((n,))
        &&& forall|b: &[Complex]| #[trigger] self.transform().requires((b,))
        &&& forall|x: Vec<i64>, y: Vec<i64>| #[trigger] self.fit().requires((x, y))
    }

    /// The length of the buffer that a signal will be loaded into: that of
    /// the buffer in place, or of a fresh one made for the signal.
    pub open spec fn length_for(&self, signal_len: int, padded_len: int) -> bool {
        match self.space() {
            Some(space) => padded_len == space@.len(),
            None => is_padded_len(signal_len, padded_len),
        }
    }

    /// The length of the window: that of the signal that the buffer was
    /// made for.
    pub open spec fn window_len(&self, signal_len: int) -> int {
        match self.space() {
            Some(space) => space.spec_signal_len(),
            None => signal_len,
        }
    }

    /// `domain` is the magnitude spectrum of the signal within the range,
    /// by way of a buffer of `padded_len` values: the signal is loaded and
    /// windowed with the coefficients that `window` gives, and the
    /// magnitudes are those of what `transform` makes of the buffer. A
    /// transform that does not keep the length of the buffer leaves no
    /// spectrum.
    pub open spec fn is_spectrum_of(
        &self,
        signal: Seq<i64>,
        freq_range: Option<(Range<i64>, u32)>,
        padded_len: int,
        domain: (usize, Seq<i64>),
    ) -> bool {
        exists|coefficients: Vec<i64>, buffer: &[Complex], values: Vec<Complex>|
            {
                let bin_range = hanned_bin_range(padded_len, signal.len() as int, freq_range);
                &&& self.length_for(signal.len() as int, padded_len)
                &&& #[trigger] self.window().ensures(
                    (self.window_len(signal.len() as int) as usize,),
                    coefficients,
                )
                &&& buffer@ == windowed(
                    loaded(signal, padded_len),
                    coefficients@,
                    WINDOW_SCALE as int,
                )
                &&& #[trigger] self.transform().ensures((buffer,), values)
                &&& domain.0 == bin_range.0
                &&& if values.len() == padded_len {
                    is_magnitude_spectrum(
                        values@,
                        bin_range.0 as int,
                        bin_range.1 as int,
                        domain.1,
                    )
                } else {
                    domain.1.len() == 0
                }
            }
    }

    /// A detector without a buffer yet, with what it works with.
    pub fn new(window: W, transform: T, fit: F) -> (detector: Self)
        requires
            forall|n: usize| #[trigger] window.requires((n,)),
            forall|b: &[Complex]| #[trigger] transform.requires((b,)),
            forall|x: Vec<i64>, y: Vec<i64>| #[trigger] fit.requires((x, y)),
        ensures
            detector.well_formed(),
            detector.space().is_none(),
            detector.window() == window,
            detector.transform() == transform,
            detector.fit() == fit,
    {
        HannedFftDetector { fft_space: None, window, transform, fit }
    }

    /// Prepares the buffer for the transform: makes one for the signal if
    /// the detector has none yet, loads the signal and applies the window,
    /// whose coefficients are given as multiples of `1 / window_scale`.
    pub fn load(&mut self, signal: &[i64], window: &[i64], window_scale: i64)
        requires
            old(self).well_formed(),
            signal.len() <= MAX_FFT_LEN,
            old(self).space() is Some ==> signal.len() <= old(self).space()->Some_0@.len(),
            window_scale > 0,
        ensures
            final(self).well_formed(),
            final(self).space() is Some,
            final(self).window() == old(self).window(),
            final(self).transform() == old(self).transform(),
            final(self).fit() == old(self).fit(),
            old(self).length_for(signal.len() as int, final(self).space()->Some_0@.len() as int),
            final(self).window_len(signal.len() as int) == old(self).window_len(
                signal.len() as int,
            ),
            final(self).space()->Some_0@ == windowed(
                loaded(signal@, final(self).space()->Some_0@.len() as int),
                window@,
                window_scale as int,
            ),
    {
        if self.fft_space.is_none() {
            self.fft_space = Some(FftSpace::new(signal.len()));
        }
        match &mut self.fft_space {
            Some(space) => {
                space.init_with_signal(signal);
                space.apply_window(window, window_scale);
            },
            None => {},
        }        assert(self.window() == old(self).window() && self.transform() == old(self).transform()
            && self.fit() == old(self).fit());
    }

    /// Takes over the contents of the buffer after the transform.
    pub fn store(&mut self, values: &[Complex])
        requires
            old(self).well_formed(),
            old(self).space() is Some,
            values.len() == old(self).space()->Some_0@.len(),
        ensures
            final(self).well_formed(),
            final(self).space() is Some,
            final(self).window() == old(self).window(),
            final(self).transform() == old(self).transform(),
            final(self).fit() == old(self).fit(),
            final(self).space()->Some_0@ == values@,
            final(self).space()->Some_0.spec_signal_len() == old(
                self,
            ).space()->Some_0.spec_signal_len(),
    {
        match &mut self.fft_space {
            Some(space) => {
                space.store(values);
            },
            None => {},
        }
        assert(self.window() == old(self).window() && self.transform() == old(self).transform()
            && self.fit() == old(self).fit());
    }

    /// The length of the buffer, once the detector has one.
    pub fn padded_len(&self) -> (len: Option<usize>)
        requires
            self.well_formed(),
        ensures
            len.is_some() == self.space().is_some(),
            len.is_some() ==> len.unwrap() == self.space()->Some_0@.len(),
    {
        match &self.fft_space {
            Some(space) => Some(space.padded_len()),
            None => None,
        }
    }

    /// The contents of the buffer.
    pub fn buffer(&self) -> (buffer: &[Complex])
        requires
            self.space() is Some,
        ensures
            buffer@ == self.space()->Some_0@,
    {
        match &self.fft_space {
            Some(space) => space.space(),
            None => &[],
        }
    }

    /// The range of bins to search: the bins nearest to the ends of the
    /// frequency range or, without one, the first half of the signal's
    /// length, which is conventionally the only important part.
    pub fn bin_range(&self, signal_len: usize, freq_range: Option<(Range<i64>, u32)>) -> (range: (
        usize,
        usize,
    ))
        requires
            self.well_formed(),
            self.space() is Some,
        ensures
            range == hanned_bin_range(
                self.space()->Some_0@.len() as int,
                signal_len as int,
                freq_range,
            ),
    {
        match freq_range {
            Some((r, sample_rate)) => {
                let padded_len = match &self.fft_space {
                    Some(space) => space.padded_len(),
                    None => 0,
                };
                (
                    nearest_whole_bin(r.start, sample_rate, padded_len),
                    nearest_whole_bin(r.end, sample_rate, padded_len),
                )
            },
            None => (0, signal_len / 2),
        }
    }

    /// The magnitudes of the bins in the range, each over the square root of
    /// the buffer's length.
    pub fn unscaled_spectrum(&self, bin_range: (usize, usize)) -> (spectrum: Vec<i64>)
        requires
            self.well_formed(),
            self.space() is Some,
        ensures
            is_magnitude_spectrum(
                self.space()->Some_0@,
                bin_range.0 as int,
                bin_range.1 as int,
                spectrum@,
            ),
    {
        let buffer = self.buffer();
        let n = buffer.len();
        proof {
            lemma_well_formed_len(&self.space()->Some_0);
        }
        let (lower_limit, upper_limit) = bin_range;
        let begin = if lower_limit < n {
            lower_limit
        } else {
            n
        };
        let end = if upper_limit < n {
            upper_limit
        } else {
            n
        };
        let mut spectrum: Vec<i64> = Vec::new();
        if begin >= end {
            return spectrum;
        }
        let ghost part = restricted(buffer@, lower_limit as int, upper_limit as int);
        let mut i: usize = begin;
        while i < end
            invariant
                begin <= i <= end <= n,
                n == buffer.len(),
                n >= 1024,
                part == buffer@.subrange(begin as int, end as int),
                spectrum.len() == i - begin,
                forall|j: int|
                    0 <= j < spectrum.len() ==> is_magnitude(
                        part[j],
                        n as int,
                        #[trigger] spectrum[j] as int,
                    ),
            decreases end - i,
        {
            let squared = buffer[i].norm_sqr();
            let power = squared / (n as u128);
            proof {
                vstd::arithmetic::div_mod::lemma_div_is_ordered_by_denominator(
                    squared as int,
                    4,
                    n as int,
                );
            }
            let root = sqrt_floor(power);
            assert(root < 0x8000_0000_0000_0000) by (nonlinear_arith)
                requires
                    root * root <= power,
                    power < 0x4000_0000_0000_0000_0000_0000_0000_0000,
                    root >= 0,
            ;
            spectrum.push(root as i64);
            i = i + 1;
        }
        spectrum
    }

    /// The frequency in millihertz of the peak found in a spectrum that
    /// begins at bin `start_bin`.
    pub fn pitch(&self, peak: FftPoint, start_bin: usize, sample_rate: u32) -> (result: Result<
        i64,
        PitchError,
    >)
        requires
            self.well_formed(),
            self.space() is Some,
        ensures
            result is Ok,
            Some(result->Ok_0 as int) == peak_frequency(
                BinMapping::Linear { padded_len: self.space()->Some_0@.len() as usize },
                peak,
                start_bin as int,
                sample_rate as int,
            ),
    {
        proof {
            lemma_well_formed_len(&self.space()->Some_0);
        }
        pitch_at(self.mapping(), peak, start_bin, sample_rate)
    }

    /// The pitch in a spectrum of the range of bins, which begins at bin
    /// `bin_range.0`: the peak of the bin where the largest magnitude first
    /// occurs, refined by a fit where its neighbourhood has three bins or
    /// more, as a frequency in millihertz.
    pub fn detect_pitch_in_spectrum(
        &self,
        bin_range: (usize, usize),
        spectrum: &[i64],
        sample_rate: u32,
    ) -> (result: Result<i64, PitchError>)
        requires
            self.well_formed(),
            self.space() is Some,
        ensures
            is_pitch_of_spectrum(
                bin_range,
                spectrum@,
                self.fit(),
                BinMapping::Linear { padded_len: self.space()->Some_0@.len() as usize },
                sample_rate,
                result,
            ),
    {
        assert(self.fit() == self.fit);
        detect_pitch_in_spectrum(bin_range, spectrum, &self.fit, self.mapping(), sample_rate)
    }
}

impl<
    W: Fn(usize) -> Vec<i64>,
    T: Fn(&[Complex]) -> Vec<Complex>,
    F: Fn(Vec<i64>, Vec<i64>) -> Fit,
> IntoFrequencyDomain for HannedFftDetector<W, T, F> {
    /// A signal that fits the buffer in place, or the longest buffer where
    /// there is none yet.
    open spec fn takes(&self, signal: Seq<i64>) -> bool {
        &&& self.well_formed()
        &&& signal.len() <= MAX_FFT_LEN
        &&& self.space() is Some ==> signal.len() <= self.space()->Some_0@.len()
    }

    /// The magnitude spectrum of the windowed signal within the range.
    open spec fn is_domain_of(
        &self,
        signal: Seq<i64>,
        freq_range: Option<(Range<i64>, u32)>,
        domain: (usize, Seq<i64>),
    ) -> bool {
        exists|padded_len: int| #[trigger] self.is_spectrum_of(signal, freq_range, padded_len, domain)
    }

    /// Linear over the length of the buffer, once there is one.
    open spec fn spec_mapping(&self) -> Option<BinMapping> {
        match self.space() {
            Some(space) => Some(BinMapping::Linear { padded_len: space@.len() as usize }),
            None => None,
        }
    }

    fn into_frequency_domain(
        &mut self,
        signal: &[i64],
        freq_range: Option<(Range<i64>, u32)>,
    ) -> (domain: (usize, Vec<i64>))
        ensures
            final(self).well_formed(),
            final(self).space() is Some,
            final(self).window() == old(self).window(),
            final(self).transform() == old(self).transform(),
            final(self).fit() == old(self).fit(),
            final(self).takes(signal@),
            old(self).length_for(signal.len() as int, final(self).space()->Some_0@.len() as int),
            final(self).window_len(signal.len() as int) == old(self).window_len(
                signal.len() as int,
            ),
            old(self).is_spectrum_of(
                signal@,
                freq_range,
                final(self).space()->Some_0@.len() as int,
                (domain.0, domain.1@),
            ),
    {
        if self.fft_space.is_none() {
            self.fft_space = Some(FftSpace::new(signal.len()));
        }
        let signal_len = match &self.fft_space {
            Some(space) => space.signal_len(),
            None => 0,
        };
        assert(self.window() == old(self).window() && self.transform() == old(self).transform()
            && self.fit() == old(self).fit());
        assert(self.window().requires((signal_len,)));
        let coefficients = (self.window)(signal_len);
        self.load(signal, coefficients.as_slice(), WINDOW_SCALE);
        let buffer = self.buffer();
        let ghost loaded_buffer: &[Complex] = buffer;
        assert(self.transform().requires((buffer,)));
        let values = (self.transform)(buffer);
        let padded_len = match &self.fft_space {
            Some(space) => space.padded_len(),
            None => 0,
        };
        let bin_range = self.bin_range(signal.len(), freq_range);
        let domain = if values.len() == padded_len {
            self.store(values.as_slice());
            (bin_range.0, self.unscaled_spectrum(bin_range))
        } else {
            (bin_range.0, Vec::new())
        };
        proof {
            assert(old(self).window().ensures(
                (old(self).window_len(signal.len() as int) as usize,),
                coefficients,
            ));
            assert(old(self).transform().ensures((loaded_buffer,), values));
            assert(old(self).is_spectrum_of(
                signal@,
                freq_range,
                padded_len as int,
                (domain.0, domain.1@),
            ));
        }
        domain
    }

    fn mapping(&self) -> (mapping: BinMapping) {
        match &self.fft_space {
            Some(space) => BinMapping::Linear { padded_len: space.space().len() },
            None => BinMapping::Linear { padded_len: 0 },
        }
    }

    fn name(&self) -> (name: &'static str)
        ensures
            name@ == "hannedfft"@,
    {
        "hannedfft"
    }
}

impl<
    W: Fn(usize) -> Vec<i64>,
    T: Fn(&[Complex]) -> Vec<Complex>,
    F: Fn(Vec<i64>, Vec<i64>) -> Fit,
> PitchDetector for HannedFftDetector<W, T, F> {
    /// A signal that fits the buffer.
    open spec fn accepts(&self, signal: Seq<i64>, sample_rate: u32, freq_range: Range<i64>) -> bool {
        self.takes(signal)
    }

    /// The pitch in the magnitude spectrum of the windowed signal within
    /// the range.
    open spec fn detects(
        &self,
        signal: Seq<i64>,
        sample_rate: u32,
        freq_range: Range<i64>,
        result: Result<i64, PitchError>,
    ) -> bool {
        exists|padded_len: int, domain: (usize, Seq<i64>)|
            #[trigger] self.is_spectrum_of(
                signal,
                Some((freq_range, sample_rate)),
                padded_len,
                domain,
            ) && is_pitch_of_spectrum(
                hanned_bin_range(
                    padded_len,
                    signal.len() as int,
                    Some((freq_range, sample_rate)),
                ),
                domain.1,
                self.fit(),
                BinMapping::Linear { padded_len: padded_len as usize },
                sample_rate,
                result,
            )
    }

    fn detect_pitch_in_range(
        &mut self,
        signal: &[i64],
        sample_rate: u32,
        freq_range: Range<i64>,
    ) -> (result: Result<i64, PitchError>)
        ensures
            final(self).well_formed(),
            final(self).space() is Some,
            final(self).window() == old(self).window(),
            final(self).transform() == old(self).transform(),
            final(self).fit() == old(self).fit(),
            final(self).accepts(signal@, sample_rate, freq_range),
            old(self).length_for(signal.len() as int, final(self).space()->Some_0@.len() as int),
            final(self).window_len(signal.len() as int) == old(self).window_len(
                signal.len() as int,
            ),
    {
        let (start, end) = (freq_range.start, freq_range.end);
        let (start_bin, spectrum) = self.into_frequency_domain(
            signal,
            Some((start..end, sample_rate)),
        );
        let bin_range = self.bin_range(signal.len(), Some((start..end, sample_rate)));
        let result = self.detect_pitch_in_spectrum(bin_range, spectrum.as_slice(), sample_rate);
        proof {
            let padded_len = self.space()->Some_0@.len() as int;
            assert(old(self).is_spectrum_of(
                signal@,
                Some((freq_range, sample_rate)),
                padded_len,
                (start_bin, spectrum@),
            ));
        }
        result
    }
}

/// A well-formed detector accepts every signal that a buffer can hold and
/// that fits the buffer in place, if there is one, with any sample rate and
/// any range; and it takes such a signal into the frequency domain.
pub proof fn lemma_hanned_accepts<
    W: Fn(usize) -> Vec<i64>,
    T: Fn(&[Complex]) -> Vec<Complex>,
    F: Fn(Vec<i64>, Vec<i64>) -> Fit,
>(detector: &HannedFftDetector<W, T, F>, signal: Seq<i64>, sample_rate: u32, freq_range: Range<i64>)
    requires
        detector.well_formed(),
        signal.len() <= MAX_FFT_LEN,
        detector.space() is Some ==> signal.len() <= detector.space()->Some_0@.len(),
    ensures
        detector.takes(signal),
        detector.accepts(signal, sample_rate, freq_range),
{
}

/// What a detector finds does not depend on what its buffer has held. Let
/// `reused` be a detector as a run on a signal of some length leaves
/// `fresh`: with the same collaborators and with the buffer that `fresh`
/// would load such a signal into. Then in every signal of that length, with
/// any sample rate and any range, `reused` detects what `fresh` detects.
pub proof fn lemma_hanned_reused_detects_the_same<
    W: Fn(usize) -> Vec<i64>,
    T: Fn(&[Complex]) -> Vec<Complex>,
    F: Fn(Vec<i64>, Vec<i64>) -> Fit,
>(
    fresh: &HannedFftDetector<W, T, F>,
    reused: &HannedFftDetector<W, T, F>,
    signal: Seq<i64>,
    sample_rate: u32,
    freq_range: Range<i64>,
    result: Result<i64, PitchError>,
)
    requires
        reused.window() == fresh.window(),
        reused.transform() == fresh.transform(),
        reused.fit() == fresh.fit(),
        reused.space() is Some,
        fresh.length_for(signal.len() as int, reused.space()->Some_0@.len() as int),
        reused.window_len(signal.len() as int) == fresh.window_len(signal.len() as int),
    ensures
        reused.detects(signal, sample_rate, freq_range, result) == fresh.detects(
            signal,
            sample_rate,
            freq_range,
            result,
        ),
{
    let range = Some((freq_range, sample_rate));
    let len = reused.space()->Some_0@.len() as int;
    assert forall|padded_len: int| #[trigger]
        fresh.length_for(signal.len() as int, padded_len) implies padded_len == len by {
        if fresh.space() is None {
            lemma_padded_len_unique(signal.len() as int, padded_len, len);
        }
    }
    assert forall|padded_len: int, domain: (usize, Seq<i64>)| #[trigger]
        fresh.is_spectrum_of(signal, range, padded_len, domain) implies reused.is_spectrum_of(
        signal,
        range,
        padded_len,
        domain,
    ) by {
        assert(fresh.length_for(signal.len() as int, padded_len));
        assert(reused.length_for(signal.len() as int, padded_len));
    }
    assert forall|padded_len: int, domain: (usize, Seq<i64>)| #[trigger]
        reused.is_spectrum_of(signal, range, padded_len, domain) implies fresh.is_spectrum_of(
        signal,
        range,
        padded_len,
        domain,
    ) by {
        assert(reused.length_for(signal.len() as int, padded_len));
        assert(fresh.length_for(signal.len() as int, padded_len));
    }
}

/// A number has one whole square root.
pub proof fn lemma_sqrt_floor_unique(x: int, one: int, other: int)
    requires
        is_sqrt_floor(x, one),
        is_sqrt_floor(x, other),
    ensures
        one == other,
{
    if one < other {
        assert((one + 1) * (one + 1) <= other * other) by (nonlinear_arith)
            requires
                0 <= one < other,
        ;
    }
    if other < one {
        assert((other + 1) * (other + 1) <= one * one) by (nonlinear_arith)
            requires
                0 <= other < one,
        ;
    }
}

/// The collaborators of a detector are single-valued: each has one answer
/// for the same question.
pub open spec fn is_single_valued<
    W: Fn(usize) -> Vec<i64>,
    T: Fn(&[Complex]) -> Vec<Complex>,
    F: Fn(Vec<i64>, Vec<i64>) -> Fit,
>(window: W, transform: T, fit: F) -> bool {
    &&& forall|n: usize, one: Vec<i64>, other: Vec<i64>| #[trigger]
        window.ensures((n,), one) && #[trigger] window.ensures((n,), other) ==> one@ == other@
    &&& forall|b1: &[Complex], v1: Vec<Complex>, b2: &[Complex], v2: Vec<Complex>| #[trigger]
        transform.ensures((b1,), v1) && #[trigger] transform.ensures((b2,), v2) && b1@ == b2@
            ==> v1@ == v2@
    &&& is_single_valued_fit(fit)
}

/// With single-valued collaborators a signal has one magnitude spectrum.
pub proof fn lemma_hanned_one_spectrum<
    W: Fn(usize) -> Vec<i64>,
    T: Fn(&[Complex]) -> Vec<Complex>,
    F: Fn(Vec<i64>, Vec<i64>) -> Fit,
>(
    detector: &HannedFftDetector<W, T, F>,
    signal: Seq<i64>,
    freq_range: Option<(Range<i64>, u32)>,
    padded_len: int,
    one: (usize, Seq<i64>),
    other: (usize, Seq<i64>),
)
    requires
        is_single_valued(detector.window(), detector.transform(), detector.fit()),
        detector.is_spectrum_of(signal, freq_range, padded_len, one),
        detector.is_spectrum_of(signal, freq_range, padded_len, other),
    ensures
        one == other,
{
    let bin_range = hanned_bin_range(padded_len, signal.len() as int, freq_range);
    let (c1, b1, v1) = choose|coefficients: Vec<i64>, buffer: &[Complex], values: Vec<Complex>|
        {
            &&& #[trigger] detector.window().ensures(
                (detector.window_len(signal.len() as int) as usize,),
                coefficients,
            )
            &&& buffer@ == windowed(loaded(signal, padded_len), coefficients@, WINDOW_SCALE as int)
            &&& #[trigger] detector.transform().ensures((buffer,), values)
            &&& if values.len() == padded_len {
                is_magnitude_spectrum(values@, bin_range.0 as int, bin_range.1 as int, one.1)
            } else {
                one.1.len() == 0
            }
        };
    let (c2, b2, v2) = choose|coefficients: Vec<i64>, buffer: &[Complex], values: Vec<Complex>|
        {
            &&& #[trigger] detector.window().ensures(
                (detector.window_len(signal.len() as int) as usize,),
                coefficients,
            )
            &&& buffer@ == windowed(loaded(signal, padded_len), coefficients@, WINDOW_SCALE as int)
            &&& #[trigger] detector.transform().ensures((buffer,), values)
            &&& if values.len() == padded_len {
                is_magnitude_spectrum(values@, bin_range.0 as int, bin_range.1 as int, other.1)
            } else {
                other.1.len() == 0
            }
        };
    assert(c1@ == c2@);
    assert(b1@ == b2@);
    assert(v1@ == v2@);
    if v1.len() == padded_len {
        let part = restricted(v1@, bin_range.0 as int, bin_range.1 as int);
        assert forall|i: int| 0 <= i < one.1.len() implies one.1[i] == other.1[i] by {
            lemma_sqrt_floor_unique(
                part[i].spec_norm_sqr() / (v1@.len() as int),
                one.1[i] as int,
                other.1[i] as int,
            );
        }
    }
    assert(one.1 =~= other.1);
}

/// Detection is repeatable. Let `reused` be a detector as a run on a
/// signal of some length leaves `fresh`, and let their collaborators be
/// single-valued. Then what `reused` detects in a signal of that length is
/// what `fresh` detects in it: the same pitch, or an error of the same
/// kind.
pub proof fn lemma_hanned_detection_repeats<
    W: Fn(usize) -> Vec<i64>,
    T: Fn(&[Complex]) -> Vec<Complex>,
    F: Fn(Vec<i64>, Vec<i64>) -> Fit,
>(
    fresh: &HannedFftDetector<W, T, F>,
    reused: &HannedFftDetector<W, T, F>,
    signal: Seq<i64>,
    sample_rate: u32,
    freq_range: Range<i64>,
    first: Result<i64, PitchError>,
    second: Result<i64, PitchError>,
)
    requires
        is_single_valued(fresh.window(), fresh.transform(), fresh.fit()),
        reused.window() == fresh.window(),
        reused.transform() == fresh.transform(),
        reused.fit() == fresh.fit(),
        reused.space() is Some,
        fresh.length_for(signal.len() as int, reused.space()->Some_0@.len() as int),
        reused.window_len(signal.len() as int) == fresh.window_len(signal.len() as int),
        fresh.detects(signal, sample_rate, freq_range, first),
        reused.detects(signal, sample_rate, freq_range, second),
    ensures
        same_outcome(first, second),
{
    lemma_hanned_reused_detects_the_same(fresh, reused, signal, sample_rate, freq_range, second);
    let range = Some((freq_range, sample_rate));
    let len = reused.space()->Some_0@.len() as int;
    let (len_one, d1) = choose|padded_len: int, domain: (usize, Seq<i64>)| #[trigger]
        fresh.is_spectrum_of(signal, range, padded_len, domain) && is_pitch_of_spectrum(
            hanned_bin_range(padded_len, signal.len() as int, range),
            domain.1,
            fresh.fit(),
            BinMapping::Linear { padded_len: padded_len as usize },
            sample_rate,
            first,
        );
    let (len_two, d2) = choose|padded_len: int, domain: (usize, Seq<i64>)| #[trigger]
        fresh.is_spectrum_of(signal, range, padded_len, domain) && is_pitch_of_spectrum(
            hanned_bin_range(padded_len, signal.len() as int, range),
            domain.1,
            fresh.fit(),
            BinMapping::Linear { padded_len: padded_len as usize },
            sample_rate,
            second,
        );
    assert(fresh.length_for(signal.len() as int, len_one));
    assert(fresh.length_for(signal.len() as int, len_two));
    if fresh.space() is None {
        lemma_padded_len_unique(signal.len() as int, len_one, len);
        lemma_padded_len_unique(signal.len() as int, len_two, len);
    }
    lemma_hanned_one_spectrum(fresh, signal, range, len_one, d1, d2);
    lemma_one_pitch_of_spectrum(
        hanned_bin_range(len_one, signal.len() as int, range),
        d1.1,
        fresh.fit(),
        BinMapping::Linear { padded_len: len_one as usize },
        sample_rate,
        first,
        second,
    );
}

} // verus!
