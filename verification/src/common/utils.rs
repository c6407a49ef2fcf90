//! Sample decoding, buffer sizing and sub-bin peak interpolation.
use crate::common::error::PitchError;
use crate::common::fixed::{clamp_i64, microbins, saturate_i64, to_microbins};
use crate::common::FftPoint;
use vstd::arithmetic::power2::{lemma2_to64, lemma_pow2_strictly_increases, lemma_pow2_unfold, pow2};
use vstd::prelude::*;
use vstd::string::StringExecFns;

verus! {

/// The longest transform buffer: the largest power of two that every
/// supported `usize` holds.
pub const MAX_FFT_LEN: usize = 0x8000_0000;

/// The shortest transform buffer.
pub const MIN_FFT_LEN: usize = 1024;

/// `p` is a power of two with an exponent from 10 to 31.
pub open spec fn is_fft_len(p: int) -> bool {
    exists|k: nat| 10 <= k <= 31 && p == #[trigger] pow2(k)
}

/// `p` is the buffer length for a signal of `n` samples: the least power of
/// two that is at least `n` and at least 1024.
pub open spec fn is_padded_len(n: int, p: int) -> bool {
    &&& is_fft_len(p)
    &&& n <= p
    &&& p == 1024 || p < 2 * n
}

/// A signal has exactly one buffer length.
pub proof fn lemma_padded_len_unique(n: int, p: int, q: int)
    requires
        is_padded_len(n, p),
        is_padded_len(n, q),
    ensures
        p == q,
{
    let k = choose|k: nat| 10 <= k <= 31 && p == #[trigger] pow2(k);
    let l = choose|l: nat| 10 <= l <= 31 && q == #[trigger] pow2(l);
    lemma2_to64();
    if k < l {
        lemma_pow2_unfold(l);
        if k < l - 1 {
            lemma_pow2_strictly_increases(k, (l - 1) as nat);
        }
        if 10 < k {
            lemma_pow2_strictly_increases(10, k);
        }
    } else if l < k {
        lemma_pow2_unfold(k);
        if l < k - 1 {
            lemma_pow2_strictly_increases(l, (k - 1) as nat);
        }
        if 10 < l {
            lemma_pow2_strictly_increases(10, l);
        }
    }
}

/// The buffer length for a signal of `num_samples` samples: the next power
/// of two, and at least 1024.
pub fn calc_optimized_fft_space_size(num_samples: usize) -> (size: usize)
    requires
        num_samples <= MAX_FFT_LEN,
    ensures
        is_padded_len(num_samples as int, size as int),
        MIN_FFT_LEN <= size <= MAX_FFT_LEN,
{
    let mut optimized_sum_samples: usize = 1024;
    let ghost mut k: nat = 10;
    proof {
        lemma2_to64();
    }
    while optimized_sum_samples < num_samples
        invariant
            10 <= k <= 31,
            optimized_sum_samples == pow2(k),
            num_samples <= MAX_FFT_LEN,
            MAX_FFT_LEN == pow2(31),
            1024 == pow2(10),
            optimized_sum_samples == 1024 || optimized_sum_samples < 2 * num_samples,
            1024 <= optimized_sum_samples <= MAX_FFT_LEN,
        decreases MAX_FFT_LEN - optimized_sum_samples,
    {
        proof {
            assert(k < 31);
            lemma_pow2_unfold(k + 1);
            if k + 1 < 31 {
                lemma_pow2_strictly_increases(k + 1, 31);
            }
            lemma_pow2_strictly_increases(10, k + 1);
            k = k + 1;
        }
        optimized_sum_samples = optimized_sum_samples * 2;
    }
    optimized_sum_samples
}

/// The 16-bit sample whose low byte is `low` and whose high byte is `high`.
pub open spec fn sample_of_bytes(low: u8, high: u8) -> int {
    let unsigned = low as int + 256 * (high as int);
    if unsigned >= 32768 {
        unsigned - 65536
    } else {
        unsigned
    }
}

/// `sample` is what the two bytes hold, read in one of the two byte orders.
pub open spec fn is_native_sample(first: u8, second: u8, sample: int) -> bool {
    sample == sample_of_bytes(first, second) || sample == sample_of_bytes(second, first)
}

/// The sample at place `i` of a buffer of raw audio bytes, two bytes to a
/// sample, with the low byte of each sample first or second.
pub open spec fn sample_at(bytes: Seq<u8>, low_first: bool, i: int) -> int {
    if low_first {
        sample_of_bytes(bytes[2 * i], bytes[2 * i + 1])
    } else {
        sample_of_bytes(bytes[2 * i + 1], bytes[2 * i])
    }
}

/// `samples` are the samples of a buffer of raw audio bytes, all of them
/// read in the same byte order. A trailing odd byte is ignored.
pub open spec fn are_samples_of(bytes: Seq<u8>, low_first: bool, samples: Seq<int>) -> bool {
    &&& samples.len() == bytes.len() / 2
    &&& forall|i: int| 0 <= i < samples.len() ==> #[trigger] samples[i] == sample_at(bytes, low_first, i)
}

/// `i16::from_ne_bytes` on two bytes in the order in which they lie in memory.
/// The machine decides which of the two is the low byte, so the contract
/// admits both readings and nothing else.
#[verifier::external_body]
fn sample_from_ne_bytes(first: u8, second: u8) -> (sample: i16)
    ensures
        is_native_sample(first, second, sample as int),
{
    i16::from_ne_bytes([first, second])
}

/// The 16-bit sample whose low byte is `low` and whose high byte is `high`.
pub fn sample_from_bytes(low: u8, high: u8) -> (sample: i16)
    ensures
        sample as int == sample_of_bytes(low, high),
{
    let unsigned: i32 = low as i32 + 256 * (high as i32);
    if unsigned >= 32768 {
        (unsigned - 65536) as i16
    } else {
        unsigned as i16
    }
}

/// The samples held by a buffer of raw audio bytes, two bytes to a sample in
/// the machine's byte order: which byte of a sample is the low one is asked
/// of the machine once, and every sample is read in that order. A trailing
/// odd byte is ignored.
pub fn audio_buffer_to_samples(byte_buffer: &[u8]) -> (samples: Vec<i16>)
    ensures
        samples.len() == byte_buffer.len() / 2,
        are_samples_of(byte_buffer@, true, samples@.map_values(|s: i16| s as int))
            || are_samples_of(byte_buffer@, false, samples@.map_values(|s: i16| s as int)),
{
    // The bytes 1 and 0 hold the sample 1 where the low byte is first, and
    // the sample 256 where it is second.
    let low_first = sample_from_ne_bytes(1, 0) == 1;
    let count = byte_buffer.len() / 2;
    let mut samples: Vec<i16> = Vec::new();
    let mut i: usize = 0;
    while i < count
        invariant
            count == byte_buffer.len() / 2,
            i <= count,
            samples.len() == i,
            forall|j: int|
                0 <= j < i ==> #[trigger] samples[j] as int == sample_at(
                    byte_buffer@,
                    low_first,
                    j,
                ),
        decreases count - i,
    {
        let first = byte_buffer[2 * i];
        let second = byte_buffer[2 * i + 1];
        let sample = if low_first {
            sample_from_bytes(first, second)
        } else {
            sample_from_bytes(second, first)
        };
        samples.push(sample);
        i = i + 1;
    }
    proof {
        let read = samples@.map_values(|s: i16| s as int);
        assert forall|j: int| 0 <= j < read.len() implies #[trigger] read[j] == sample_at(
            byte_buffer@,
            low_first,
            j,
        ) by {
            assert(read[j] == samples[j] as int);
        }
        assert(are_samples_of(byte_buffer@, low_first, read));
    }
    samples
}

/// The signal held by a buffer of raw audio bytes: its samples, all read in
/// the same byte order, widened.
pub fn audio_buffer_to_signal(byte_buffer: &[u8]) -> (signal: Vec<i64>)
    ensures
        signal.len() == byte_buffer.len() / 2,
        are_samples_of(byte_buffer@, true, signal@.map_values(|s: i64| s as int))
            || are_samples_of(byte_buffer@, false, signal@.map_values(|s: i64| s as int)),
{
    let samples = audio_buffer_to_samples(byte_buffer);
    let mut signal: Vec<i64> = Vec::new();
    let mut i: usize = 0;
    while i < samples.len()
        invariant
            i <= samples.len(),
            signal.len() == i,
            forall|j: int| 0 <= j < i ==> #[trigger] signal[j] as int == samples[j] as int,
        decreases samples.len() - i,
    {
        signal.push(samples[i] as i64);
        i = i + 1;
    }
    proof {
        let read = samples@.map_values(|s: i16| s as int);
        let widened = signal@.map_values(|s: i64| s as int);
        let low_first = are_samples_of(byte_buffer@, true, read);
        assert forall|j: int| 0 <= j < widened.len() implies #[trigger] widened[j] == sample_at(
            byte_buffer@,
            low_first,
            j,
        ) by {
            assert(widened[j] == signal[j] as int);
            assert(read[j] == samples[j] as int);
        }
        assert(are_samples_of(byte_buffer@, low_first, widened));
    }
    signal
}

/// The peak around `j` reaches one bin further down: the bin below is not
/// higher and is above zero.
pub open spec fn descends_left(s: Seq<i64>, j: int) -> bool {
    1 <= j < s.len() && s[j] >= s[j - 1] && s[j - 1] > 0
}

/// The peak around `j` reaches one bin further up: the bin above is not
/// higher and is above zero.
pub open spec fn descends_right(s: Seq<i64>, j: int) -> bool {
    0 <= j && j + 1 < s.len() && s[j] >= s[j + 1] && s[j + 1] > 0
}

/// First bin of the neighbourhood of `idx`.
pub open spec fn peak_begin(s: Seq<i64>, idx: int) -> int
    decreases idx,
{
    if descends_left(s, idx) {
        peak_begin(s, idx - 1)
    } else {
        idx
    }
}

/// Last bin of the neighbourhood of `idx`.
pub open spec fn peak_end(s: Seq<i64>, idx: int) -> int
    decreases s.len() - idx,
{
    if descends_right(s, idx) {
        peak_end(s, idx + 1)
    } else {
        idx
    }
}

/// The neighbourhood of a bin is the longest run of bins around it over which
/// the spectrum does not rise on the way out and stays above zero.
pub proof fn lemma_peak_neighborhood(s: Seq<i64>, idx: int)
    requires
        0 <= idx < s.len(),
    ensures
        0 <= peak_begin(s, idx) <= idx <= peak_end(s, idx) < s.len(),
        forall|j: int| peak_begin(s, idx) < j <= idx ==> s[j - 1] <= #[trigger] s[j] && s[j - 1] > 0,
        forall|j: int| idx < j <= peak_end(s, idx) ==> s[j - 1] >= #[trigger] s[j] && s[j] > 0,
        !descends_left(s, peak_begin(s, idx)),
        !descends_right(s, peak_end(s, idx)),
{
    lemma_peak_begin(s, idx);
    lemma_peak_end(s, idx);
}

proof fn lemma_peak_begin(s: Seq<i64>, idx: int)
    requires
        0 <= idx < s.len(),
    ensures
        0 <= peak_begin(s, idx) <= idx,
        forall|j: int| peak_begin(s, idx) < j <= idx ==> s[j - 1] <= #[trigger] s[j] && s[j - 1] > 0,
        !descends_left(s, peak_begin(s, idx)),
    decreases idx,
{
    if descends_left(s, idx) {
        lemma_peak_begin(s, idx - 1);
    }
}

proof fn lemma_peak_end(s: Seq<i64>, idx: int)
    requires
        0 <= idx < s.len(),
    ensures
        idx <= peak_end(s, idx) < s.len(),
        forall|j: int| idx < j <= peak_end(s, idx) ==> s[j - 1] >= #[trigger] s[j] && s[j] > 0,
        !descends_right(s, peak_end(s, idx)),
    decreases s.len() - idx,
{
    if descends_right(s, idx) {
        lemma_peak_end(s, idx + 1);
    }
}

/// What the neighbourhood of a peak says of its position.
#[derive(Debug, Clone, Copy, PartialEq, Eq, Structural)]
pub enum PeakEstimate {
    /// The neighbourhood has one or two bins: this one is the peak.
    Exact(FftPoint),
    /// The neighbourhood has three bins or more, from `begin` to `end`
    /// inclusive: a curve fitted to them gives the peak.
    Fit { begin: usize, end: usize },
}

/// The point at the centre of bin `i` of `s`.
pub open spec fn point_at(s: Seq<i64>, i: int) -> FftPoint {
    FftPoint { x: microbins(i) as i64, y: s[i] }
}

/// The estimate for the peak that bin `idx` of `s` belongs to.
pub open spec fn peak_estimate(s: Seq<i64>, idx: int) -> PeakEstimate {
    let begin = peak_begin(s, idx);
    let end = peak_end(s, idx);
    if end == begin {
        PeakEstimate::Exact(point_at(s, begin))
    } else if end == begin + 1 {
        if s[begin] > s[end] {
            PeakEstimate::Exact(point_at(s, begin))
        } else {
            PeakEstimate::Exact(point_at(s, end))
        }
    } else {
        PeakEstimate::Fit { begin: begin as usize, end: end as usize }
    }
}

/// Where the estimate is a point, it is the first or the last bin of a
/// neighbourhood of at most two, and no bin of the neighbourhood is higher;
/// where it is a fit, the neighbourhood has three bins at least.
pub proof fn lemma_estimate_within_neighborhood(s: Seq<i64>, idx: int)
    requires
        0 <= idx < s.len() <= usize::MAX,
    ensures
        match peak_estimate(s, idx) {
            PeakEstimate::Exact(point) => {
                &&& peak_end(s, idx) <= peak_begin(s, idx) + 1
                &&& point == point_at(s, peak_begin(s, idx)) || point == point_at(
                    s,
                    peak_end(s, idx),
                )
                &&& forall|j: int|
                    peak_begin(s, idx) <= j <= peak_end(s, idx) ==> #[trigger] s[j] <= point.y
            },
            PeakEstimate::Fit { begin, end } => {
                &&& begin == peak_begin(s, idx)
                &&& end == peak_end(s, idx)
                &&& begin + 2 <= end
            },
        },
{
    lemma_peak_neighborhood(s, idx);
}

/// Finds the neighbourhood of the peak that bin `fft_point_x` belongs to and
/// says where the peak lies: at the bin itself when it stands alone, at the
/// larger of two bins, or where a fitted curve will put it.
/// A bin outside the spectrum has no neighbourhood.
pub fn peak_estimate_at(spectrum: &[i64], fft_point_x: usize) -> (result: Result<
    PeakEstimate,
    PitchError,
>)
    ensures
        fft_point_x < spectrum.len() ==> result == Ok::<PeakEstimate, PitchError>(
            peak_estimate(spectrum@, fft_point_x as int),
        ),
        fft_point_x >= spectrum.len() ==> result is Err && result->Err_0 is IncorrectParameters,
{
    if fft_point_x >= spectrum.len() {
        return Err(
            PitchError::IncorrectParameters(String::from_str("Expected at least one x value")),
        );
    }
    let mut idx = fft_point_x;
    loop
        invariant
            idx <= fft_point_x < spectrum.len(),
            peak_begin(spectrum@, idx as int) == peak_begin(spectrum@, fft_point_x as int),
        ensures
            idx <= fft_point_x,
            idx == peak_begin(spectrum@, fft_point_x as int),
        decreases idx,
    {
        if idx == 0 {
            break ;
        }
        if spectrum[idx] < spectrum[idx - 1] || spectrum[idx - 1] <= 0 {
            break ;
        }
        idx -= 1;
    }
    let peak_begin_idx = idx;
    idx = fft_point_x;
    loop
        invariant
            fft_point_x <= idx < spectrum.len(),
            peak_end(spectrum@, idx as int) == peak_end(spectrum@, fft_point_x as int),
        ensures
            fft_point_x <= idx < spectrum.len(),
            idx == peak_end(spectrum@, fft_point_x as int),
        decreases spectrum.len() - idx,
    {
        if idx == spectrum.len() - 1 {
            break ;
        }
        if spectrum[idx] < spectrum[idx + 1] || spectrum[idx + 1] <= 0 {
            break ;
        }
        idx += 1;
    }
    let peak_end_idx_incl = idx;
    let count = peak_end_idx_incl - peak_begin_idx + 1;
    if count == 1 {
        Ok(
            PeakEstimate::Exact(
                FftPoint { x: to_microbins(peak_begin_idx), y: spectrum[peak_begin_idx] },
            ),
        )
    } else if count == 2 {
        if spectrum[peak_begin_idx] > spectrum[peak_end_idx_incl] {
            Ok(
                PeakEstimate::Exact(
                    FftPoint { x: to_microbins(peak_begin_idx), y: spectrum[peak_begin_idx] },
                ),
            )
        } else {
            Ok(
                PeakEstimate::Exact(
                    FftPoint { x: to_microbins(peak_end_idx_incl), y: spectrum[peak_end_idx_incl] },
                ),
            )
        }
    } else {
        Ok(PeakEstimate::Fit { begin: peak_begin_idx, end: peak_end_idx_incl })
    }
}

/// The bins from `begin` to `end` inclusive, in millionths of a bin.
pub open spec fn bins_between(begin: int, end: int) -> Seq<i64> {
    Seq::new((end + 1 - begin) as nat, |i: int| microbins(begin + i) as i64)
}

/// What a curve fit is given: the positions of the bins of a neighbourhood,
/// in millionths of a bin, and the magnitudes there.
pub open spec fn fit_request(s: Seq<i64>, begin: int, end: int) -> (Seq<i64>, Seq<i64>) {
    (bins_between(begin, end), s.subrange(begin, end + 1))
}

/// What a curve fit returns: the centre of the curve, in millionths of a
/// bin, its spread, in the same unit, and its amplitude; or, where it
/// fails, why.
pub type Fit = Result<(i64, i64, i64), String>;

/// The peak that a fit found: the centre and the amplitude of the curve. A
/// failed fit is an unexpected error, in the fitter's own words.
pub open spec fn fitted(fit: Fit) -> Result<FftPoint, PitchError> {
    match fit {
        Ok((mu, _, a)) => Ok(FftPoint { x: mu, y: a }),
        Err(msg) => Err(PitchError::UnexpectedError(msg)),
    }
}

/// `result` is the peak that an estimate comes to: the point itself where
/// the estimate is one, and else what `fit` finds for the neighbourhood.
pub open spec fn is_refined<F: Fn(Vec<i64>, Vec<i64>) -> Fit>(
    s: Seq<i64>,
    estimate: PeakEstimate,
    fit: F,
    result: Result<FftPoint, PitchError>,
) -> bool {
    match estimate {
        PeakEstimate::Exact(point) => result == Ok::<FftPoint, PitchError>(point),
        PeakEstimate::Fit { begin, end } => exists|x: Vec<i64>, y: Vec<i64>, found: Fit|
            (x@, y@) == fit_request(s, begin as int, end as int) && #[trigger] fit.ensures(
                (x, y),
                found,
            ) && result == fitted(found),
    }
}

/// `fit` is single-valued: for the same positions and magnitudes it has
/// one answer.
pub open spec fn is_single_valued_fit<F: Fn(Vec<i64>, Vec<i64>) -> Fit>(fit: F) -> bool {
    forall|x1: Vec<i64>, y1: Vec<i64>, found1: Fit, x2: Vec<i64>, y2: Vec<i64>, found2: Fit|
        #[trigger] fit.ensures((x1, y1), found1) && #[trigger] fit.ensures((x2, y2), found2)
            && x1@ == x2@ && y1@ == y2@ ==> found1 == found2
}

/// With a single-valued fit an estimate comes to one peak.
pub proof fn lemma_refined_once<F: Fn(Vec<i64>, Vec<i64>) -> Fit>(
    s: Seq<i64>,
    estimate: PeakEstimate,
    fit: F,
    one: Result<FftPoint, PitchError>,
    other: Result<FftPoint, PitchError>,
)
    requires
        is_single_valued_fit(fit),
        is_refined(s, estimate, fit, one),
        is_refined(s, estimate, fit, other),
    ensures
        one == other,
{
}

/// The peak that an estimate comes to: the point itself where the estimate
/// is one, and else the centre and the amplitude of the curve that `fit`
/// fits to the bins of the neighbourhood.
pub fn refine<F: Fn(Vec<i64>, Vec<i64>) -> Fit>(
    spectrum: &[i64],
    estimate: PeakEstimate,
    fit: &F,
) -> (result: Result<FftPoint, PitchError>)
    requires
        forall|x: Vec<i64>, y: Vec<i64>| #[trigger] fit.requires((x, y)),
        estimate matches PeakEstimate::Fit { begin, end } ==> begin <= end < spectrum.len(),
    ensures
        is_refined(spectrum@, estimate, *fit, result),
{
    match estimate {
        PeakEstimate::Exact(point) => Ok(point),
        PeakEstimate::Fit { begin, end } => {
            let mut x_vals: Vec<i64> = Vec::new();
            let mut y_vals: Vec<i64> = Vec::new();
            let mut i: usize = begin;
            while i <= end
                invariant
                    begin <= i <= end + 1,
                    end < spectrum.len(),
                    x_vals.len() == i - begin,
                    y_vals.len() == i - begin,
                    forall|j: int|
                        0 <= j < x_vals.len() ==> #[trigger] x_vals[j] == microbins(begin + j),
                    forall|j: int|
                        0 <= j < y_vals.len() ==> #[trigger] y_vals[j] == spectrum[begin + j],
                decreases end + 1 - i,
            {
                x_vals.push(to_microbins(i));
                y_vals.push(spectrum[i]);
                i = i + 1;
            }
            assert(x_vals@ =~= bins_between(begin as int, end as int));
            assert(y_vals@ =~= spectrum@.subrange(begin as int, end + 1));
            let ghost xs = x_vals;
            let ghost ys = y_vals;
            let found = fit(x_vals, y_vals);
            assert(fit.ensures((xs, ys), found));
            match found {
                Ok((mu, _, a)) => Ok(FftPoint { x: mu, y: a }),
                Err(msg) => Err(PitchError::UnexpectedError(msg)),
            }
        },
    }
}

/// Fits the curve that bin `fft_point_x` belongs to and returns the peak
/// point: for a neighbourhood of one bin the bin itself, of two bins the
/// larger, of three bins or more the centre and the amplitude of the curve
/// that `fit` fits to them. A bin outside the spectrum has no
/// neighbourhood.
pub fn interpolated_peak_at<F: Fn(Vec<i64>, Vec<i64>) -> Fit>(
    spectrum: &[i64],
    fft_point_x: usize,
    fit: &F,
) -> (result: Result<FftPoint, PitchError>)
    requires
        forall|x: Vec<i64>, y: Vec<i64>| #[trigger] fit.requires((x, y)),
    ensures
        fft_point_x >= spectrum.len() ==> result is Err && result->Err_0 is IncorrectParameters,
        fft_point_x < spectrum.len() ==> is_refined(
            spectrum@,
            peak_estimate(spectrum@, fft_point_x as int),
            *fit,
            result,
        ),
{
    match peak_estimate_at(spectrum, fft_point_x) {
        Err(e) => Err(e),
        Ok(estimate) => {
            proof {
                lemma_peak_neighborhood(spectrum@, fft_point_x as int);
            }
            refine(spectrum, estimate, fit)
        },
    }
}

/// A signal with a wave added to it, sample by sample, as far as the wave
/// reaches.
pub open spec fn with_wave(signal: Seq<i64>, wave: Seq<i64>) -> Seq<i64> {
    Seq::new(
        signal.len(),
        |i: int|
            if i < wave.len() {
                clamp_i64(signal[i] + wave[i]) as i64
            } else {
                signal[i]
            },
    )
}

/// Silence of `num_samples` samples with the first `count` waves added to
/// it.
pub open spec fn mixed_waves(waves: Seq<Vec<i64>>, num_samples: int, count: int) -> Seq<i64>
    decreases count,
{
    if count <= 0 {
        Seq::new(num_samples as nat, |i: int| 0i64)
    } else {
        with_wave(mixed_waves(waves, num_samples, count - 1), waves[count - 1]@)
    }
}

/// A signal of `num_samples` samples in which waves of the given
/// frequencies sound together, with `wave` to give the wave of a number of
/// samples, a frequency in millihertz and a sample rate.
pub fn mixed_wave_signal<S: Fn(usize, i64, u32) -> Vec<i64>>(
    num_samples: usize,
    freqs: Vec<i64>,
    sample_rate: u32,
    wave: &S,
) -> (signal: Vec<i64>)
    requires
        forall|n: usize, f: i64, r: u32| #[trigger] wave.requires((n, f, r)),
    ensures
        exists|waves: Seq<Vec<i64>>|
            {
                &&& waves.len() == freqs.len()
                &&& forall|k: int|
                    0 <= k < waves.len() ==> wave.ensures(
                        (num_samples, freqs[k], sample_rate),
                        #[trigger] waves[k],
                    )
                &&& signal@ == mixed_waves(waves, num_samples as int, freqs.len() as int)
            },
{
    let mut signal: Vec<i64> = Vec::new();
    let mut i: usize = 0;
    while i < num_samples
        invariant
            i <= num_samples,
            signal.len() == i,
            forall|j: int| 0 <= j < i ==> #[trigger] signal[j] == 0,
        decreases num_samples - i,
    {
        signal.push(0);
        i = i + 1;
    }
    let ghost mut waves: Seq<Vec<i64>> = Seq::empty();
    assert(signal@ =~= mixed_waves(waves, num_samples as int, 0));
    let mut k: usize = 0;
    while k < freqs.len()
        invariant
            k <= freqs.len(),
            signal.len() == num_samples,
            waves.len() == k,
            forall|n: usize, f: i64, r: u32| #[trigger] wave.requires((n, f, r)),
            forall|j: int|
                0 <= j < k ==> wave.ensures((num_samples, freqs[j], sample_rate), #[trigger] waves[j]),
            signal@ == mixed_waves(waves, num_samples as int, k as int),
        decreases freqs.len() - k,
    {
        let s = wave(num_samples, freqs[k], sample_rate);
        let ghost before = signal@;
        let ghost earlier = waves;
        let mut i: usize = 0;
        while i < num_samples && i < s.len()
            invariant
                i <= num_samples,
                signal.len() == num_samples,
                before.len() == num_samples,
                forall|j: int| i <= j < num_samples ==> #[trigger] signal[j] == before[j],
                forall|j: int| 0 <= j < i ==> #[trigger] signal[j] == with_wave(before, s@)[j],
            decreases num_samples - i,
        {
            let sum = saturate_i64((signal[i] as i128) + (s[i] as i128));
            signal.set(i, sum);
            i = i + 1;
        }
        proof {
            assert(signal@ =~= with_wave(before, s@));
            waves = waves.push(s);
            assert forall|j: int| 0 <= j <= k implies wave.ensures(
                (num_samples, freqs[j], sample_rate),
                #[trigger] waves[j],
            ) by {
                if j < k {
                    assert(waves[j] == earlier[j]);
                }
            }
            lemma_mixed_waves_prefix(earlier, waves, num_samples as int, k as int);
        }
        k = k + 1;
    }
    signal
}

/// What the first waves mix to does not depend on the waves after them.
proof fn lemma_mixed_waves_prefix(
    earlier: Seq<Vec<i64>>,
    waves: Seq<Vec<i64>>,
    num_samples: int,
    count: int,
)
    requires
        0 <= count <= earlier.len() <= waves.len(),
        forall|j: int| 0 <= j < count ==> earlier[j] == waves[j],
    ensures
        mixed_waves(earlier, num_samples, count) == mixed_waves(waves, num_samples, count),
    decreases count,
{
    if count > 0 {
        lemma_mixed_waves_prefix(earlier, waves, num_samples, count - 1);
    }
}

} // verus!
