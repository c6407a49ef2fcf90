//! Pitch from the autocorrelation of the signal, computed by way of the
//! frequency domain: the transform of the signal, times its conjugate,
//! transformed back.
use crate::common::constants::{MAX_FREQ, MIN_FREQ};
use crate::common::error::PitchError;
use crate::common::fft_space::{loaded, powers, Complex, FftSpace};
use crate::common::fixed::{clamp_i64, div_round, microbins, round_div, saturate_i64};
use crate::common::into_frequency_domain::BinMapping;
use crate::common::utils::{
    fitted, is_single_valued_fit, peak_estimate, peak_estimate_at, Fit, PeakEstimate, MAX_FFT_LEN,
};
use crate::common::FftPoint;
use crate::pitch::{
    detect_pitch_in_spectrum, is_max_bin, is_pitch_of_peak, is_pitch_of_spectrum, max_bin,
    nearest_whole_lag, peak_frequency, pitch_at, restricted, same_outcome, whole_lag,
    PitchDetector,
};
use std::ops::Range;
use vstd::prelude::*;
use vstd::string::StringExecFns;

verus! {

/// The denominator of the normalized autocorrelation.
pub const CORRELATION_SCALE: i64 = 1_000_000_000;

/// Where the slide down from lag zero ends: at a thousandth of the
/// autocorrelation at lag zero.
pub const SLIDE_THRESHOLD: i64 = 1_000_000;

/// Detects a pitch as the strongest peak of the autocorrelation, which is
/// the transform of the signal, times its conjugate, transformed back. The
/// detector is made with what it works with: `forward` and `inverse` give
/// the transforms of a buffer, and `fit` fits a curve to a peak.
pub struct AutocorrelationDetector<T, I, F> {
    forward: T,
    inverse: I,
    fit: F,
}

/// The first position from `pos` on whose value is at most the threshold,
/// or the length: where the slide down from lag zero ends.
pub open spec fn slide_end(s: Seq<i64>, threshold: int, pos: int) -> int
    decreases s.len() - pos,
{
    if pos < 0 || pos >= s.len() {
        s.len() as int
    } else if s[pos] <= threshold {
        pos
    } else {
        slide_end(s, threshold, pos + 1)
    }
}

/// The first position from `pos` on whose value is above zero, or the
/// length.
pub open spec fn rise(s: Seq<i64>, pos: int) -> int
    decreases s.len() - pos,
{
    if pos < 0 || pos >= s.len() {
        s.len() as int
    } else if s[pos] > 0 {
        pos
    } else {
        rise(s, pos + 1)
    }
}

/// The first position from `pos` on whose value is below zero, or the
/// length.
pub open spec fn fall(s: Seq<i64>, pos: int) -> int
    decreases s.len() - pos,
{
    if pos < 0 || pos >= s.len() {
        s.len() as int
    } else if s[pos] < 0 {
        pos
    } else {
        fall(s, pos + 1)
    }
}

/// The position after the run that begins at or after `pos`: the value
/// below zero that ended the run is used up with it.
pub open spec fn after_fall(s: Seq<i64>, pos: int) -> int {
    let end = fall(s, rise(s, pos));
    if end < s.len() {
        end + 1
    } else {
        s.len() as int
    }
}

/// The runs of values that are not below zero, from `pos` on: each begins
/// at a value above zero and reaches up to, not including, the next value
/// below zero.
pub open spec fn runs_from(s: Seq<i64>, pos: int) -> Seq<(usize, usize)>
    decreases s.len() - pos,
    when 0 <= pos
    via runs_from_decreases
{
    let begin = rise(s, pos);
    if begin >= s.len() {
        Seq::empty()
    } else {
        seq![(begin as usize, fall(s, begin) as usize)] + runs_from(s, after_fall(s, pos))
    }
}

#[via_fn]
proof fn runs_from_decreases(s: Seq<i64>, pos: int) {
    lemma_run(s, pos);
}

/// A run lies at or after the position it was looked for from: before it
/// no value is above zero, it begins with a value above zero, and within it
/// no value is below zero.
pub proof fn lemma_run(s: Seq<i64>, pos: int)
    requires
        0 <= pos,
    ensures
        rise(s, pos) < s.len() ==> pos <= rise(s, pos) < fall(s, rise(s, pos)) <= s.len(),
        rise(s, pos) < s.len() ==> pos < after_fall(s, pos) <= s.len(),
        rise(s, pos) < s.len() ==> s[rise(s, pos)] > 0,
        forall|i: int| pos <= i < rise(s, pos) && i < s.len() ==> #[trigger] s[i] <= 0,
        forall|i: int| rise(s, pos) <= i < fall(s, rise(s, pos)) ==> #[trigger] s[i] >= 0,
        fall(s, rise(s, pos)) < s.len() ==> s[fall(s, rise(s, pos))] < 0,
{
    lemma_rise(s, pos);
    lemma_fall(s, rise(s, pos));
}

proof fn lemma_rise(s: Seq<i64>, pos: int)
    requires
        0 <= pos,
    ensures
        rise(s, pos) <= s.len(),
        pos <= s.len() ==> pos <= rise(s, pos),
        rise(s, pos) < s.len() ==> s[rise(s, pos)] > 0,
        forall|i: int| pos <= i < rise(s, pos) && i < s.len() ==> #[trigger] s[i] <= 0,
    decreases s.len() - pos,
{
    if pos < s.len() && s[pos] <= 0 {
        lemma_rise(s, pos + 1);
    }
}

proof fn lemma_fall(s: Seq<i64>, pos: int)
    requires
        0 <= pos,
    ensures
        fall(s, pos) <= s.len(),
        pos <= s.len() ==> pos <= fall(s, pos),
        pos < s.len() && s[pos] >= 0 ==> pos < fall(s, pos),
        fall(s, pos) < s.len() ==> s[fall(s, pos)] < 0,
        forall|i: int| pos <= i < fall(s, pos) ==> #[trigger] s[i] >= 0,
    decreases s.len() - pos,
{
    if pos < s.len() && s[pos] >= 0 {
        lemma_fall(s, pos + 1);
    }
}

/// A value of the autocorrelation over its value at lag zero, as a
/// multiple of `1 / scale`. Over zero, a value counts as the largest or the
/// least there is, by its sign, and zero as zero.
pub open spec fn normalized(value: int, first: int, scale: int) -> int {
    if first > 0 {
        clamp_i64(round_div(value * scale, first))
    } else if first < 0 {
        clamp_i64(round_div(-(value * scale), -first))
    } else if value > 0 {
        i64::MAX as int
    } else if value < 0 {
        i64::MIN as int
    } else {
        0
    }
}

/// `spectrum` holds the normalized autocorrelation at the lags from `lower`
/// up to, not including, `upper`, as far as the buffer has them.
pub open spec fn is_normalized_spectrum(
    buffer: Seq<Complex>,
    lower: int,
    upper: int,
    scale: int,
    spectrum: Seq<i64>,
) -> bool {
    let part = restricted(buffer, lower, upper);
    &&& spectrum.len() == part.len()
    &&& forall|i: int|
        0 <= i < spectrum.len() ==> #[trigger] spectrum[i] == normalized(
            part[i].re as int,
            buffer[0].re as int,
            scale,
        )
}

/// `at` is where the largest amplitude among the points first occurs.
pub open spec fn is_strongest(points: Seq<FftPoint>, at: int) -> bool {
    &&& 0 <= at < points.len()
    &&& forall|j: int| 0 <= j < points.len() ==> (#[trigger] points[j]).y <= points[at].y
    &&& forall|j: int| 0 <= j < at ==> (#[trigger] points[j]).y < points[at].y
}

/// The range of lags that stand for the frequencies from `MAX_FREQ`
/// down to `MIN_FREQ`.
pub fn relevant_fft_range(sample_rate: u32) -> (range: (usize, usize))
    ensures
        range.0 == whole_lag(MAX_FREQ as int, sample_rate as int),
        range.1 == whole_lag(MIN_FREQ as int, sample_rate as int),
{
    let lower_limit = nearest_whole_lag(MAX_FREQ, sample_rate);
    let upper_limit = nearest_whole_lag(MIN_FREQ, sample_rate);
    (lower_limit, upper_limit)
}

/// The autocorrelation at the lags of the range, each over the
/// autocorrelation at lag zero, as multiples of `1 / scale`. The
/// autocorrelation is what the real parts of the buffer hold.
pub fn unscaled_spectrum(buffer: &[Complex], fft_range: (usize, usize), scale: i64) -> (spectrum:
    Vec<i64>)
    requires
        scale > 0,
    ensures
        is_normalized_spectrum(
            buffer@,
            fft_range.0 as int,
            fft_range.1 as int,
            scale as int,
            spectrum@,
        ),
{
    let n = buffer.len();
    let (lower_limit, upper_limit) = fft_range;
    let begin = if lower_limit < n {
        lower_limit
    } else {
        n
    };
    let end = if upper_limit < n {
        upper_limit
    } else {
        n
    };
    let mut spectrum: Vec<i64> = Vec::new();
    if begin >= end {
        return spectrum;
    }
    let first = buffer[0].re;
    let ghost part = restricted(buffer@, lower_limit as int, upper_limit as int);
    let mut i: usize = begin;
    while i < end
        invariant
            begin <= i <= end <= n,
            n == buffer.len(),
            scale > 0,
            first == buffer[0].re,
            part == buffer@.subrange(begin as int, end as int),
            spectrum.len() == i - begin,
            forall|j: int|
                0 <= j < spectrum.len() ==> #[trigger] spectrum[j] == normalized(
                    part[j].re as int,
                    first as int,
                    scale as int,
                ),
        decreases end - i,
    {
        let value = buffer[i].re;
        assert(-0x4000_0000_0000_0000_0000_0000_0000_0000 <= value * scale
            <= 0x4000_0000_0000_0000_0000_0000_0000_0000) by (nonlinear_arith)
            requires
                -0x8000_0000_0000_0000 <= value <= 0x8000_0000_0000_0000,
                0 <= scale <= 0x8000_0000_0000_0000,
        ;
        let scaled: i128 = (value as i128) * (scale as i128);
        let ratio = if first > 0 {
            saturate_i64(div_round(scaled, first as i128))
        } else if first < 0 {
            saturate_i64(div_round(-scaled, -(first as i128)))
        } else if value > 0 {
            i64::MAX
        } else if value < 0 {
            i64::MIN
        } else {
            0
        };
        spectrum.push(ratio);
        i = i + 1;
    }
    spectrum
}

/// Where the first slide ends: the autocorrelation always peaks at lag
/// zero, and the values that slide down from there, as long as they are
/// above the threshold, belong to no pitch.
pub fn skip_first_slide(spectrum: &[i64], threshold: i64) -> (position: usize)
    ensures
        position == slide_end(spectrum@, threshold as int, 0),
        position <= spectrum.len(),
{
    let mut position: usize = 0;
    while position < spectrum.len() && spectrum[position] > threshold
        invariant
            position <= spectrum.len(),
            slide_end(spectrum@, threshold as int, position as int) == slide_end(
                spectrum@,
                threshold as int,
                0,
            ),
        decreases spectrum.len() - position,
    {
        position = position + 1;
    }
    position
}

/// The runs of values that are not below zero, from `position` on, each
/// as the bin it begins at and the bin where it ends, not included.
/// Each run is one peak, to be fitted.
pub fn positive_runs(spectrum: &[i64], position: usize) -> (runs: Vec<(usize, usize)>)
    ensures
        runs@ == runs_from(spectrum@, position as int),
{
    let n = spectrum.len();
    let ghost s = spectrum@;
    let mut runs: Vec<(usize, usize)> = Vec::new();
    let mut pos = if position < n {
        position
    } else {
        n
    };
    proof {
        if position > n {
            assert(runs_from(s, position as int) =~= Seq::empty());
            assert(runs_from(s, n as int) =~= Seq::empty());
        }
    }
    loop
        invariant_except_break
            runs_from(s, position as int) == runs@ + runs_from(s, pos as int),
        invariant
            pos <= n,
            n == spectrum.len(),
            s == spectrum@,
        ensures
            runs@ == runs_from(s, position as int),
        decreases n - pos,
    {
        let ghost start = pos as int;
        proof {
            lemma_run(s, start);
        }
        let mut begin = pos;
        while begin < n && spectrum[begin] <= 0
            invariant
                pos <= begin <= n,
                n == spectrum.len(),
                s == spectrum@,
                rise(s, begin as int) == rise(s, start),
            decreases n - begin,
        {
            begin = begin + 1;
        }
        if begin >= n {
            proof {
                assert(runs_from(s, start) =~= Seq::empty());
                assert(runs@ + Seq::<(usize, usize)>::empty() =~= runs@);
            }
            break ;
        }
        let mut end = begin;
        while end < n && spectrum[end] >= 0
            invariant
                begin <= end <= n,
                n == spectrum.len(),
                s == spectrum@,
                fall(s, end as int) == fall(s, begin as int),
            decreases n - end,
        {
            end = end + 1;
        }
        let ghost before = runs@;
        runs.push((begin, end));
        pos = if end < n {
            end + 1
        } else {
            n
        };
        proof {
            let rest = runs_from(s, after_fall(s, start));
            assert(runs_from(s, start) == seq![(begin, end)] + rest);
            assert(before + (seq![(begin, end)] + rest) =~= before.push((begin, end)) + rest);
        }
    }
    runs
}

/// The fitted peak of the largest amplitude, the first of them where
/// several have it; none where there are no peaks.
pub fn strongest(points: &[FftPoint]) -> (peak: Option<FftPoint>)
    ensures
        points.len() == 0 ==> peak.is_none(),
        points.len() > 0 ==> peak.is_some() && exists|at: int|
            is_strongest(points@, at) && peak.unwrap() == points[at],
{
    if points.len() == 0 {
        return None;
    }
    let mut best: usize = 0;
    let mut i: usize = 1;
    while i < points.len()
        invariant
            1 <= i <= points.len(),
            best < i,
            forall|j: int| 0 <= j < i ==> (#[trigger] points[j]).y <= points[best as int].y,
            forall|j: int| 0 <= j < best ==> (#[trigger] points[j]).y < points[best as int].y,
        decreases points.len() - i,
    {
        if points[i].y > points[best].y {
            best = i;
        }
        i = i + 1;
    }
    assert(is_strongest(points@, best as int));
    Some(points[best])
}

/// Takes the lag where the largest value first occurs and says where in
/// its neighbourhood the peak lies. An empty spectrum has no peak.
pub fn detect_unscaled_freq(spectrum: &[i64]) -> (peak: Option<PeakEstimate>)
    ensures
        spectrum.len() == 0 ==> peak.is_none(),
        spectrum.len() > 0 ==> peak.is_some() && exists|bin: int|
            is_max_bin(spectrum@, bin) && peak.unwrap() == peak_estimate(spectrum@, bin),
{
    match max_bin(spectrum) {
        None => None,
        Some(bin) => match peak_estimate_at(spectrum, bin) {
            Ok(estimate) => Some(estimate),
            Err(_) => None,
        },
    }
}

/// The frequency in millihertz whose period is the lag of the peak, in
/// a spectrum that begins at lag `lower_limit`. Lag zero has no
/// frequency.
pub fn lag_pitch(peak: FftPoint, lower_limit: usize, sample_rate: u32) -> (result: Result<
    i64,
    PitchError,
>)
    ensures
        match peak_frequency(
            BinMapping::Reciprocal,
            peak,
            lower_limit as int,
            sample_rate as int,
        ) {
            Some(freq) => result == Ok::<i64, PitchError>(freq as i64),
            None => result is Err && result->Err_0 is NoPitchDetected,
        },
{
    pitch_at(BinMapping::Reciprocal, peak, lower_limit, sample_rate)
}

/// Every run lies within the values, begins before it ends, and begins at
/// or after the position it was looked for from.
pub proof fn lemma_runs_within(s: Seq<i64>, pos: int)
    requires
        0 <= pos,
        s.len() <= usize::MAX,
    ensures
        forall|k: int|
            0 <= k < runs_from(s, pos).len() ==> pos <= (#[trigger] runs_from(s, pos)[k]).0
                < runs_from(s, pos)[k].1 <= s.len(),
    decreases s.len() - pos,
{
    lemma_run(s, pos);
    if rise(s, pos) < s.len() {
        lemma_runs_within(s, after_fall(s, pos));
        let first = (rise(s, pos) as usize, fall(s, rise(s, pos)) as usize);
        let rest = runs_from(s, after_fall(s, pos));
        assert(runs_from(s, pos) =~= seq![first] + rest);
        assert forall|k: int| 0 <= k < runs_from(s, pos).len() implies pos <= (#[trigger] runs_from(
            s,
            pos,
        )[k]).0 < runs_from(s, pos)[k].1 <= s.len() by {
            if k > 0 {
                assert(runs_from(s, pos)[k] == rest[k - 1]);
            }
        }
    } else {
        assert(runs_from(s, pos) =~= Seq::empty());
    }
}

/// What the fit is given for a run of a spectrum that begins at lag
/// `lower`: the lags of the run, in millionths, and the values there.
pub open spec fn run_request(s: Seq<i64>, run: (usize, usize), lower: usize) -> (
    Seq<i64>,
    Seq<i64>,
) {
    (
        Seq::new((run.1 - run.0) as nat, |i: int| microbins(lower + run.0 + i) as i64),
        s.subrange(run.0 as int, run.1 as int),
    )
}

/// `found` is what `fit` finds for a run.
pub open spec fn is_fit_of_run<F: Fn(Vec<i64>, Vec<i64>) -> Fit>(
    s: Seq<i64>,
    run: (usize, usize),
    lower: usize,
    fit: F,
    found: Fit,
) -> bool {
    exists|x: Vec<i64>, y: Vec<i64>|
        (x@, y@) == run_request(s, run, lower) && #[trigger] fit.ensures((x, y), found)
}

/// `point` is the peak that `fit` finds for a run.
pub open spec fn is_point_of_run<F: Fn(Vec<i64>, Vec<i64>) -> Fit>(
    s: Seq<i64>,
    run: (usize, usize),
    lower: usize,
    fit: F,
    point: FftPoint,
) -> bool {
    exists|found: Fit| #[trigger]
        is_fit_of_run(s, run, lower, fit, found) && fitted(found) == Ok::<FftPoint, PitchError>(
            point,
        )
}

/// `points` holds the fitted peaks of the runs, one after the other, up to
/// the first run whose fit fails.
pub open spec fn are_fitted_runs<F: Fn(Vec<i64>, Vec<i64>) -> Fit>(
    s: Seq<i64>,
    runs: Seq<(usize, usize)>,
    lower: usize,
    fit: F,
    points: Seq<FftPoint>,
) -> bool {
    &&& points.len() <= runs.len()
    &&& forall|k: int|
        0 <= k < points.len() ==> is_point_of_run(s, runs[k], lower, fit, #[trigger] points[k])
    &&& points.len() < runs.len() ==> exists|found: Fit| #[trigger]
        is_fit_of_run(s, runs[points.len() as int], lower, fit, found) && found is Err
}

/// The fitted peaks of the runs of a spectrum that begins at lag `lower`,
/// one after the other, up to the first run whose fit fails. The positions
/// of the peaks count from lag zero.
pub fn fit_runs<F: Fn(Vec<i64>, Vec<i64>) -> Fit>(
    spectrum: &[i64],
    runs: &Vec<(usize, usize)>,
    lower: usize,
    fit: &F,
) -> (points: Vec<FftPoint>)
    requires
        forall|x: Vec<i64>, y: Vec<i64>| #[trigger] fit.requires((x, y)),
        forall|k: int| 0 <= k < runs.len() ==> (#[trigger] runs[k]).0 < runs[k].1 <= spectrum.len(),
    ensures
        are_fitted_runs(spectrum@, runs@, lower, *fit, points@),
{
    let mut points: Vec<FftPoint> = Vec::new();
    let mut k: usize = 0;
    while k < runs.len()
        invariant_except_break
            points.len() == k,
        invariant
            k <= runs.len(),
            points.len() <= k,
            forall|x: Vec<i64>, y: Vec<i64>| #[trigger] fit.requires((x, y)),
            forall|j: int|
                0 <= j < runs.len() ==> (#[trigger] runs[j]).0 < runs[j].1 <= spectrum.len(),
            forall|j: int|
                0 <= j < points.len() ==> is_point_of_run(
                    spectrum@,
                    runs[j],
                    lower,
                    *fit,
                    #[trigger] points[j],
                ),
        ensures
            are_fitted_runs(spectrum@, runs@, lower, *fit, points@),
        decreases runs.len() - k,
    {
        let (begin, end) = runs[k];
        assert(runs[k as int].0 < runs[k as int].1);
        let mut x_vals: Vec<i64> = Vec::new();
        let mut y_vals: Vec<i64> = Vec::new();
        let mut i: usize = begin;
        while i < end
            invariant
                begin <= i <= end <= spectrum.len(),
                x_vals.len() == i - begin,
                y_vals.len() == i - begin,
                forall|j: int|
                    0 <= j < x_vals.len() ==> #[trigger] x_vals[j] == microbins(lower + begin + j),
                forall|j: int| 0 <= j < y_vals.len() ==> #[trigger] y_vals[j] == spectrum[begin + j],
            decreases end - i,
        {
            x_vals.push(saturate_i64(1_000_000 * ((lower as i128) + (i as i128))));
            y_vals.push(spectrum[i]);
            i = i + 1;
        }
        assert(x_vals@ =~= run_request(spectrum@, (begin, end), lower).0);
        assert(y_vals@ =~= run_request(spectrum@, (begin, end), lower).1);
        let ghost xs = x_vals;
        let ghost ys = y_vals;
        let found = fit(x_vals, y_vals);
        assert(fit.ensures((xs, ys), found));
        assert(is_fit_of_run(spectrum@, runs[k as int], lower, *fit, found));
        match found {
            Ok((mu, _, amplitude)) => {
                let ghost before = points@;
                points.push(FftPoint { x: mu, y: amplitude });
                assert forall|j: int| 0 <= j < points.len() implies is_point_of_run(
                    spectrum@,
                    runs[j],
                    lower,
                    *fit,
                    #[trigger] points[j],
                ) by {
                    if j < before.len() {
                        assert(points[j] == before[j]);
                        assert(is_point_of_run(spectrum@, runs[j], lower, *fit, before[j]));
                    }
                }
            },
            Err(_) => {
                break ;
            },
        }
        k = k + 1;
    }
    points
}

/// `after` is what the transforms make of a buffer: the buffer is
/// transformed forward, each value is multiplied by its conjugate, and the
/// buffer is transformed back. A transform that does not keep the length
/// of the buffer leaves nothing done.
pub open spec fn is_processed<T: Fn(&[Complex]) -> Vec<Complex>, I: Fn(&[Complex]) -> Vec<Complex>>(
    before: Seq<Complex>,
    forward: T,
    inverse: I,
    done: bool,
    after: Seq<Complex>,
) -> bool {
    exists|buffer: &[Complex], spectrum: Vec<Complex>|
        {
            &&& buffer@ == before
            &&& #[trigger] forward.ensures((buffer,), spectrum)
            &&& if spectrum.len() != before.len() {
                !done
            } else {
                is_transformed_back(powers(spectrum@), inverse, before.len() as int, done, after)
            }
        }
}

/// `after` is what the inverse transform makes of the powers of a
/// spectrum, where it keeps the length of the buffer; where it does not,
/// nothing is done.
pub open spec fn is_transformed_back<I: Fn(&[Complex]) -> Vec<Complex>>(
    power: Seq<Complex>,
    inverse: I,
    len: int,
    done: bool,
    after: Seq<Complex>,
) -> bool {
    exists|buffer: &[Complex], back: Vec<Complex>|
        {
            &&& buffer@ == power
            &&& #[trigger] inverse.ensures((buffer,), back)
            &&& if back.len() == len {
                done && after == back@
            } else {
                !done
            }
        }
}

/// What the transforms leave: the buffer where they are done, and nothing
/// where they are not.
pub open spec fn what_is_done(done: bool, after: Seq<Complex>) -> Seq<Complex> {
    if done {
        after
    } else {
        Seq::empty()
    }
}

/// `correlation` is the autocorrelation of the signal by way of a buffer of
/// `padded_len` values: what the transforms make of the loaded signal, and
/// nothing where the transforms do not keep the length of the buffer.
pub open spec fn is_autocorrelation_of<T: Fn(&[Complex]) -> Vec<Complex>, I: Fn(&[Complex]) -> Vec<Complex>>(
    signal: Seq<i64>,
    padded_len: int,
    forward: T,
    inverse: I,
    correlation: Seq<Complex>,
) -> bool {
    exists|done: bool, after: Seq<Complex>| #[trigger]
        is_processed(loaded(signal, padded_len), forward, inverse, done, after) && correlation
            == what_is_done(done, after)
}

/// `result` is the pitch that the fitted peaks of the autocorrelation come
/// to: the frequency of the strongest, and none without peaks.
pub open spec fn is_pitch_of_points(
    points: Seq<FftPoint>,
    sample_rate: u32,
    result: Result<i64, PitchError>,
) -> bool {
    if points.len() == 0 {
        result is Err && result->Err_0 is NoPitchDetected
    } else {
        exists|at: int| #[trigger]
            is_strongest(points, at) && is_pitch_of_peak(
                Ok(points[at]),
                BinMapping::Reciprocal,
                0,
                sample_rate,
                result,
            )
    }
}

/// `result` is the pitch in an autocorrelation: its values over the lags
/// that stand for musical pitch are normalized, the slide down from lag
/// zero is passed over, every run of values not below zero is fitted, and
/// the strongest fitted peak decides.
pub open spec fn is_pitch_of_autocorrelation<F: Fn(Vec<i64>, Vec<i64>) -> Fit>(
    correlation: Seq<Complex>,
    sample_rate: u32,
    fit: F,
    result: Result<i64, PitchError>,
) -> bool {
    exists|spectrum: Seq<i64>, points: Seq<FftPoint>|
        is_normalized_spectrum(
            correlation,
            whole_lag(MAX_FREQ as int, sample_rate as int),
            whole_lag(MIN_FREQ as int, sample_rate as int),
            CORRELATION_SCALE as int,
            spectrum,
        ) && #[trigger] are_fitted_runs(
            spectrum,
            runs_from(spectrum, slide_end(spectrum, SLIDE_THRESHOLD as int, 0)),
            whole_lag(MAX_FREQ as int, sample_rate as int) as usize,
            fit,
            points,
        ) && is_pitch_of_points(points, sample_rate, result)
}

impl<
    T: Fn(&[Complex]) -> Vec<Complex>,
    I: Fn(&[Complex]) -> Vec<Complex>,
    F: Fn(Vec<i64>, Vec<i64>) -> Fit,
> AutocorrelationDetector<T, I, F> {
    /// What the detector works with: the forward transform, the inverse
    /// transform, and the curve fit.
    pub closed spec fn collaborators(&self) -> (T, I, F) {
        (self.forward, self.inverse, self.fit)
    }

    /// The detector may ask anything of what it works with.
    pub open spec fn well_formed(&self) -> bool {
        &&& forall|b: &[Complex]| #[trigger] self.collaborators().0.requires((b,))
        &&& forall|b: &[Complex]| #[trigger] self.collaborators().1.requires((b,))
        &&& forall|x: Vec<i64>, y: Vec<i64>| #[trigger] self.collaborators().2.requires((x, y))
    }

    /// A detector with what it works with.
    pub fn new(forward: T, inverse: I, fit: F) -> (detector: Self)
        requires
            forall|b: &[Complex]| #[trigger] forward.requires((b,)),
            forall|b: &[Complex]| #[trigger] inverse.requires((b,)),
            forall|x: Vec<i64>, y: Vec<i64>| #[trigger] fit.requires((x, y)),
        ensures
            detector.well_formed(),
            detector.collaborators() == (forward, inverse, fit),
    {
        Self { forward, inverse, fit }
    }

    /// Turns the signal in the buffer into its autocorrelation: transforms
    /// it forward, multiplies each value by its conjugate, and transforms
    /// it back. Says whether the transforms kept the length of the buffer;
    /// where they did not, the buffer is of no use.
    pub fn process_fft(&self, fft_space: &mut FftSpace) -> (done: bool)
        requires
            self.well_formed(),
            old(fft_space).well_formed(),
        ensures
            final(fft_space).well_formed(),
            final(fft_space)@.len() == old(fft_space)@.len(),
            final(fft_space).spec_signal_len() == old(fft_space).spec_signal_len(),
            is_processed(
                old(fft_space)@,
                self.collaborators().0,
                self.collaborators().1,
                done,
                final(fft_space)@,
            ),
    {
        let n = fft_space.padded_len();
        let buffer = fft_space.space();
        let ghost loaded_buffer: &[Complex] = buffer;
        assert(self.collaborators().0 == self.forward);
        assert(self.collaborators().1 == self.inverse);
        let spectrum = (self.forward)(buffer);
        if spectrum.len() != n {
            return false;
        }
        fft_space.store(spectrum.as_slice());
        fft_space.multiply_by_conjugate();
        let buffer = fft_space.space();
        let ghost power: &[Complex] = buffer;
        let back = (self.inverse)(buffer);
        let done = back.len() == n;
        if done {
            fft_space.store(back.as_slice());
        }
        proof {
            assert(self.collaborators().0.ensures((loaded_buffer,), spectrum));
            assert(self.collaborators().1.ensures((power,), back));
            assert(is_transformed_back(
                powers(spectrum@),
                self.collaborators().1,
                n as int,
                done,
                fft_space@,
            ));
        }
        done
    }

    /// The pitch in millihertz of the signal, with a buffer to work in:
    /// the frequency whose period is the lag of the strongest peak of the
    /// autocorrelation.
    pub fn detect_frequency_with_fft_space(
        &self,
        signal: &[i64],
        sample_rate: u32,
        fft_space: &mut FftSpace,
    ) -> (result: Result<i64, PitchError>)
        requires
            self.well_formed(),
            old(fft_space).well_formed(),
            signal.len() <= old(fft_space)@.len(),
        ensures
            final(fft_space).well_formed(),
            final(fft_space)@.len() == old(fft_space)@.len(),
            is_detected_in_buffer(
                signal@,
                old(fft_space)@.len() as int,
                self.collaborators(),
                sample_rate,
                result,
            ),
    {
        fft_space.init_with_signal(signal);
        let done = self.process_fft(fft_space);
        let fft_range = relevant_fft_range(sample_rate);
        let empty: Vec<Complex> = Vec::new();
        let buffer = if done {
            fft_space.space()
        } else {
            empty.as_slice()
        };
        let ghost correlation = buffer@;
        assert(is_processed(
            loaded(signal@, old(fft_space)@.len() as int),
            self.collaborators().0,
            self.collaborators().1,
            done,
            fft_space@,
        ));
        assert(correlation =~= if done {
            fft_space@
        } else {
            Seq::<Complex>::empty()
        });
        assert(is_autocorrelation_of(
            signal@,
            old(fft_space)@.len() as int,
            self.collaborators().0,
            self.collaborators().1,
            correlation,
        ));
        let spectrum = unscaled_spectrum(buffer, fft_range, CORRELATION_SCALE);
        let position = skip_first_slide(spectrum.as_slice(), SLIDE_THRESHOLD);
        let runs = positive_runs(spectrum.as_slice(), position);
        proof {
            lemma_runs_within(spectrum@, position as int);
        }
        assert(self.collaborators().2 == self.fit);
        let points = fit_runs(spectrum.as_slice(), &runs, fft_range.0, &self.fit);
        let result = match strongest(points.as_slice()) {
            Some(peak) => lag_pitch(peak, 0, sample_rate),
            None => Err(
                PitchError::NoPitchDetected(String::from_str("No peak in the autocorrelation")),
            ),
        };
        proof {
            assert(is_pitch_of_points(points@, sample_rate, result));
            assert(are_fitted_runs(
                spectrum@,
                runs_from(spectrum@, slide_end(spectrum@, SLIDE_THRESHOLD as int, 0)),
                fft_range.0,
                self.collaborators().2,
                points@,
            ));
            let lower = whole_lag(MAX_FREQ as int, sample_rate as int);
            let upper = whole_lag(MIN_FREQ as int, sample_rate as int);
            assert(lower as usize == fft_range.0);
            assert(is_normalized_spectrum(
                correlation,
                lower,
                upper,
                CORRELATION_SCALE as int,
                spectrum@,
            ));
            assert(are_fitted_runs(
                spectrum@,
                runs_from(spectrum@, slide_end(spectrum@, SLIDE_THRESHOLD as int, 0)),
                lower as usize,
                self.collaborators().2,
                points@,
            ));
            assert(is_pitch_of_autocorrelation(
                correlation,
                sample_rate,
                self.collaborators().2,
                result,
            ));
        }
        result
    }

    /// The pitch in millihertz of the signal that the buffer holds: the
    /// frequency whose period is the lag where the autocorrelation is
    /// largest among the lags of musical pitch, refined by its
    /// neighbourhood.
    pub fn detect_with_fft_space(&self, sample_rate: u32, fft_space: &mut FftSpace) -> (result:
        Result<i64, PitchError>)
        requires
            self.well_formed(),
            old(fft_space).well_formed(),
        ensures
            final(fft_space).well_formed(),
            final(fft_space)@.len() == old(fft_space)@.len(),
            exists|done: bool, after: Seq<Complex>, spectrum: Seq<i64>| #[trigger]
                is_processed(
                    old(fft_space)@,
                    self.collaborators().0,
                    self.collaborators().1,
                    done,
                    after,
                ) && #[trigger] is_normalized_spectrum(
                    what_is_done(done, after),
                    whole_lag(MAX_FREQ as int, sample_rate as int),
                    whole_lag(MIN_FREQ as int, sample_rate as int),
                    CORRELATION_SCALE as int,
                    spectrum,
                ) && is_pitch_of_spectrum(
                    (
                        whole_lag(MAX_FREQ as int, sample_rate as int) as usize,
                        whole_lag(MIN_FREQ as int, sample_rate as int) as usize,
                    ),
                    spectrum,
                    self.collaborators().2,
                    BinMapping::Reciprocal,
                    sample_rate,
                    result,
                ),
    {
        let done = self.process_fft(fft_space);
        let fft_range = relevant_fft_range(sample_rate);
        let empty: Vec<Complex> = Vec::new();
        let buffer = if done {
            fft_space.space()
        } else {
            empty.as_slice()
        };
        let ghost correlation = buffer@;
        let spectrum = unscaled_spectrum(buffer, fft_range, CORRELATION_SCALE);
        assert(self.collaborators().2 == self.fit);
        let result = detect_pitch_in_spectrum(
            fft_range,
            spectrum.as_slice(),
            &self.fit,
            BinMapping::Reciprocal,
            sample_rate,
        );
        proof {
            assert(correlation =~= if done {
                fft_space@
            } else {
                Seq::<Complex>::empty()
            });
            assert(is_processed(
                old(fft_space)@,
                self.collaborators().0,
                self.collaborators().1,
                done,
                fft_space@,
            ));
            assert(correlation == what_is_done(done, fft_space@));
            assert(is_normalized_spectrum(
                what_is_done(done, fft_space@),
                whole_lag(MAX_FREQ as int, sample_rate as int),
                whole_lag(MIN_FREQ as int, sample_rate as int),
                CORRELATION_SCALE as int,
                spectrum@,
            ));
        }
        result
    }
}

impl<
    T: Fn(&[Complex]) -> Vec<Complex>,
    I: Fn(&[Complex]) -> Vec<Complex>,
    F: Fn(Vec<i64>, Vec<i64>) -> Fit,
> PitchDetector for AutocorrelationDetector<T, I, F> {
    /// Any signal that a buffer holds, with any range.
    open spec fn accepts(&self, signal: Seq<i64>, sample_rate: u32, freq_range: Range<i64>) -> bool {
        self.well_formed() && signal.len() <= MAX_FFT_LEN
    }

    /// The pitch in the autocorrelation of the signal, computed in a fresh
    /// buffer. The frequency range plays no part: the lags searched are
    /// those of musical pitch.
    open spec fn detects(
        &self,
        signal: Seq<i64>,
        sample_rate: u32,
        freq_range: Range<i64>,
        result: Result<i64, PitchError>,
    ) -> bool {
        exists|padded_len: int|
            crate::common::utils::is_padded_len(signal.len() as int, padded_len)
                && #[trigger] is_detected_in_buffer(
                signal,
                padded_len,
                self.collaborators(),
                sample_rate,
                result,
            )
    }

    fn detect_pitch_in_range(
        &mut self,
        signal: &[i64],
        sample_rate: u32,
        freq_range: Range<i64>,
    ) -> (result: Result<i64, PitchError>)
        ensures
            final(self).well_formed(),
            final(self).collaborators() == old(self).collaborators(),
    {
        let mut fft_space = FftSpace::new(signal.len());
        self.detect_frequency_with_fft_space(signal, sample_rate, &mut fft_space)
    }
}

/// A well-formed detector accepts every signal that a buffer can hold, with
/// any sample rate and any range.
pub proof fn lemma_autocorrelation_accepts<
    T: Fn(&[Complex]) -> Vec<Complex>,
    I: Fn(&[Complex]) -> Vec<Complex>,
    F: Fn(Vec<i64>, Vec<i64>) -> Fit,
>(
    detector: &AutocorrelationDetector<T, I, F>,
    signal: Seq<i64>,
    sample_rate: u32,
    freq_range: Range<i64>,
)
    requires
        detector.well_formed(),
        signal.len() <= MAX_FFT_LEN,
    ensures
        detector.accepts(signal, sample_rate, freq_range),
{
}

/// With a single-valued fit one run has one fit.
proof fn lemma_one_fit_of_run<F: Fn(Vec<i64>, Vec<i64>) -> Fit>(
    s: Seq<i64>,
    run: (usize, usize),
    lower: usize,
    fit: F,
    one: Fit,
    other: Fit,
)
    requires
        is_single_valued_fit(fit),
        is_fit_of_run(s, run, lower, fit, one),
        is_fit_of_run(s, run, lower, fit, other),
    ensures
        one == other,
{
}

/// With a single-valued fit the runs of a spectrum come to one sequence of
/// fitted peaks.
pub proof fn lemma_fitted_runs_unique<F: Fn(Vec<i64>, Vec<i64>) -> Fit>(
    s: Seq<i64>,
    runs: Seq<(usize, usize)>,
    lower: usize,
    fit: F,
    one: Seq<FftPoint>,
    other: Seq<FftPoint>,
)
    requires
        is_single_valued_fit(fit),
        are_fitted_runs(s, runs, lower, fit, one),
        are_fitted_runs(s, runs, lower, fit, other),
    ensures
        one == other,
{
    lemma_fitted_as_far(s, runs, lower, fit, one, other);
    lemma_fitted_as_far(s, runs, lower, fit, other, one);
    assert forall|k: int| 0 <= k < one.len() implies one[k] == other[k] by {
        assert(is_point_of_run(s, runs[k], lower, fit, one[k]));
        assert(is_point_of_run(s, runs[k], lower, fit, other[k]));
        let f1 = choose|found: Fit| #[trigger]
            is_fit_of_run(s, runs[k], lower, fit, found) && fitted(found) == Ok::<
                FftPoint,
                PitchError,
            >(one[k]);
        let f2 = choose|found: Fit| #[trigger]
            is_fit_of_run(s, runs[k], lower, fit, found) && fitted(found) == Ok::<
                FftPoint,
                PitchError,
            >(other[k]);
        lemma_one_fit_of_run(s, runs[k], lower, fit, f1, f2);
    }
    assert(one =~= other);
}

/// With a single-valued fit the fit of a run does not both fail and
/// succeed: of two sequences of fitted peaks none is shorter than the
/// other.
proof fn lemma_fitted_as_far<F: Fn(Vec<i64>, Vec<i64>) -> Fit>(
    s: Seq<i64>,
    runs: Seq<(usize, usize)>,
    lower: usize,
    fit: F,
    one: Seq<FftPoint>,
    other: Seq<FftPoint>,
)
    requires
        is_single_valued_fit(fit),
        are_fitted_runs(s, runs, lower, fit, one),
        are_fitted_runs(s, runs, lower, fit, other),
    ensures
        one.len() >= other.len(),
{
    if one.len() < other.len() {
        let k = one.len() as int;
        let failed = choose|found: Fit| #[trigger]
            is_fit_of_run(s, runs[k], lower, fit, found) && found is Err;
        assert(is_point_of_run(s, runs[k], lower, fit, other[k]));
        let fitting = choose|found: Fit| #[trigger]
            is_fit_of_run(s, runs[k], lower, fit, found) && fitted(found) == Ok::<
                FftPoint,
                PitchError,
            >(other[k]);
        lemma_one_fit_of_run(s, runs[k], lower, fit, failed, fitting);
    }
}

/// With single-valued transforms a buffer is processed to one end.
pub proof fn lemma_processed_once<T: Fn(&[Complex]) -> Vec<Complex>, I: Fn(&[Complex]) -> Vec<Complex>>(
    before: Seq<Complex>,
    forward: T,
    inverse: I,
    one: (bool, Seq<Complex>),
    other: (bool, Seq<Complex>),
)
    requires
        is_single_valued_transform(forward),
        is_single_valued_transform(inverse),
        is_processed(before, forward, inverse, one.0, one.1),
        is_processed(before, forward, inverse, other.0, other.1),
    ensures
        what_is_done(one.0, one.1) == what_is_done(other.0, other.1),
{
    let (b1, s1) = choose|buffer: &[Complex], spectrum: Vec<Complex>|
        {
            &&& buffer@ == before
            &&& #[trigger] forward.ensures((buffer,), spectrum)
            &&& if spectrum.len() != before.len() {
                !one.0
            } else {
                is_transformed_back(powers(spectrum@), inverse, before.len() as int, one.0, one.1)
            }
        };
    let (b2, s2) = choose|buffer: &[Complex], spectrum: Vec<Complex>|
        {
            &&& buffer@ == before
            &&& #[trigger] forward.ensures((buffer,), spectrum)
            &&& if spectrum.len() != before.len() {
                !other.0
            } else {
                is_transformed_back(
                    powers(spectrum@),
                    inverse,
                    before.len() as int,
                    other.0,
                    other.1,
                )
            }
        };
    assert(s1@ == s2@);
    if s1.len() == before.len() {
        let power = powers(s1@);
        let len = before.len() as int;
        let (q1, k1) = choose|buffer: &[Complex], back: Vec<Complex>|
            {
                &&& buffer@ == power
                &&& #[trigger] inverse.ensures((buffer,), back)
                &&& if back.len() == len {
                    one.0 && one.1 == back@
                } else {
                    !one.0
                }
            };
        let (q2, k2) = choose|buffer: &[Complex], back: Vec<Complex>|
            {
                &&& buffer@ == power
                &&& #[trigger] inverse.ensures((buffer,), back)
                &&& if back.len() == len {
                    other.0 && other.1 == back@
                } else {
                    !other.0
                }
            };
        assert(k1@ == k2@);
    }
}

/// A transform is single-valued: of the same buffer it makes the same.
pub open spec fn is_single_valued_transform<T: Fn(&[Complex]) -> Vec<Complex>>(transform: T) -> bool {
    forall|b1: &[Complex], v1: Vec<Complex>, b2: &[Complex], v2: Vec<Complex>| #[trigger]
        transform.ensures((b1,), v1) && #[trigger] transform.ensures((b2,), v2) && b1@ == b2@
            ==> v1@ == v2@
}

/// Detection in a buffer is repeatable, whatever the buffer held before.
/// With single-valued collaborators, what is detected in a signal by way
/// of a buffer of some length is one thing: the same pitch, or an error of
/// the same kind.
pub proof fn lemma_autocorrelation_detection_repeats<
    T: Fn(&[Complex]) -> Vec<Complex>,
    I: Fn(&[Complex]) -> Vec<Complex>,
    F: Fn(Vec<i64>, Vec<i64>) -> Fit,
>(
    signal: Seq<i64>,
    padded_len: int,
    collaborators: (T, I, F),
    sample_rate: u32,
    first: Result<i64, PitchError>,
    second: Result<i64, PitchError>,
)
    requires
        is_single_valued_transform(collaborators.0),
        is_single_valued_transform(collaborators.1),
        is_single_valued_fit(collaborators.2),
        is_detected_in_buffer(signal, padded_len, collaborators, sample_rate, first),
        is_detected_in_buffer(signal, padded_len, collaborators, sample_rate, second),
    ensures
        same_outcome(first, second),
{
    let (forward, inverse, fit) = collaborators;
    let c1 = choose|correlation: Seq<Complex>| #[trigger]
        is_autocorrelation_of(signal, padded_len, forward, inverse, correlation)
            && is_pitch_of_autocorrelation(correlation, sample_rate, fit, first);
    let c2 = choose|correlation: Seq<Complex>| #[trigger]
        is_autocorrelation_of(signal, padded_len, forward, inverse, correlation)
            && is_pitch_of_autocorrelation(correlation, sample_rate, fit, second);
    let before = loaded(signal, padded_len);
    let (d1, a1) = choose|done: bool, after: Seq<Complex>| #[trigger]
        is_processed(before, forward, inverse, done, after) && c1 == what_is_done(done, after);
    let (d2, a2) = choose|done: bool, after: Seq<Complex>| #[trigger]
        is_processed(before, forward, inverse, done, after) && c2 == what_is_done(done, after);
    lemma_processed_once(before, forward, inverse, (d1, a1), (d2, a2));
    assert(c1 == c2);
    let lower = whole_lag(MAX_FREQ as int, sample_rate as int);
    let upper = whole_lag(MIN_FREQ as int, sample_rate as int);
    let (s1, points_one) = choose|spectrum: Seq<i64>, points: Seq<FftPoint>|
        is_normalized_spectrum(c1, lower, upper, CORRELATION_SCALE as int, spectrum)
            && #[trigger] are_fitted_runs(
            spectrum,
            runs_from(spectrum, slide_end(spectrum, SLIDE_THRESHOLD as int, 0)),
            lower as usize,
            fit,
            points,
        ) && is_pitch_of_points(points, sample_rate, first);
    let (s2, points_two) = choose|spectrum: Seq<i64>, points: Seq<FftPoint>|
        is_normalized_spectrum(c1, lower, upper, CORRELATION_SCALE as int, spectrum)
            && #[trigger] are_fitted_runs(
            spectrum,
            runs_from(spectrum, slide_end(spectrum, SLIDE_THRESHOLD as int, 0)),
            lower as usize,
            fit,
            points,
        ) && is_pitch_of_points(points, sample_rate, second);
    assert(s1 =~= s2);
    lemma_fitted_runs_unique(
        s1,
        runs_from(s1, slide_end(s1, SLIDE_THRESHOLD as int, 0)),
        lower as usize,
        fit,
        points_one,
        points_two,
    );
    if points_one.len() > 0 {
        let at1 = choose|at: int| #[trigger]
            is_strongest(points_one, at) && is_pitch_of_peak(
                Ok(points_one[at]),
                BinMapping::Reciprocal,
                0,
                sample_rate,
                first,
            );
        let at2 = choose|at: int| #[trigger]
            is_strongest(points_one, at) && is_pitch_of_peak(
                Ok(points_one[at]),
                BinMapping::Reciprocal,
                0,
                sample_rate,
                second,
            );
        assert(at1 == at2);
    }
}

/// `result` is what is detected in a signal by way of a buffer of
/// `padded_len` values: the pitch in the autocorrelation that the
/// transforms make of the loaded signal.
pub open spec fn is_detected_in_buffer<
    T: Fn(&[Complex]) -> Vec<Complex>,
    I: Fn(&[Complex]) -> Vec<Complex>,
    F: Fn(Vec<i64>, Vec<i64>) -> Fit,
>(
    signal: Seq<i64>,
    padded_len: int,
    collaborators: (T, I, F),
    sample_rate: u32,
    result: Result<i64, PitchError>,
) -> bool {
    exists|correlation: Seq<Complex>| #[trigger]
        is_autocorrelation_of(signal, padded_len, collaborators.0, collaborators.1, correlation)
            && is_pitch_of_autocorrelation(correlation, sample_rate, collaborators.2, result)
}

} // verus!
