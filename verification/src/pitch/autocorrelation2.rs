//! Pitch by the difference function of the signal, normalized by its
//! cumulative mean: the first lag whose normalized difference dips below a
//! threshold and below that of the lag after it.
use crate::common::error::PitchError;
use crate::common::fixed::{clamp_i64, ratio_less, ratio_lt};
use crate::common::into_frequency_domain::{reciprocal, BinMapping};
use crate::pitch::autocorrelation::MAX_SIGNAL_LEN;
use crate::pitch::{is_sampled, nearest_whole_lag, whole_lag, PitchDetector};
use std::ops::Range;
use vstd::prelude::*;
use vstd::string::StringExecFns;

verus! {

/// The sum of the squared differences between the first `k` samples and the
/// samples `tau` places further on.
pub open spec fn squared_difference_sum(s: Seq<i64>, tau: int, k: int) -> int
    decreases k,
{
    if k <= 0 {
        0
    } else {
        squared_difference_sum(s, tau, k - 1) + (s[k - 1] - s[k - 1 + tau]) * (s[k - 1] - s[k - 1
            + tau])
    }
}

/// The difference function at lag `tau`; zero at lag zero.
pub open spec fn yin_difference(s: Seq<i64>, tau: int) -> int {
    if tau <= 0 {
        0
    } else {
        squared_difference_sum(s, tau, s.len() - tau)
    }
}

/// The sum of the difference function over the lags from 1 to `tau`.
pub open spec fn running_sum(s: Seq<i64>, tau: int) -> int
    decreases tau,
{
    if tau <= 0 {
        0
    } else {
        running_sum(s, tau - 1) + yin_difference(s, tau)
    }
}

/// Whether the normalized difference at lag `tau` is below the threshold,
/// given in thousandths. The normalized difference at a lag is the
/// difference there over the mean of the differences up to there.
pub open spec fn below_threshold(s: Seq<i64>, tau: int, threshold: int) -> bool {
    ratio_lt(yin_difference(s, tau) * tau, running_sum(s, tau), threshold, 1000)
}

/// Whether the normalized difference at lag `tau` is less than the one at
/// the lag after it.
pub open spec fn below_next(s: Seq<i64>, tau: int) -> bool {
    ratio_lt(
        yin_difference(s, tau) * tau,
        running_sum(s, tau),
        yin_difference(s, tau + 1) * (tau + 1),
        running_sum(s, tau + 1),
    )
}

/// Whether lag `tau` is a pitch period among `max_lag` lags.
pub open spec fn is_period(s: Seq<i64>, max_lag: int, threshold: int, tau: int) -> bool {
    &&& 1 <= tau
    &&& tau + 1 < max_lag
    &&& below_threshold(s, tau, threshold)
    &&& below_next(s, tau)
}

/// Lag `tau` is the first pitch period among `max_lag` lags.
pub open spec fn is_first_period(s: Seq<i64>, max_lag: int, threshold: int, tau: int) -> bool {
    &&& is_period(s, max_lag, threshold, tau)
    &&& forall|t: int| 1 <= t < tau ==> !is_period(s, max_lag, threshold, t)
}

/// `result` is what the search among `max_lag` lags comes to: the
/// frequency of the first pitch period, or no pitch where there is no
/// pitch period.
pub open spec fn is_yin_result(
    s: Seq<i64>,
    sample_rate: int,
    threshold: int,
    max_lag: int,
    result: Result<i64, PitchError>,
) -> bool {
    match result {
        Ok(freq) => exists|tau: int|
            is_first_period(s, max_lag, threshold, tau) && freq == clamp_i64(
                reciprocal(1_000_000 * tau, sample_rate),
            ),
        Err(e) => e is NoPitchDetected && forall|tau: int| !is_period(s, max_lag, threshold, tau),
    }
}

/// The difference function at lag `tau`.
fn difference_at(signal: &[i64], tau: usize) -> (d: i64)
    requires
        1 <= tau <= signal.len() <= MAX_SIGNAL_LEN,
        is_sampled(signal@),
    ensures
        d == yin_difference(signal@, tau as int),
        0 <= d <= 0x1_0000_0000 * (signal.len() - tau),
        d < 0x8000_0000_0000_0000,
{
    let count = signal.len() - tau;
    let mut sum: i64 = 0;
    let mut i: usize = 0;
    while i < count
        invariant
            i <= count,
            count == signal.len() - tau,
            signal.len() <= MAX_SIGNAL_LEN,
            is_sampled(signal@),
            sum == squared_difference_sum(signal@, tau as int, i as int),
            0 <= sum <= 0x1_0000_0000 * i,
        decreases count - i,
    {
        let delta = signal[i] - signal[i + tau];
        assert(0 <= delta * delta <= 0x1_0000_0000) by (nonlinear_arith)
            requires
                -0x1_0000 <= delta <= 0x1_0000,
        ;
        sum = sum + delta * delta;
        i = i + 1;
    }
    sum
}

/// The difference function over `max_lag` lags, from lag zero on.
fn difference_function(signal: &[i64], max_lag: usize) -> (diff: Vec<i64>)
    requires
        signal.len() <= MAX_SIGNAL_LEN,
        is_sampled(signal@),
        max_lag <= signal.len() + 1,
    ensures
        diff.len() == max_lag,
        forall|tau: int|
            0 <= tau < max_lag ==> #[trigger] diff[tau] == yin_difference(signal@, tau),
        forall|tau: int| 0 <= tau < max_lag ==> 0 <= #[trigger] diff[tau] < 0x8000_0000_0000_0000,
{
    let mut diff: Vec<i64> = Vec::new();
    if max_lag == 0 {
        return diff;
    }
    diff.push(0);
    let mut tau: usize = 1;
    while tau < max_lag
        invariant
            1 <= tau <= max_lag,
            max_lag <= signal.len() + 1,
            signal.len() <= MAX_SIGNAL_LEN,
            is_sampled(signal@),
            diff.len() == tau,
            forall|t: int| 0 <= t < tau ==> #[trigger] diff[t] == yin_difference(signal@, t),
            forall|t: int| 0 <= t < tau ==> 0 <= #[trigger] diff[t] < 0x8000_0000_0000_0000,
        decreases max_lag - tau,
    {
        let d = difference_at(signal, tau);
        diff.push(d);
        tau = tau + 1;
    }
    diff
}

/// The pitch in millihertz by the difference function: the sample rate
/// over the first lag among `max_lag` lags whose normalized difference is
/// below the threshold, given in thousandths, and below that of the next
/// lag. Without such a lag no pitch is detected.
pub fn yin_pitch(signal: &[i64], sample_rate: u32, threshold: i64, max_lag: usize) -> (result:
    Result<i64, PitchError>)
    requires
        signal.len() <= MAX_SIGNAL_LEN,
        is_sampled(signal@),
        1 <= max_lag <= signal.len() + 1,
    ensures
        is_yin_result(signal@, sample_rate as int, threshold as int, max_lag as int, result),
{
    let diff = difference_function(signal, max_lag);
    let ghost s = signal@;
    if max_lag >= 3 {
        let mut running: i128 = diff[1] as i128;
        assert(running_sum(s, 1) == yin_difference(s, 1)) by {
            assert(running_sum(s, 0) == 0);
        }
        let mut tau: usize = 1;
        while tau + 1 < max_lag
            invariant
                1 <= tau < max_lag,
                3 <= max_lag <= signal.len() + 1,
                signal.len() <= MAX_SIGNAL_LEN,
                diff.len() == max_lag,
                s == signal@,
                forall|t: int| 0 <= t < max_lag ==> #[trigger] diff[t] == yin_difference(s, t),
                forall|t: int| 0 <= t < max_lag ==> 0 <= #[trigger] diff[t] < 0x8000_0000_0000_0000,
                running == running_sum(s, tau as int),
                0 <= running <= 0x8000_0000_0000_0000 * tau,
                forall|t: int| 1 <= t < tau ==> !is_period(s, max_lag as int, threshold as int, t),
            decreases max_lag - tau,
        {
            let d = diff[tau] as i128;
            let next = diff[tau + 1] as i128;
            let next_running = running + next;
            assert(0 <= d * tau <= 0x1_0000_0000_0000_0000_0000_0000) by (nonlinear_arith)
                requires
                    0 <= d <= 0x8000_0000_0000_0000,
                    0 <= tau <= 0x1_0000_0000,
            ;
            assert(0 <= next * (tau + 1) <= 0x1_0000_0000_0000_0000_0000_0000)
                by (nonlinear_arith)
                requires
                    0 <= next <= 0x8000_0000_0000_0000,
                    0 <= tau + 1 <= 0x1_0000_0000,
            ;
            assert(0 <= 0x8000_0000_0000_0000 * tau <= 0x1_0000_0000_0000_0000_0000_0000)
                by (nonlinear_arith)
                requires
                    0 <= tau <= 0x1_0000_0000,
            ;
            if ratio_less(d * (tau as i128), running, threshold as i128, 1000) {
                if ratio_less(d * (tau as i128), running, next * ((tau + 1) as i128), next_running) {
                    assert(is_first_period(s, max_lag as int, threshold as int, tau as int));
                    return match BinMapping::Reciprocal.bin_to_freq(
                        1_000_000 * (tau as i64),
                        sample_rate,
                    ) {
                        Some(freq) => Ok(freq),
                        None => Err(
                            PitchError::NoPitchDetected(String::from_str("No pitch detected")),
                        ),
                    };
                }
            }
            running = next_running;
            tau = tau + 1;
        }
    }
    Err(PitchError::NoPitchDetected(String::from_str("No pitch detected")))
}

/// Detects a pitch by the difference function of the signal.
pub struct Autocorrelation2 {
    /// In thousandths; a typical value is around a tenth.
    threshold: i64,
}

impl Autocorrelation2 {
    /// A detector with the given threshold, in thousandths.
    pub fn new(threshold: i64) -> (detector: Self)
        ensures
            detector.threshold() == threshold,
    {
        Self { threshold }
    }

    /// The threshold, in thousandths.
    pub closed spec fn threshold(&self) -> i64 {
        self.threshold
    }
}

impl PitchDetector for Autocorrelation2 {
    /// A signal of samples of 16 bits that a buffer could hold, with a
    /// range whose lowest frequency has a period that the signal leaves
    /// room for.
    open spec fn accepts(&self, signal: Seq<i64>, sample_rate: u32, freq_range: Range<i64>) -> bool {
        &&& signal.len() <= MAX_SIGNAL_LEN
        &&& is_sampled(signal)
        &&& 1 <= whole_lag(freq_range.start as int, sample_rate as int) <= signal.len() + 1
    }

    /// The frequency of the first pitch period among the lags below the
    /// period of the lowest frequency of the range.
    open spec fn detects(
        &self,
        signal: Seq<i64>,
        sample_rate: u32,
        freq_range: Range<i64>,
        result: Result<i64, PitchError>,
    ) -> bool {
        is_yin_result(
            signal,
            sample_rate as int,
            self.threshold() as int,
            whole_lag(freq_range.start as int, sample_rate as int),
            result,
        )
    }

    /// The pitch in millihertz within the frequency range: the lags
    /// searched end before the lag of the lowest frequency in question.
    fn detect_pitch_in_range(
        &mut self,
        signal: &[i64],
        sample_rate: u32,
        freq_range: Range<i64>,
    ) -> (result: Result<i64, PitchError>)
        ensures
            final(self).threshold() == old(self).threshold(),
    {
        let max_lag = nearest_whole_lag(freq_range.start, sample_rate);
        yin_pitch(signal, sample_rate, self.threshold, max_lag)
    }
}

} // verus!
