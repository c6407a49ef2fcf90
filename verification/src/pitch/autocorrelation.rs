//! Pitch from the autocorrelation of the signal in the time domain.
use crate::common::error::PitchError;
use crate::common::fixed::{clamp_i64, lemma_ratio_order, ratio_less, ratio_lt};
use crate::common::into_frequency_domain::{reciprocal, BinMapping};
use crate::pitch::{is_sampled, PitchDetector};
use std::ops::Range;
use vstd::prelude::*;
use vstd::string::StringExecFns;

verus! {

/// The longest signal that the time-domain detectors take: as long as the
/// longest that a buffer holds.
///
/// The bound is one of width. The detectors add up products of samples and
/// multiply such sums by lags, in 128 bits. With samples of at most 2^15 a
/// product of two samples is at most 2^30, the difference at a lag at most
/// 2^31 times the length, and the difference at a lag times the lag at
/// most 2^31 times the square of the length: at this length that is 2^93.
pub const MAX_SIGNAL_LEN: usize = 0x8000_0000;

/// The sum of the products of the first `k` samples with the samples `tau`
/// places further on.
pub open spec fn lag_sum(s: Seq<i64>, tau: int, k: int) -> int
    decreases k,
{
    if k <= 0 {
        0
    } else {
        lag_sum(s, tau, k - 1) + s[k - 1] * s[k - 1 + tau]
    }
}

/// The autocorrelation of the signal at lag `tau`.
pub open spec fn autocorrelation(s: Seq<i64>, tau: int) -> int {
    lag_sum(s, tau, s.len() - tau)
}

/// The difference function: how far the autocorrelation at lag `tau` falls
/// short of the one at lag zero.
pub open spec fn difference(s: Seq<i64>, tau: int) -> int {
    autocorrelation(s, 0) - autocorrelation(s, tau)
}

/// The sum of the difference function over the lags from 1 to `tau`.
pub open spec fn cumulative_difference(s: Seq<i64>, tau: int) -> int
    decreases tau,
{
    if tau <= 0 {
        0
    } else {
        cumulative_difference(s, tau - 1) + difference(s, tau)
    }
}

/// Whether the normalized difference at lag `a` is less than the one at lag
/// `b`. The normalized difference at a lag is the difference there over the
/// mean of the differences up to there.
pub open spec fn normalized_less(s: Seq<i64>, a: int, b: int) -> bool {
    ratio_lt(
        difference(s, a) * a,
        cumulative_difference(s, a),
        difference(s, b) * b,
        cumulative_difference(s, b),
    )
}

/// The lag chosen among the lags below `k`: lag 1 to begin with, and after
/// it each lag whose normalized difference is less than that of the lag
/// chosen so far.
pub open spec fn best_lag(s: Seq<i64>, k: int) -> int
    decreases k,
{
    if k <= 2 {
        1
    } else {
        let chosen = best_lag(s, k - 1);
        if normalized_less(s, k - 1, chosen) {
            k - 1
        } else {
            chosen
        }
    }
}

/// Where the differences add up to more than zero at every lag, the chosen
/// lag is the first of the least normalized difference: no lag has a
/// normalized difference less than its own, and its own is less than that
/// of every lag before it.
pub proof fn lemma_best_lag_is_first_least(s: Seq<i64>, k: int)
    requires
        k >= 2,
        forall|t: int| 1 <= t < k ==> #[trigger] cumulative_difference(s, t) > 0,
    ensures
        1 <= best_lag(s, k) < k,
        forall|t: int| 1 <= t < k ==> !#[trigger] normalized_less(s, t, best_lag(s, k)),
        forall|t: int| 1 <= t < best_lag(s, k) ==> #[trigger] normalized_less(s, best_lag(s, k), t),
    decreases k,
{
    if k > 2 {
        lemma_best_lag_is_first_least(s, k - 1);
        let chosen = best_lag(s, k - 1);
        let last = k - 1;
        assert(cumulative_difference(s, last) > 0);
        assert(cumulative_difference(s, chosen) > 0);
        if normalized_less(s, last, chosen) {
            assert forall|t: int| 1 <= t < k implies !#[trigger] normalized_less(s, t, last) by {
                assert(cumulative_difference(s, t) > 0);
                if t < last {
                    assert(!normalized_less(s, t, chosen));
                    lemma_ratio_order(
                        difference(s, last) * last,
                        cumulative_difference(s, last),
                        difference(s, chosen) * chosen,
                        cumulative_difference(s, chosen),
                        difference(s, t) * t,
                        cumulative_difference(s, t),
                    );
                    lemma_ratio_order(
                        difference(s, t) * t,
                        cumulative_difference(s, t),
                        difference(s, last) * last,
                        cumulative_difference(s, last),
                        difference(s, chosen) * chosen,
                        cumulative_difference(s, chosen),
                    );
                }
            }
            assert forall|t: int| 1 <= t < last implies #[trigger] normalized_less(s, last, t) by {
                assert(cumulative_difference(s, t) > 0);
                assert(!normalized_less(s, t, chosen));
                lemma_ratio_order(
                    difference(s, last) * last,
                    cumulative_difference(s, last),
                    difference(s, chosen) * chosen,
                    cumulative_difference(s, chosen),
                    difference(s, t) * t,
                    cumulative_difference(s, t),
                );
            }
        }
    } else {
        assert(cumulative_difference(s, 1) > 0);
    }
}

/// The autocorrelation of the signal at lag `tau`.
fn correlate(signal: &[i64], tau: usize) -> (r: i64)
    requires
        tau <= signal.len() <= MAX_SIGNAL_LEN,
        is_sampled(signal@),
    ensures
        r == autocorrelation(signal@, tau as int),
        -0x4000_0000 * (signal.len() - tau) <= r <= 0x4000_0000 * (signal.len() - tau),
{
    let count = signal.len() - tau;
    let mut sum: i64 = 0;
    let mut i: usize = 0;
    while i < count
        invariant
            i <= count,
            count == signal.len() - tau,
            signal.len() <= MAX_SIGNAL_LEN,
            is_sampled(signal@),
            sum == lag_sum(signal@, tau as int, i as int),
            -0x4000_0000 * i <= sum <= 0x4000_0000 * i,
        decreases count - i,
    {
        let a = signal[i];
        let b = signal[i + tau];
        assert(-0x4000_0000 <= a * b <= 0x4000_0000) by (nonlinear_arith)
            requires
                -0x8000 <= a <= 0x8000,
                -0x8000 <= b <= 0x8000,
        ;
        sum = sum + a * b;
        i = i + 1;
    }
    sum
}

/// Detects a pitch by the lag at which the signal best repeats itself.
pub struct Autocorrelation;

impl PitchDetector for Autocorrelation {
    /// Any signal of samples of 16 bits that a buffer could hold, with any
    /// range.
    open spec fn accepts(&self, signal: Seq<i64>, sample_rate: u32, freq_range: Range<i64>) -> bool {
        signal.len() <= MAX_SIGNAL_LEN && is_sampled(signal)
    }

    /// The frequency whose period is the lag with the least normalized
    /// difference: the sample rate over that lag. The frequency range
    /// plays no part.
    open spec fn detects(
        &self,
        signal: Seq<i64>,
        sample_rate: u32,
        freq_range: Range<i64>,
        result: Result<i64, PitchError>,
    ) -> bool {
        result == Ok::<i64, PitchError>(
            clamp_i64(
                reciprocal(1_000_000 * best_lag(signal, signal.len() as int), sample_rate as int),
            ) as i64,
        )
    }

    /// The frequency in millihertz whose period is the lag with the least
    /// normalized difference. A signal of fewer than three samples has
    /// lag 1.
    fn detect_pitch_in_range(
        &mut self,
        signal: &[i64],
        sample_rate: u32,
        freq_range: Range<i64>,
    ) -> (result: Result<i64, PitchError>)
    {
        let n = signal.len();
        let mut min_tau: usize = 1;
        if n > 2 {
            let r0 = correlate(signal, 0);
            let ghost s = signal@;
            // the difference and the sum of differences at the chosen lag
            let mut min_d: i128 = (r0 - correlate(signal, 1)) as i128;
            let mut min_cum: i128 = min_d;
            let mut cumulative: i128 = min_d;
            assert(cumulative_difference(s, 1) == difference(s, 1)) by {
                assert(cumulative_difference(s, 0) == 0);
            }
            let mut tau: usize = 2;
            while tau < n
                invariant
                    2 <= tau <= n,
                    n == signal.len(),
                    n <= MAX_SIGNAL_LEN,
                    s == signal@,
                    is_sampled(s),
                    r0 == autocorrelation(s, 0),
                    -0x2000_0000_0000_0000 <= r0 <= 0x2000_0000_0000_0000,
                    1 <= min_tau < tau,
                    min_tau == best_lag(s, tau as int),
                    min_d == difference(s, min_tau as int),
                    min_cum == cumulative_difference(s, min_tau as int),
                    cumulative == cumulative_difference(s, tau - 1),
                    -0x4000_0000_0000_0000 <= min_d <= 0x4000_0000_0000_0000,
                    -0x4000_0000_0000_0000 * (tau - 1) <= cumulative <= 0x4000_0000_0000_0000 * (tau
                        - 1),
                decreases n - tau,
            {
                let r = correlate(signal, tau);
                let d: i128 = (r0 - r) as i128;
                assert(-0x2000_0000_0000_0000_0000_0000 <= d * tau
                    <= 0x2000_0000_0000_0000_0000_0000) by (nonlinear_arith)
                    requires
                        -0x4000_0000_0000_0000 <= d <= 0x4000_0000_0000_0000,
                        0 <= tau <= 0x8000_0000,
                ;
                assert(-0x2000_0000_0000_0000_0000_0000 <= min_d * min_tau
                    <= 0x2000_0000_0000_0000_0000_0000) by (nonlinear_arith)
                    requires
                        -0x4000_0000_0000_0000 <= min_d <= 0x4000_0000_0000_0000,
                        0 <= min_tau <= 0x8000_0000,
                ;
                assert(-0x2000_0000_0000_0000_0000_0000 <= 0x4000_0000_0000_0000 * (tau - 1)
                    <= 0x2000_0000_0000_0000_0000_0000) by (nonlinear_arith)
                    requires
                        1 <= tau <= 0x8000_0000,
                ;
                cumulative = cumulative + d;
                if ratio_less(d * (tau as i128), cumulative, min_d * (min_tau as i128), min_cum) {
                    min_tau = tau;
                    min_d = d;
                    min_cum = cumulative;
                }
                tau = tau + 1;
            }
        }
        let lag: i64 = 1_000_000 * (min_tau as i64);
        match BinMapping::Reciprocal.bin_to_freq(lag, sample_rate) {
            Some(freq) => Ok(freq),
            None => Err(PitchError::UnexpectedError(String::from_str("First minimum was invalid"))),
        }
    }
}

} // verus!
