//! Pitch from the largest value of the cepstrum within the range of lags
//! in question.
use crate::common::error::PitchError;
use crate::common::fft_space::Complex;
use crate::common::fixed::{clamp_i64, microbins, to_microbins};
use crate::common::into_frequency_domain::{reciprocal, BinMapping};
use crate::pitch::{nearest_whole_lag, whole_lag, PitchDetector};
use std::ops::Range;
use vstd::prelude::*;
use vstd::string::StringExecFns;

verus! {

/// The position where the largest squared magnitude among the values from
/// `begin` up to, not including, `end` first occurs; `begin` where there
/// are no such values.
pub open spec fn first_power_max(c: Seq<Complex>, begin: int, end: int) -> int
    decreases end - begin,
{
    if end - begin <= 1 {
        begin
    } else {
        let before = first_power_max(c, begin, end - 1);
        if c[end - 1].spec_norm_sqr() > c[before].spec_norm_sqr() {
            end - 1
        } else {
            before
        }
    }
}

/// The peak has the largest squared magnitude of the values searched, and
/// is the first of them to have it.
pub proof fn lemma_first_power_max(c: Seq<Complex>, begin: int, end: int)
    requires
        0 <= begin < end <= c.len(),
    ensures
        begin <= first_power_max(c, begin, end) < end,
        forall|i: int|
            begin <= i < end ==> (#[trigger] c[i]).spec_norm_sqr() <= c[first_power_max(
                c,
                begin,
                end,
            )].spec_norm_sqr(),
        forall|i: int|
            begin <= i < first_power_max(c, begin, end) ==> (#[trigger] c[i]).spec_norm_sqr()
                < c[first_power_max(c, begin, end)].spec_norm_sqr(),
    decreases end - begin,
{
    if end - begin > 1 {
        lemma_first_power_max(c, begin, end - 1);
    }
}

/// The lag that the search ends before: the lag of the lower end of the
/// frequency range, or the length of the cepstrum if that is less.
pub open spec fn search_end(len: int, freq_range: Range<i64>, sample_rate: int) -> int {
    let end = whole_lag(freq_range.start as int, sample_rate);
    if end < len {
        end
    } else {
        len
    }
}

/// The lag of the pitch: where the largest squared magnitude first occurs
/// among the lags of the frequency range.
pub open spec fn pitch_lag(c: Seq<Complex>, sample_rate: int, freq_range: Range<i64>) -> int {
    first_power_max(
        c,
        whole_lag(freq_range.end as int, sample_rate),
        search_end(c.len() as int, freq_range, sample_rate),
    )
}

/// `result` is the pitch that a cepstrum shows within a frequency range:
/// the sample rate over the lag of its largest value there. A cepstrum that
/// ends before the first lag cannot be searched; lag zero is no pitch.
pub open spec fn is_pitch_of_cepstrum(
    c: Seq<Complex>,
    sample_rate: u32,
    freq_range: Range<i64>,
    result: Result<i64, PitchError>,
) -> bool {
    if whole_lag(freq_range.end as int, sample_rate as int) >= c.len() {
        result is Err && result->Err_0 is IncorrectParameters
    } else {
        let lag = pitch_lag(c, sample_rate as int, freq_range);
        if lag == 0 {
            result is Err && result->Err_0 is NoPitchDetected
        } else {
            result == Ok::<i64, PitchError>(
                clamp_i64(reciprocal(microbins(lag), sample_rate as int)) as i64,
            )
        }
    }
}

/// The pitch in millihertz that a cepstrum shows within a frequency range:
/// the sample rate over the lag of its largest value there. The lags
/// searched begin at the lag of the upper end of the range, which low
/// quefrencies lie below, and end before the lag of its lower end.
pub fn pitch_of_cepstrum(cepstrum: &[Complex], sample_rate: u32, freq_range: Range<i64>) -> (result:
    Result<i64, PitchError>)
    ensures
        is_pitch_of_cepstrum(cepstrum@, sample_rate, freq_range, result),
{
    let start_index = nearest_whole_lag(freq_range.end, sample_rate);
    let end_index = nearest_whole_lag(freq_range.start, sample_rate);
    if start_index >= cepstrum.len() {
        return Err(
            PitchError::IncorrectParameters(
                String::from_str("Frequency range lies beyond the cepstrum"),
            ),
        );
    }
    let end = if end_index < cepstrum.len() {
        end_index
    } else {
        cepstrum.len()
    };
    let mut max_quefrency_index = start_index;
    let mut max_value = cepstrum[start_index].norm_sqr();
    let mut i = start_index + 1;
    if i < end {
        while i < end
            invariant
                start_index < i <= end <= cepstrum.len(),
                start_index <= max_quefrency_index < i,
                max_quefrency_index == first_power_max(cepstrum@, start_index as int, i as int),
                max_value == cepstrum[max_quefrency_index as int].spec_norm_sqr(),
            decreases end - i,
        {
            let value = cepstrum[i].norm_sqr();
            if value > max_value {
                max_value = value;
                max_quefrency_index = i;
            }
            i = i + 1;
        }
    }
    if max_quefrency_index > 0 {
        let lag = to_microbins(max_quefrency_index);
        match BinMapping::Reciprocal.bin_to_freq(lag, sample_rate) {
            Some(freq) => Ok(freq),
            None => Err(PitchError::NoPitchDetected(String::from_str("No pitch detected"))),
        }
    } else {
        Err(PitchError::NoPitchDetected(String::from_str("No pitch detected")))
    }
}

/// Cepstrum computation for pitch detection: the pitch that the cepstrum
/// of the signal shows within the frequency range, with `cepstrum` to give
/// the cepstrum of a signal, which is the transform of the logarithm of the
/// power of its transform.
pub fn cepstrum_pitch<C: Fn(&[i64]) -> Vec<Complex>>(
    signal: &[i64],
    sample_rate: u32,
    freq_range: Range<i64>,
    cepstrum: &C,
) -> (result: Result<i64, PitchError>)
    requires
        forall|s: &[i64]| #[trigger] cepstrum.requires((s,)),
    ensures
        exists|c: Vec<Complex>| #[trigger]
            cepstrum.ensures((signal,), c) && is_pitch_of_cepstrum(
                c@,
                sample_rate,
                freq_range,
                result,
            ),
{
    let c = cepstrum(signal);
    let result = pitch_of_cepstrum(c.as_slice(), sample_rate, freq_range);
    assert(cepstrum.ensures((signal,), c));
    result
}

/// Detects a pitch as the largest value of the cepstrum, with `cepstrum`
/// to give the cepstrum of a signal.
pub struct Cepstrum2<C> {
    cepstrum: C,
}

impl<C: Fn(&[i64]) -> Vec<Complex>> Cepstrum2<C> {
    /// What gives the cepstrum of a signal.
    pub closed spec fn cepstrum(&self) -> C {
        self.cepstrum
    }

    /// The detector may ask for the cepstrum of any signal.
    pub open spec fn well_formed(&self) -> bool {
        forall|s: &[i64]| #[trigger] self.cepstrum().requires((s,))
    }

    /// A detector with what it works with.
    pub fn new(cepstrum: C) -> (detector: Self)
        requires
            forall|s: &[i64]| #[trigger] cepstrum.requires((s,)),
        ensures
            detector.well_formed(),
            detector.cepstrum() == cepstrum,
    {
        Self { cepstrum }
    }
}

impl<C: Fn(&[i64]) -> Vec<Complex>> PitchDetector for Cepstrum2<C> {
    /// Any signal, with any range.
    open spec fn accepts(&self, signal: Seq<i64>, sample_rate: u32, freq_range: Range<i64>) -> bool {
        self.well_formed()
    }

    /// The pitch that the cepstrum of the signal shows within the range.
    open spec fn detects(
        &self,
        signal: Seq<i64>,
        sample_rate: u32,
        freq_range: Range<i64>,
        result: Result<i64, PitchError>,
    ) -> bool {
        exists|s: &[i64], c: Vec<Complex>|
            s@ == signal && #[trigger] self.cepstrum().ensures((s,), c) && is_pitch_of_cepstrum(
                c@,
                sample_rate,
                freq_range,
                result,
            )
    }

    fn detect_pitch_in_range(
        &mut self,
        signal: &[i64],
        sample_rate: u32,
        freq_range: Range<i64>,
    ) -> (result: Result<i64, PitchError>)
        ensures
            final(self).well_formed(),
            final(self).cepstrum() == old(self).cepstrum(),
    {
        assert(self.cepstrum() == self.cepstrum);
        cepstrum_pitch(signal, sample_rate, freq_range, &self.cepstrum)
    }
}

/// A well-formed detector accepts every signal, with any sample rate and
/// any range.
pub proof fn lemma_cepstrum_accepts<C: Fn(&[i64]) -> Vec<Complex>>(
    detector: &Cepstrum2<C>,
    signal: Seq<i64>,
    sample_rate: u32,
    freq_range: Range<i64>,
)
    requires
        detector.well_formed(),
    ensures
        detector.accepts(signal, sample_rate, freq_range),
{
}

} // verus!
