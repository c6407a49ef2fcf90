//! The two ways in which an algorithm lays frequencies out over its bins.
//!
//! The bin values of a frequency domain do not always correspond to the
//! traditional output of a transform, which is why each algorithm states how
//! its bins and frequencies correspond.
use crate::common::fixed::{
    clamp_i64, clamp_usize, div_round, lemma_round_div_bounds, round_div, saturate_i64,
    saturate_usize,
};
use std::ops::Range;
use vstd::prelude::*;

verus! {

/// How bins correspond to frequencies. Bins are counted in millionths,
/// frequencies in millihertz, the sample rate in hertz.
#[derive(Debug, Clone, Copy, PartialEq, Eq, Structural)]
pub enum BinMapping {
    /// The bins of a transform of `padded_len` points: the frequency is the
    /// bin times the sample rate over the length.
    Linear { padded_len: usize },
    /// The bins of a quefrency or lag axis: the frequency is the sample rate
    /// over the bin.
    Reciprocal,
}

/// The methods to analyze the frequency make-up of a signal.
pub trait IntoFrequencyDomain {
    /// Whether the detector takes the signal.
    spec fn takes(&self, signal: Seq<i64>) -> bool;

    /// Whether `domain` is a frequency domain of the signal within the
    /// range: the bin that it begins at, and its values from there on.
    spec fn is_domain_of(
        &self,
        signal: Seq<i64>,
        freq_range: Option<(Range<i64>, u32)>,
        domain: (usize, Seq<i64>),
    ) -> bool;

    /// How the bins of the frequency domain correspond to frequencies, once
    /// the detector knows.
    spec fn spec_mapping(&self) -> Option<BinMapping>;

    /// Creates a frequency domain with the given signal and optional
    /// frequency range. With the frequency range goes the sample rate,
    /// which is needed to correlate the range to a range of bins.
    fn into_frequency_domain(
        &mut self,
        signal: &[i64],
        freq_range: Option<(Range<i64>, u32)>,
    ) -> (domain: (usize, Vec<i64>))
        requires
            old(self).takes(signal@),
        ensures
            old(self).is_domain_of(signal@, freq_range, (domain.0, domain.1@)),
            final(self).spec_mapping() is Some,
    ;

    /// How the bins of the frequency domain correspond to frequencies.
    fn mapping(&self) -> (mapping: BinMapping)
        requires
            self.spec_mapping() is Some,
        ensures
            Some(mapping) == self.spec_mapping(),
    ;

    /// Converts a bin of the frequency domain, in millionths, to a
    /// frequency in millihertz, where the bin has one.
    fn bin_to_freq(&self, bin: i64, sample_rate: u32) -> (freq: Option<i64>)
        requires
            self.spec_mapping() is Some,
        ensures
            freq.is_some() == self.spec_mapping()->Some_0.spec_bin_to_freq(
                bin as int,
                sample_rate as int,
            ).is_some(),
            freq.is_some() ==> freq.unwrap() == self.spec_mapping()->Some_0.spec_bin_to_freq(
                bin as int,
                sample_rate as int,
            ).unwrap(),
    {
        self.mapping().bin_to_freq(bin, sample_rate)
    }

    /// Converts a frequency in millihertz to a bin of the frequency domain,
    /// in millionths, where the frequency has one.
    fn freq_to_bin(&self, freq: i64, sample_rate: u32) -> (bin: Option<i64>)
        requires
            self.spec_mapping() is Some,
        ensures
            bin.is_some() == self.spec_mapping()->Some_0.spec_freq_to_bin(
                freq as int,
                sample_rate as int,
            ).is_some(),
            bin.is_some() ==> bin.unwrap() == self.spec_mapping()->Some_0.spec_freq_to_bin(
                freq as int,
                sample_rate as int,
            ).unwrap(),
    {
        self.mapping().freq_to_bin(freq, sample_rate)
    }

    /// The name of the algorithm.
    fn name(&self) -> &'static str;
}

/// The frequency of a bin of a transform of `padded_len` points: a bin is
/// a thousand times as fine a unit as a millihertz is.
pub open spec fn linear_bin_to_freq(bin: int, sample_rate: int, padded_len: int) -> int {
    round_div(bin * sample_rate, 1000 * padded_len)
}

/// The bin of a frequency in a transform of `padded_len` points.
pub open spec fn linear_freq_to_bin(freq: int, sample_rate: int, padded_len: int) -> int {
    round_div(1000 * (freq * padded_len), sample_rate)
}

/// A thousand million times the sample rate: the product of a lag in
/// millionths of a bin and the frequency in millihertz that it stands for.
pub open spec fn lag_product(sample_rate: int) -> int {
    1_000_000_000 * sample_rate
}

/// `n / d` rounded to the nearest integer, for a denominator of either sign.
pub open spec fn signed_round_div(n: int, d: int) -> int {
    if d > 0 {
        round_div(n, d)
    } else {
        round_div(-n, -d)
    }
}

/// The frequency of a lag, and just as well the lag of a frequency.
pub open spec fn reciprocal(value: int, sample_rate: int) -> int {
    signed_round_div(lag_product(sample_rate), value)
}

impl BinMapping {
    /// The frequency that a bin stands for, where it has one: a transform of
    /// no points has no frequencies, and lag zero has none.
    pub open spec fn spec_bin_to_freq(self, bin: int, sample_rate: int) -> Option<int> {
        match self {
            BinMapping::Linear { padded_len } => if padded_len == 0 {
                None
            } else {
                Some(clamp_i64(linear_bin_to_freq(bin, sample_rate, padded_len as int)))
            },
            BinMapping::Reciprocal => if bin == 0 {
                None
            } else {
                Some(clamp_i64(reciprocal(bin, sample_rate)))
            },
        }
    }

    /// The bin that stands for a frequency, where there is one: at sample
    /// rate zero a transform has no bins, and frequency zero has no lag.
    pub open spec fn spec_freq_to_bin(self, freq: int, sample_rate: int) -> Option<int> {
        match self {
            BinMapping::Linear { padded_len } => if sample_rate == 0 {
                None
            } else {
                Some(clamp_i64(linear_freq_to_bin(freq, sample_rate, padded_len as int)))
            },
            BinMapping::Reciprocal => if freq == 0 {
                None
            } else {
                Some(clamp_i64(reciprocal(freq, sample_rate)))
            },
        }
    }

    /// Converts a bin, in millionths, to a frequency in millihertz.
    pub fn bin_to_freq(&self, bin: i64, sample_rate: u32) -> (freq: Option<i64>)
        ensures
            freq.is_some() == self.spec_bin_to_freq(bin as int, sample_rate as int).is_some(),
            freq.is_some() ==> freq.unwrap() == self.spec_bin_to_freq(
                bin as int,
                sample_rate as int,
            ).unwrap(),
    {
        match self {
            BinMapping::Linear { padded_len } => {
                if *padded_len == 0 {
                    None
                } else {
                    assert(-0x1_0000_0000_0000_0000_0000_0000 <= bin * sample_rate
                        <= 0x1_0000_0000_0000_0000_0000_0000) by (nonlinear_arith)
                        requires
                            -0x8000_0000_0000_0000 <= bin <= 0x8000_0000_0000_0000,
                            0 <= sample_rate <= 0x1_0000_0000,
                    ;
                    let product: i128 = (bin as i128) * (sample_rate as i128);
                    Some(saturate_i64(div_round(product, 1000 * (*padded_len as i128))))
                }
            },
            BinMapping::Reciprocal => reciprocal_of(bin, sample_rate),
        }
    }

    /// Converts a frequency in millihertz to a bin, in millionths.
    pub fn freq_to_bin(&self, freq: i64, sample_rate: u32) -> (bin: Option<i64>)
        ensures
            bin.is_some() == self.spec_freq_to_bin(freq as int, sample_rate as int).is_some(),
            bin.is_some() ==> bin.unwrap() == self.spec_freq_to_bin(
                freq as int,
                sample_rate as int,
            ).unwrap(),
    {
        match self {
            BinMapping::Linear { padded_len } => {
                if sample_rate == 0 {
                    None
                } else {
                    assert(-0x8000_0000_0000_0000_0000_0000_0000_0000 < freq * (*padded_len)
                        < 0x8000_0000_0000_0000_0000_0000_0000_0000) by (nonlinear_arith)
                        requires
                            -0x8000_0000_0000_0000 <= freq < 0x8000_0000_0000_0000,
                            0 <= *padded_len < 0x1_0000_0000_0000_0000,
                    ;
                    let product: i128 = (freq as i128) * (*padded_len as i128);
                    Some(scaled_quotient(product, sample_rate))
                }
            },
            BinMapping::Reciprocal => reciprocal_of(freq, sample_rate),
        }
    }
}

/// A thousand times `product` over the sample rate, rounded. A product too
/// large to be multiplied comes to a quotient beyond the integers of 64
/// bits, whatever the sample rate.
fn scaled_quotient(product: i128, sample_rate: u32) -> (r: i64)
    requires
        sample_rate > 0,
    ensures
        r == clamp_i64(round_div(1000 * product, sample_rate as int)),
{
    let limit: i128 = 0x1_0000_0000_0000_0000_0000_0000;
    if product >= limit {
        proof {
            let q = round_div(1000 * product, sample_rate as int);
            lemma_round_div_bounds(1000 * product, sample_rate as int);
            assert(q >= 0x8000_0000_0000_0000) by (nonlinear_arith)
                requires
                    2 * (1000 * product) - sample_rate <= 2 * sample_rate * q,
                    product >= 0x1_0000_0000_0000_0000_0000_0000,
                    0 < sample_rate <= 0x1_0000_0000,
            ;
        }
        i64::MAX
    } else if product <= -limit {
        proof {
            let q = round_div(1000 * product, sample_rate as int);
            lemma_round_div_bounds(1000 * product, sample_rate as int);
            assert(q <= -0x8000_0000_0000_0000) by (nonlinear_arith)
                requires
                    2 * sample_rate * q <= 2 * (1000 * product) + sample_rate,
                    product <= -0x1_0000_0000_0000_0000_0000_0000,
                    0 < sample_rate <= 0x1_0000_0000,
            ;
        }
        i64::MIN
    } else {
        saturate_i64(div_round(1000 * product, sample_rate as i128))
    }
}

fn reciprocal_of(value: i64, sample_rate: u32) -> (r: Option<i64>)
    ensures
        value == 0 ==> r.is_none(),
        value != 0 ==> r == Some(clamp_i64(reciprocal(value as int, sample_rate as int)) as i64),
{
    if value == 0 {
        None
    } else {
        let product: i128 = 1_000_000_000 * (sample_rate as i128);
        if value > 0 {
            Some(saturate_i64(div_round(product, value as i128)))
        } else {
            Some(saturate_i64(div_round(-product, -(value as i128))))
        }
    }
}

/// The whole bin nearest to a position given in millionths of a bin; a
/// position below zero belongs to bin zero.
pub open spec fn nearest_bin(bin: int) -> int {
    clamp_usize(round_div(bin, 1_000_000))
}

/// The whole bin nearest to a position given in millionths of a bin.
pub fn round_to_bin(bin: i64) -> (whole: usize)
    ensures
        whole == nearest_bin(bin as int),
{
    saturate_usize(div_round(bin as i128, 1_000_000))
}

/// Linear mapping, there and back: the bin that comes back differs from the
/// one that went in by at most half a millihertz's worth of bins, plus the
/// half unit of the last rounding. Where a thousand times the length is
/// below the sample rate, the same bin comes back.
pub proof fn lemma_linear_round_trip(bin: int, sample_rate: int, padded_len: int)
    requires
        sample_rate > 0,
        padded_len > 0,
    ensures
        ({
            let freq = linear_bin_to_freq(bin, sample_rate, padded_len);
            let back = linear_freq_to_bin(freq, sample_rate, padded_len);
            &&& 2 * sample_rate * (back - bin) <= 1000 * padded_len + sample_rate
            &&& 2 * sample_rate * (bin - back) <= 1000 * padded_len + sample_rate
            &&& 1000 * padded_len < sample_rate ==> back == bin
        }),
{
    let freq = linear_bin_to_freq(bin, sample_rate, padded_len);
    let back = linear_freq_to_bin(freq, sample_rate, padded_len);
    let scaled = 1000 * padded_len;
    lemma_round_div_bounds(bin * sample_rate, scaled);
    lemma_round_div_bounds(1000 * (freq * padded_len), sample_rate);
    let fl = 1000 * (freq * padded_len);
    let bs = bin * sample_rate;
    let ks = back * sample_rate;
    assert(2 * scaled * freq == 2 * fl) by (nonlinear_arith)
        requires
            fl == 1000 * (freq * padded_len),
            scaled == 1000 * padded_len,
    ;
    assert(2 * sample_rate * back == 2 * ks) by (nonlinear_arith)
        requires
            ks == back * sample_rate,
    ;
    assert(2 * sample_rate * (back - bin) == 2 * ks - 2 * bs) by (nonlinear_arith)
        requires
            ks == back * sample_rate,
            bs == bin * sample_rate,
    ;
    assert(2 * sample_rate * (bin - back) == 2 * bs - 2 * ks) by (nonlinear_arith)
        requires
            ks == back * sample_rate,
            bs == bin * sample_rate,
    ;
    if 1000 * padded_len < sample_rate {
        assert(back == bin) by (nonlinear_arith)
            requires
                2 * sample_rate * (back - bin) < 2 * sample_rate,
                2 * sample_rate * (bin - back) < 2 * sample_rate,
                sample_rate > 0,
        ;
    }
}

/// Reciprocal mapping, there and back: for a lag above zero whose frequency
/// is above zero, the lag that comes back differs from the one that went in
/// by at most half their ratio plus the half unit of the last rounding. A lag
/// in millionths below its frequency in millihertz comes back the same.
pub proof fn lemma_reciprocal_round_trip(bin: int, sample_rate: int)
    requires
        bin > 0,
        sample_rate > 0,
        reciprocal(bin, sample_rate) > 0,
    ensures
        ({
            let freq = reciprocal(bin, sample_rate);
            let back = reciprocal(freq, sample_rate);
            &&& 2 * freq * (back - bin) <= bin + freq
            &&& 2 * freq * (bin - back) <= bin + freq
            &&& bin < freq ==> back == bin
        }),
{
    let k = lag_product(sample_rate);
    let freq = reciprocal(bin, sample_rate);
    let back = reciprocal(freq, sample_rate);
    lemma_round_div_bounds(k, bin);
    lemma_round_div_bounds(k, freq);
    let bf = bin * freq;
    let kf = back * freq;
    assert(2 * bin * freq == 2 * bf) by (nonlinear_arith)
        requires
            bf == bin * freq,
    ;
    assert(2 * freq * back == 2 * kf) by (nonlinear_arith)
        requires
            kf == back * freq,
    ;
    assert(2 * freq * (back - bin) == 2 * kf - 2 * bf) by (nonlinear_arith)
        requires
            kf == back * freq,
            bf == bin * freq,
    ;
    assert(2 * freq * (bin - back) == 2 * bf - 2 * kf) by (nonlinear_arith)
        requires
            kf == back * freq,
            bf == bin * freq,
    ;
    if bin < freq {
        assert(back == bin) by (nonlinear_arith)
            requires
                2 * freq * (back - bin) < 2 * freq,
                2 * freq * (bin - back) < 2 * freq,
                freq > 0,
        ;
    }
}

/// A position that lies within half a bin of the centre of a whole bin
/// rounds to that bin.
pub proof fn lemma_nearest_bin(bin: int, whole: int)
    requires
        0 <= whole <= usize::MAX,
        1_000_000 * whole - 500_000 < bin < 1_000_000 * whole + 500_000,
    ensures
        nearest_bin(bin) == whole,
{
    lemma_round_div_bounds(bin, 1_000_000);
}

/// Whole bins survive the linear mapping there and back, rounded, as long as
/// the length is below 999 times the sample rate.
pub proof fn lemma_linear_round_trip_whole(whole: int, sample_rate: int, padded_len: int)
    requires
        0 <= whole <= usize::MAX,
        sample_rate > 0,
        padded_len > 0,
        padded_len < 999 * sample_rate,
    ensures
        nearest_bin(
            linear_freq_to_bin(
                linear_bin_to_freq(1_000_000 * whole, sample_rate, padded_len),
                sample_rate,
                padded_len,
            ),
        ) == whole,
{
    let bin = 1_000_000 * whole;
    let freq = linear_bin_to_freq(bin, sample_rate, padded_len);
    let back = linear_freq_to_bin(freq, sample_rate, padded_len);
    lemma_linear_round_trip(bin, sample_rate, padded_len);
    assert(back - bin < 500_000 && bin - back < 500_000) by (nonlinear_arith)
        requires
            2 * sample_rate * (back - bin) <= 1000 * padded_len + sample_rate,
            2 * sample_rate * (bin - back) <= 1000 * padded_len + sample_rate,
            padded_len < 999 * sample_rate,
            sample_rate > 0,
    ;
    lemma_nearest_bin(back, whole);
}

/// Whole lags survive the reciprocal mapping there and back, rounded, as
/// long as the lag in millionths is below 999999 times its frequency in
/// millihertz.
pub proof fn lemma_reciprocal_round_trip_whole(whole: int, sample_rate: int)
    requires
        0 < whole <= usize::MAX,
        sample_rate > 0,
        1_000_000 * whole < 999_999 * reciprocal(1_000_000 * whole, sample_rate),
    ensures
        nearest_bin(reciprocal(reciprocal(1_000_000 * whole, sample_rate), sample_rate)) == whole,
{
    let bin = 1_000_000 * whole;
    let freq = reciprocal(bin, sample_rate);
    let back = reciprocal(freq, sample_rate);
    lemma_reciprocal_round_trip(bin, sample_rate);
    assert(back - bin < 500_000 && bin - back < 500_000) by (nonlinear_arith)
        requires
            2 * freq * (back - bin) <= bin + freq,
            2 * freq * (bin - back) <= bin + freq,
            bin < 999_999 * freq,
            freq > 0,
    ;
    lemma_nearest_bin(back, whole);
}

/// Whole bins survive either mapping there and back: the frequency of a
/// whole bin, mapped back, is a position that rounds to the same bin. This
/// holds of a bin whose frequency is within the range of frequencies; with
/// the linear mapping as long as the length is below 999 times the sample
/// rate, and with the reciprocal one as long as the lag in millionths is
/// below 999999 times its frequency in millihertz.
pub proof fn lemma_mapping_round_trip(mapping: BinMapping, whole: int, sample_rate: int)
    requires
        0 < whole <= usize::MAX,
        1_000_000 * whole + 500_000 <= i64::MAX,
        0 < sample_rate <= u32::MAX,
        mapping.spec_bin_to_freq(1_000_000 * whole, sample_rate) matches Some(freq) && i64::MIN
            < freq < i64::MAX,
        match mapping {
            BinMapping::Linear { padded_len } => padded_len < 999 * sample_rate,
            BinMapping::Reciprocal => 1_000_000 * whole < 999_999 * reciprocal(
                1_000_000 * whole,
                sample_rate,
            ),
        },
    ensures
        mapping.spec_bin_to_freq(1_000_000 * whole, sample_rate) matches Some(freq)
            && mapping.spec_freq_to_bin(freq, sample_rate) matches Some(back) && nearest_bin(back)
            == whole,
{
    let bin = 1_000_000 * whole;
    match mapping {
        BinMapping::Linear { padded_len } => {
            let len = padded_len as int;
            let freq = linear_bin_to_freq(bin, sample_rate, len);
            let back = linear_freq_to_bin(freq, sample_rate, len);
            lemma_linear_round_trip(bin, sample_rate, len);
            lemma_linear_round_trip_whole(whole, sample_rate, len);
            assert(back - bin < 500_000 && bin - back < 500_000) by (nonlinear_arith)
                requires
                    2 * sample_rate * (back - bin) <= 1000 * len + sample_rate,
                    2 * sample_rate * (bin - back) <= 1000 * len + sample_rate,
                    len < 999 * sample_rate,
                    sample_rate > 0,
            ;
        },
        BinMapping::Reciprocal => {
            let freq = reciprocal(bin, sample_rate);
            let back = reciprocal(freq, sample_rate);
            lemma_reciprocal_round_trip(bin, sample_rate);
            lemma_reciprocal_round_trip_whole(whole, sample_rate);
            assert(back - bin < 500_000 && bin - back < 500_000) by (nonlinear_arith)
                requires
                    2 * freq * (back - bin) <= bin + freq,
                    2 * freq * (bin - back) <= bin + freq,
                    bin < 999_999 * freq,
                    freq > 0,
            ;
        },
    }
}

} // verus!
