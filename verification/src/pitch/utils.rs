//! How often a signal crosses zero.
use crate::common::fixed::{clamp_i64, div_round, round_div, saturate_i64};
use itertools::Itertools;
use vstd::prelude::*;

verus! {

/// Whether two samples in a row lie on different sides of zero. Zero
/// itself counts as above.
pub open spec fn crosses_zero(a: i16, b: i16) -> bool {
    (a >= 0) != (b >= 0)
}

/// The number of zero crossings among the first `k` pairs of samples in a
/// row.
pub open spec fn crossings(pairs: Seq<(i16, i16)>, k: int) -> int
    decreases k,
{
    if k <= 0 {
        0
    } else {
        crossings(pairs, k - 1) + if crosses_zero(pairs[k - 1].0, pairs[k - 1].1) {
            1int
        } else {
            0int
        }
    }
}

/// Each sample paired with the one after it.
pub open spec fn windows(s: Seq<i16>) -> Seq<(i16, i16)> {
    Seq::new(
        if s.len() > 0 {
            (s.len() - 1) as nat
        } else {
            0nat
        },
        |i: int| (s[i], s[i + 1]),
    )
}

/// The number of zero crossings of a signal.
pub open spec fn spec_zero_crossing_count(s: Seq<i16>) -> int {
    crossings(windows(s), windows(s).len() as int)
}

/// `Itertools::tuple_windows` over the samples, for windows of two: every
/// pair of samples in a row, in order, and none for fewer than two samples.
#[verifier::external_body]
fn sample_windows(signal: &[i16]) -> (pairs: Vec<(i16, i16)>)
    ensures
        pairs@ == windows(signal@),
{
    signal.iter().copied().tuple_windows().collect()
}

/// The number of times the signal crosses zero.
pub fn zero_crossing_count(signal: &[i16]) -> (count: usize)
    ensures
        count == spec_zero_crossing_count(signal@),
        count <= signal.len(),
{
    let pairs = sample_windows(signal);
    let mut count: usize = 0;
    let mut i: usize = 0;
    while i < pairs.len()
        invariant
            i <= pairs.len(),
            pairs@ == windows(signal@),
            count == crossings(pairs@, i as int),
            count <= i,
        decreases pairs.len() - i,
    {
        let (a, b) = pairs[i];
        if (a >= 0) != (b >= 0) {
            count = count + 1;
        }
        i = i + 1;
    }
    count
}

/// The rate of zero crossings in millihertz: the crossings per sample
/// times the sample rate. A signal without samples has no rate.
pub fn zero_crossing_rate(signal: &[i16], sample_rate: u32) -> (rate: Option<i64>)
    ensures
        signal.len() == 0 ==> rate.is_none(),
        signal.len() > 0 ==> rate == Some(
            clamp_i64(
                round_div(
                    1000 * sample_rate * spec_zero_crossing_count(signal@),
                    signal.len() as int,
                ),
            ) as i64,
        ),
{
    if signal.len() == 0 {
        return None;
    }
    let count = zero_crossing_count(signal);
    assert(0 <= 1000 * sample_rate * count <= 1000 * 0x1_0000_0000 * 0x1_0000_0000_0000_0000)
        by (nonlinear_arith)
        requires
            0 <= sample_rate <= 0x1_0000_0000,
            0 <= count <= 0x1_0000_0000_0000_0000,
    ;
    let product: i128 = 1000 * (sample_rate as i128) * (count as i128);
    Some(saturate_i64(div_round(product, signal.len() as i128)))
}

} // verus!
