//! Candidate peaks: their detectors' settings and their order.
use crate::common::FrequencyBin;
use crate::note::peak_iter::{peaks_from, Flag, FlaggedBin, PeakIter};
use vstd::prelude::*;

verus! {

/// Settings of the detector that keeps every peak rising more than a number
/// of standard deviations above the mean of the spectrum.
#[derive(Debug, Clone, Copy, PartialEq, Eq, Structural)]
pub struct PeakFinderDetector {
    sigmas: i64,
}

impl PeakFinderDetector {
    /// A detector whose threshold lies `sigmas` thousandths of a standard
    /// deviation above the mean.
    pub fn new(sigmas: i64) -> (detector: Self)
        ensures
            detector.sigmas() == sigmas,
    {
        Self { sigmas }
    }

    /// The threshold, in thousandths of a standard deviation.
    pub closed spec fn sigmas(&self) -> i64 {
        self.sigmas
    }

    /// The threshold, in thousandths of a standard deviation.
    pub fn get_sigmas(&self) -> (sigmas: i64)
        ensures
            sigmas == self.sigmas(),
    {
        self.sigmas
    }

    /// The peaks of the spectrum that rise above the threshold, with
    /// `peaks` to find the peaks that rise a number of thousandths of a
    /// standard deviation above the mean.
    pub fn detect_peaks<P: Fn(&[i64], i64) -> Vec<FrequencyBin>>(
        &self,
        spectrum: &[i64],
        peaks: &P,
    ) -> (found: Vec<FrequencyBin>)
        requires
            forall|s: &[i64], k: i64| #[trigger] peaks.requires((s, k)),
        ensures
            peaks.ensures((spectrum, self.sigmas()), found),
    {
        peaks(spectrum, self.sigmas)
    }
}

/// Settings of the smoothed z-score detector, which flags a point that lies
/// far from the mean of the points before it.
#[derive(Debug, Clone, Copy, PartialEq, Eq, Structural)]
pub struct ZScoreDetector {
    lag: usize,
    threshold: i64,
    influence: i64,
}

impl ZScoreDetector {
    /// A detector that looks back over `lag` points, flags a point further
    /// than `threshold` thousandths of a standard deviation from their mean,
    /// and lets a flagged point weigh `influence` thousandths in the mean.
    pub fn new(lag: usize, threshold: i64, influence: i64) -> (detector: Self)
        ensures
            detector.lag() == lag,
            detector.threshold() == threshold,
            detector.influence() == influence,
    {
        Self { lag, threshold, influence }
    }

    /// The number of points looked back over.
    pub closed spec fn lag(&self) -> usize {
        self.lag
    }

    /// The threshold, in thousandths of a standard deviation.
    pub closed spec fn threshold(&self) -> i64 {
        self.threshold
    }

    /// The weight of a flagged point in the mean, in thousandths.
    pub closed spec fn influence(&self) -> i64 {
        self.influence
    }

    /// The three settings: lag, threshold and influence.
    pub fn settings(&self) -> (settings: (usize, i64, i64))
        ensures
            settings == (self.lag(), self.threshold(), self.influence()),
    {
        (self.lag, self.threshold, self.influence)
    }

    /// The peaks of the spectrum, with `flags` to say of each value of a
    /// stream, given the settings, how it stands to the values before it.
    /// The spectrum is streamed from its last bin to its first; each run of
    /// values flagged as high is one peak. Flags that do not go with the
    /// values one to one leave no peaks.
    pub fn detect_peaks<Z: Fn(&[i64], usize, i64, i64) -> Vec<Flag>>(
        &self,
        spectrum: &[i64],
        flags: &Z,
    ) -> (found: Vec<FrequencyBin>)
        requires
            forall|s: &[i64], lag: usize, threshold: i64, influence: i64| #[trigger]
                flags.requires((s, lag, threshold, influence)),
        ensures
            exists|stream: &[i64], flagged: Vec<Flag>|
                stream@ == spectrum@.reverse() && #[trigger] flags.ensures(
                    (stream, self.lag(), self.threshold(), self.influence()),
                    flagged,
                ) && found@ == if flagged.len() == spectrum.len() {
                    peaks_from(flagged_stream(spectrum@, flagged@), 0)
                } else {
                    Seq::<FrequencyBin>::empty()
                },
    {
        let n = spectrum.len();
        let mut values: Vec<i64> = Vec::new();
        let mut i: usize = 0;
        while i < n
            invariant
                i <= n,
                n == spectrum.len(),
                values.len() == i,
                forall|j: int| 0 <= j < i ==> #[trigger] values[j] == spectrum[n - 1 - j],
            decreases n - i,
        {
            values.push(spectrum[n - 1 - i]);
            i = i + 1;
        }
        assert(values@ =~= spectrum@.reverse());
        let stream = values.as_slice();
        let ghost streamed: &[i64] = stream;
        let flagged = flags(stream, self.lag, self.threshold, self.influence);
        assert(flags.ensures((streamed, self.lag(), self.threshold(), self.influence()), flagged));
        if flagged.len() != n {
            return Vec::new();
        }
        let mut points: Vec<FlaggedBin> = Vec::new();
        let mut i: usize = 0;
        while i < n
            invariant
                i <= n,
                n == spectrum.len(),
                n == flagged.len(),
                points.len() == i,
                forall|j: int|
                    0 <= j < i ==> #[trigger] points[j] == flagged_stream(spectrum@, flagged@)[j],
            decreases n - i,
        {
            points.push(FlaggedBin { bin: n - 1 - i, magnitude: spectrum[n - 1 - i], flag: flagged[i] });
            i = i + 1;
        }
        assert(points@ =~= flagged_stream(spectrum@, flagged@));
        PeakIter::new(points).collect()
    }
}

/// The spectrum streamed from its last bin to its first, each value with
/// its bin and its flag.
pub open spec fn flagged_stream(spectrum: Seq<i64>, flagged: Seq<Flag>) -> Seq<FlaggedBin> {
    Seq::new(
        spectrum.len(),
        |i: int|
            FlaggedBin {
                bin: (spectrum.len() - 1 - i) as usize,
                magnitude: spectrum[spectrum.len() - 1 - i],
                flag: flagged[i],
            },
    )
}

/// Candidate `a` comes before candidate `b` when sorted: its magnitude is
/// larger, or the same and it stood first.
pub open spec fn precedes(c: Seq<FrequencyBin>, a: int, b: int) -> bool {
    c[a].magnitude > c[b].magnitude || (c[a].magnitude == c[b].magnitude && a < b)
}

/// `order` lists the positions of all candidates, each once, from the
/// largest magnitude down, equal magnitudes in the order they came in.
pub open spec fn is_descending_order(c: Seq<FrequencyBin>, order: Seq<usize>) -> bool {
    &&& order.len() == c.len()
    &&& forall|i: int| 0 <= i < order.len() ==> #[trigger] order[i] < c.len()
    &&& forall|i: int, j: int|
        0 <= i < j < order.len() ==> precedes(c, #[trigger] order[i] as int, #[trigger] order[j] as int)
}

/// The candidates rearranged as `order` lists them.
pub open spec fn arranged(c: Seq<FrequencyBin>, order: Seq<usize>) -> Seq<FrequencyBin> {
    Seq::new(order.len(), |i: int| c[order[i] as int])
}

/// `sorted` holds the candidates from the largest magnitude down, equal
/// magnitudes in the order they came in.
pub open spec fn is_sorted_descending(c: Seq<FrequencyBin>, sorted: Seq<FrequencyBin>) -> bool {
    exists|order: Seq<usize>| is_descending_order(c, order) && sorted == arranged(c, order)
}

/// The positions of the candidates from the largest magnitude down. Equal
/// magnitudes keep the order they came in.
pub fn descending_order(candidates: &Vec<FrequencyBin>) -> (order: Vec<usize>)
    ensures
        is_descending_order(candidates@, order@),
{
    let n = candidates.len();
    let mut order: Vec<usize> = Vec::new();
    let mut k: usize = 0;
    while k < n
        invariant
            k <= n,
            n == candidates.len(),
            order.len() == k,
            forall|i: int| 0 <= i < order.len() ==> #[trigger] order[i] < k,
            forall|i: int, j: int|
                0 <= i < j < order.len() ==> precedes(
                    candidates@,
                    #[trigger] order[i] as int,
                    #[trigger] order[j] as int,
                ),
        decreases n - k,
    {
        let magnitude = candidates[k].magnitude;
        let mut p: usize = 0;
        while p < order.len() && candidates[order[p]].magnitude >= magnitude
            invariant
                p <= order.len(),
                order.len() == k,
                k < n,
                n == candidates.len(),
                magnitude == candidates[k as int].magnitude,
                forall|i: int| 0 <= i < order.len() ==> #[trigger] order[i] < k,
                forall|i: int| 0 <= i < p ==> candidates[#[trigger] order[i] as int].magnitude >= magnitude,
            decreases order.len() - p,
        {
            p = p + 1;
        }
        let ghost before = order@;
        order.insert(p, k);
        proof {
            assert forall|i: int, j: int| 0 <= i < j < order.len() implies precedes(
                candidates@,
                #[trigger] order[i] as int,
                #[trigger] order[j] as int,
            ) by {
                if j < p {
                    assert(order[i] == before[i] && order[j] == before[j]);
                } else if j == p {
                    assert(order[i] == before[i]);
                } else if i < p {
                    assert(order[i] == before[i] && order[j] == before[j - 1]);
                } else if i == p {
                    assert(order[j] == before[j - 1]);
                    assert(p < before.len());
                    if p < j - 1 {
                        assert(precedes(candidates@, before[p as int] as int, before[j - 1] as int));
                    }
                } else {
                    assert(order[i] == before[i - 1] && order[j] == before[j - 1]);
                }
            }
            assert forall|i: int| 0 <= i < order.len() implies #[trigger] order[i] < k + 1 by {
                if i < p {
                    assert(order[i] == before[i]);
                } else if i > p {
                    assert(order[i] == before[i - 1]);
                }
            }
        }
        k = k + 1;
    }
    order
}

/// The candidates from the largest magnitude down. Equal magnitudes keep
/// the order they came in.
pub fn sort_candidates(candidates: &Vec<FrequencyBin>) -> (sorted: Vec<FrequencyBin>)
    ensures
        is_sorted_descending(candidates@, sorted@),
        sorted.len() == candidates.len(),
        forall|i: int, j: int|
            0 <= i < j < sorted.len() ==> #[trigger] sorted[i].magnitude >= #[trigger] sorted[j].magnitude,
{
    let order = descending_order(candidates);
    let mut sorted: Vec<FrequencyBin> = Vec::new();
    let mut i: usize = 0;
    while i < order.len()
        invariant
            i <= order.len(),
            sorted.len() == i,
            is_descending_order(candidates@, order@),
            forall|j: int| 0 <= j < i ==> #[trigger] sorted[j] == candidates[order[j] as int],
        decreases order.len() - i,
    {
        sorted.push(candidates[order[i]]);
        i = i + 1;
    }
    proof {
        assert(sorted@ =~= arranged(candidates@, order@));
        assert forall|i: int, j: int| 0 <= i < j < sorted.len() implies #[trigger] sorted[i].magnitude
            >= #[trigger] sorted[j].magnitude by {
            assert(precedes(candidates@, order[i] as int, order[j] as int));
        }
    }
    sorted
}

/// An order that lists every position once leaves no position out.
pub proof fn lemma_order_is_complete(c: Seq<FrequencyBin>, order: Seq<usize>, position: int)
    requires
        is_descending_order(c, order),
        0 <= position < c.len(),
    ensures
        exists|i: int| 0 <= i < order.len() && order[i] == position,
{
    let positions = order.map(|i: int, p: usize| p as int);
    assert forall|i: int, j: int| 0 <= i < j < positions.len() implies positions[i]
        != positions[j] by {
        assert(precedes(c, order[i] as int, order[j] as int));
    }
    assert(positions.no_duplicates());
    let found = positions.to_set();
    positions.unique_seq_to_set();
    let all = Set::new(|p: int| 0 <= p < c.len());
    assert(all =~= vstd::set_lib::set_int_range(0, c.len() as int));
    vstd::set_lib::lemma_int_range(0, c.len() as int);
    assert(found.subset_of(all)) by {
        assert forall|p: int| found.contains(p) implies all.contains(p) by {
            let i = choose|i: int| 0 <= i < positions.len() && positions[i] == p;
            assert(order[i] < c.len());
        }
    }
    vstd::set_lib::lemma_subset_equality(found, all);
    assert(found.contains(position));
    let i = choose|i: int| 0 <= i < positions.len() && positions[i] == position;
    assert(order[i] == position);
}

/// Two orders of the same candidates agree up to position `upto`.
proof fn lemma_orders_agree(c: Seq<FrequencyBin>, first: Seq<usize>, second: Seq<usize>, upto: int)
    requires
        is_descending_order(c, first),
        is_descending_order(c, second),
        0 <= upto <= c.len(),
    ensures
        forall|i: int| 0 <= i < upto ==> first[i] == second[i],
    decreases upto,
{
    if upto > 0 {
        let i = upto - 1;
        lemma_orders_agree(c, first, second, i);
        let a = first[i] as int;
        let b = second[i] as int;
        if a != b {
            if precedes(c, a, b) {
                lemma_order_is_complete(c, second, a);
                let k = choose|k: int| 0 <= k < second.len() && second[k] == a;
                if k < i {
                    assert(first[k] == second[k]);
                    assert(precedes(c, first[k] as int, first[i] as int));
                } else {
                    assert(precedes(c, second[i] as int, second[k] as int));
                }
            } else {
                lemma_order_is_complete(c, first, b);
                let k = choose|k: int| 0 <= k < first.len() && first[k] == b;
                if k < i {
                    assert(first[k] == second[k]);
                    assert(precedes(c, second[k] as int, second[i] as int));
                } else {
                    assert(precedes(c, first[i] as int, first[k] as int));
                }
            }
        }
    }
}

/// Candidates have one order from the largest magnitude down.
pub proof fn lemma_order_unique(c: Seq<FrequencyBin>, first: Seq<usize>, second: Seq<usize>)
    requires
        is_descending_order(c, first),
        is_descending_order(c, second),
    ensures
        first == second,
{
    lemma_orders_agree(c, first, second, c.len() as int);
    assert(first =~= second);
}

/// Candidates have one order from the largest magnitude down, and one way
/// of being sorted.
pub proof fn lemma_sorted_unique(
    c: Seq<FrequencyBin>,
    first: Seq<FrequencyBin>,
    second: Seq<FrequencyBin>,
)
    requires
        is_sorted_descending(c, first),
        is_sorted_descending(c, second),
    ensures
        first == second,
{
    let o1 = choose|order: Seq<usize>| is_descending_order(c, order) && first == arranged(c, order);
    let o2 = choose|order: Seq<usize>|
        is_descending_order(c, order) && second == arranged(c, order);
    lemma_orders_agree(c, o1, o2, c.len() as int);
    assert(o1 =~= o2);
}

} // verus!
