//! Peaks of a spectrum whose points a streaming detector has flagged: each
//! unbroken run of points flagged as high counts as one peak, at its
//! largest magnitude.
use crate::common::fixed::{microbins, to_microbins};
use crate::common::utils::{Fit, PeakEstimate};
use crate::common::{FftPoint, FrequencyBin};
use crate::pitch::autocorrelation_detector::{is_strongest, strongest};
use vstd::prelude::*;

verus! {

/// What the streaming detector says of a point.
#[derive(Debug, Clone, Copy, PartialEq, Eq, Structural)]
pub enum Flag {
    /// Within the threshold around the mean of the points before it.
    Plain,
    /// Beyond the threshold, below the mean.
    Low,
    /// Beyond the threshold, above the mean.
    High,
}

/// A point of a spectrum with the detector's flag.
#[derive(Debug, Clone, Copy, PartialEq, Eq, Structural)]
pub struct FlaggedBin {
    pub bin: usize,
    pub magnitude: i64,
    pub flag: Flag,
}

/// The first position from `pos` on whose point is flagged, or the length.
pub open spec fn run_start(s: Seq<FlaggedBin>, pos: int) -> int
    decreases s.len() - pos,
{
    if pos < 0 || pos >= s.len() {
        s.len() as int
    } else if s[pos].flag != Flag::Plain {
        pos
    } else {
        run_start(s, pos + 1)
    }
}

/// The first position from `pos` on whose point is not flagged as high, or
/// the length.
pub open spec fn run_end(s: Seq<FlaggedBin>, pos: int) -> int
    decreases s.len() - pos,
{
    if pos < 0 || pos >= s.len() {
        s.len() as int
    } else if s[pos].flag != Flag::High {
        pos
    } else {
        run_end(s, pos + 1)
    }
}

/// The position where the largest magnitude among the points from `begin`
/// up to, not including, `end` first occurs.
pub open spec fn first_max(s: Seq<FlaggedBin>, begin: int, end: int) -> int
    decreases end - begin,
{
    if end - begin <= 1 {
        begin
    } else {
        let before = first_max(s, begin, end - 1);
        if s[end - 1].magnitude > s[before].magnitude {
            end - 1
        } else {
            before
        }
    }
}

/// The position after the run that begins at or after `pos`: the point that
/// ended the run is used up with it.
pub open spec fn after_run(s: Seq<FlaggedBin>, pos: int) -> int {
    let end = run_end(s, run_start(s, pos));
    if end < s.len() {
        end + 1
    } else {
        s.len() as int
    }
}

/// The peak of the run that begins at or after `pos`, if a run begins
/// there: after the plain points, there is none at the end of the points
/// nor at a point flagged as low.
pub open spec fn run_peak(s: Seq<FlaggedBin>, pos: int) -> Option<FrequencyBin> {
    let begin = run_start(s, pos);
    let end = run_end(s, begin);
    if begin == end {
        None
    } else {
        let at = first_max(s, begin, end);
        Some(FrequencyBin { bin: s[at].bin, magnitude: s[at].magnitude })
    }
}

/// The point that stands at position `at`.
pub open spec fn flagged_point(s: Seq<FlaggedBin>, at: int) -> FftPoint {
    FftPoint { x: microbins(s[at].bin as int) as i64, y: s[at].magnitude }
}

/// What the run that begins at or after `pos` says of its peak, if a run
/// begins there: a run of one point is its own peak, of two points the
/// larger is, and three points or more, from position `begin` to position
/// `end` inclusive, are to be fitted.
pub open spec fn run_estimate(s: Seq<FlaggedBin>, pos: int) -> Option<PeakEstimate> {
    let begin = run_start(s, pos);
    let end = run_end(s, begin);
    if begin == end {
        None
    } else if end == begin + 1 {
        Some(PeakEstimate::Exact(flagged_point(s, begin)))
    } else if end == begin + 2 {
        if s[begin].magnitude > s[begin + 1].magnitude {
            Some(PeakEstimate::Exact(flagged_point(s, begin)))
        } else {
            Some(PeakEstimate::Exact(flagged_point(s, begin + 1)))
        }
    } else {
        Some(PeakEstimate::Fit { begin: begin as usize, end: (end - 1) as usize })
    }
}

/// The peaks of all runs from `pos` on, up to the first place where no run
/// begins.
pub open spec fn peaks_from(s: Seq<FlaggedBin>, pos: int) -> Seq<FrequencyBin>
    decreases s.len() - pos,
    when 0 <= pos
    via peaks_from_decreases
{
    match run_peak(s, pos) {
        None => Seq::empty(),
        Some(peak) => seq![peak] + peaks_from(s, after_run(s, pos)),
    }
}

#[via_fn]
proof fn peaks_from_decreases(s: Seq<FlaggedBin>, pos: int) {
    lemma_run_bounds(s, pos);
}

/// A run lies at or after the position it was looked for from, within the
/// points; its points are flagged as high and the points before it are
/// plain.
pub proof fn lemma_run_bounds(s: Seq<FlaggedBin>, pos: int)
    requires
        0 <= pos,
    ensures
        pos <= run_start(s, pos) <= run_end(s, run_start(s, pos)) <= s.len() || (pos > s.len()
            && run_start(s, pos) == s.len() && run_end(s, run_start(s, pos)) == s.len()),
        forall|i: int| pos <= i < run_start(s, pos) ==> (#[trigger] s[i]).flag == Flag::Plain,
        forall|i: int|
            run_start(s, pos) <= i < run_end(s, run_start(s, pos)) ==> (#[trigger] s[i]).flag
                == Flag::High,
        run_peak(s, pos) is Some ==> pos < after_run(s, pos) <= s.len(),
{
    lemma_run_start(s, pos);
    lemma_run_end(s, run_start(s, pos));
}

proof fn lemma_run_start(s: Seq<FlaggedBin>, pos: int)
    requires
        0 <= pos,
    ensures
        pos <= run_start(s, pos) <= s.len() || (pos > s.len() && run_start(s, pos) == s.len()),
        forall|i: int| pos <= i < run_start(s, pos) ==> (#[trigger] s[i]).flag == Flag::Plain,
        run_start(s, pos) < s.len() ==> s[run_start(s, pos)].flag != Flag::Plain,
    decreases s.len() - pos,
{
    if pos < s.len() && s[pos].flag == Flag::Plain {
        lemma_run_start(s, pos + 1);
    }
}

proof fn lemma_run_end(s: Seq<FlaggedBin>, pos: int)
    requires
        0 <= pos,
    ensures
        pos <= run_end(s, pos) <= s.len() || (pos > s.len() && run_end(s, pos) == s.len()),
        forall|i: int| pos <= i < run_end(s, pos) ==> (#[trigger] s[i]).flag == Flag::High,
        run_end(s, pos) < s.len() ==> s[run_end(s, pos)].flag != Flag::High,
    decreases s.len() - pos,
{
    if pos < s.len() && s[pos].flag == Flag::High {
        lemma_run_end(s, pos + 1);
    }
}

/// The peak of a run has the largest magnitude of the run, and is the
/// first point of the run to have it.
pub proof fn lemma_first_max(s: Seq<FlaggedBin>, begin: int, end: int)
    requires
        0 <= begin < end <= s.len(),
    ensures
        begin <= first_max(s, begin, end) < end,
        forall|i: int|
            begin <= i < end ==> (#[trigger] s[i]).magnitude <= s[first_max(
                s,
                begin,
                end,
            )].magnitude,
        forall|i: int|
            begin <= i < first_max(s, begin, end) ==> (#[trigger] s[i]).magnitude < s[first_max(
                s,
                begin,
                end,
            )].magnitude,
    decreases end - begin,
{
    if end - begin > 1 {
        lemma_first_max(s, begin, end - 1);
    }
}

/// Walks over flagged points and hands out the peak of one run at a time.
pub struct PeakIter {
    signal: Vec<FlaggedBin>,
    position: usize,
}

impl PeakIter {
    /// The flagged points that the iterator walks over.
    pub closed spec fn points(&self) -> Seq<FlaggedBin> {
        self.signal@
    }

    /// How many points are used up.
    pub closed spec fn position(&self) -> int {
        self.position as int
    }

    /// The iterator never runs past its points.
    pub closed spec fn well_formed(&self) -> bool {
        self.position <= self.signal.len()
    }

    /// An iterator at the start of `signal`.
    pub fn new(signal: Vec<FlaggedBin>) -> (iter: Self)
        ensures
            iter.well_formed(),
            iter.points() == signal@,
            iter.position() == 0,
    {
        PeakIter { signal, position: 0 }
    }

    /// The peak of the next run, if a run begins after the plain points
    /// that come next: the point of the run where its largest magnitude
    /// first occurs.
    pub fn next(&mut self) -> (peak: Option<FrequencyBin>)
        requires
            old(self).well_formed(),
        ensures
            final(self).well_formed(),
            final(self).points() == old(self).points(),
            peak == run_peak(old(self).points(), old(self).position()),
            final(self).position() == after_run(old(self).points(), old(self).position()),
    {
        let n = self.signal.len();
        let ghost s = self.signal@;
        let ghost start = self.position as int;
        let mut begin = self.position;
        while begin < n && self.signal[begin].flag == Flag::Plain
            invariant
                self.position <= begin <= n,
                n == self.signal.len(),
                s == self.signal@,
                start == self.position,
                self.position == old(self).position,
                self.signal == old(self).signal,
                run_start(s, begin as int) == run_start(s, start),
            decreases n - begin,
        {
            begin = begin + 1;
        }
        let mut end = begin;
        let mut best = begin;
        while end < n && self.signal[end].flag == Flag::High
            invariant
                begin <= end <= n,
                begin <= best <= end,
                best < end || end == begin,
                n == self.signal.len(),
                s == self.signal@,
                self.position == old(self).position,
                self.signal == old(self).signal,
                run_end(s, end as int) == run_end(s, begin as int),
                end > begin ==> best == first_max(s, begin as int, end as int),
            decreases n - end,
        {
            if end > begin && self.signal[end].magnitude > self.signal[best].magnitude {
                best = end;
            }
            if end == begin {
                best = begin;
            }
            end = end + 1;
        }
        self.position = if end < n {
            end + 1
        } else {
            n
        };
        if begin == end {
            None
        } else {
            Some(FrequencyBin { bin: self.signal[best].bin, magnitude: self.signal[best].magnitude })
        }
    }

    /// What the next run says of its peak, if a run begins after the plain
    /// points that come next.
    pub fn next_estimate(&mut self) -> (estimate: Option<PeakEstimate>)
        requires
            old(self).well_formed(),
        ensures
            final(self).well_formed(),
            final(self).points() == old(self).points(),
            estimate == run_estimate(old(self).points(), old(self).position()),
            final(self).position() == after_run(old(self).points(), old(self).position()),
    {
        let n = self.signal.len();
        let ghost s = self.signal@;
        let ghost start = self.position as int;
        let mut begin = self.position;
        while begin < n && self.signal[begin].flag == Flag::Plain
            invariant
                self.position <= begin <= n,
                n == self.signal.len(),
                s == self.signal@,
                start == self.position,
                self.position == old(self).position,
                self.signal == old(self).signal,
                run_start(s, begin as int) == run_start(s, start),
            decreases n - begin,
        {
            begin = begin + 1;
        }
        let mut end = begin;
        while end < n && self.signal[end].flag == Flag::High
            invariant
                begin <= end <= n,
                n == self.signal.len(),
                s == self.signal@,
                self.position == old(self).position,
                self.signal == old(self).signal,
                run_end(s, end as int) == run_end(s, begin as int),
            decreases n - end,
        {
            end = end + 1;
        }
        self.position = if end < n {
            end + 1
        } else {
            n
        };
        let count = end - begin;
        if count == 0 {
            None
        } else if count == 1 {
            Some(
                PeakEstimate::Exact(
                    FftPoint {
                        x: to_microbins(self.signal[begin].bin),
                        y: self.signal[begin].magnitude,
                    },
                ),
            )
        } else if count == 2 {
            let at = if self.signal[begin].magnitude > self.signal[begin + 1].magnitude {
                begin
            } else {
                begin + 1
            };
            Some(
                PeakEstimate::Exact(
                    FftPoint { x: to_microbins(self.signal[at].bin), y: self.signal[at].magnitude },
                ),
            )
        } else {
            Some(PeakEstimate::Fit { begin, end: end - 1 })
        }
    }

    /// The peaks of all runs to come, up to the first place where no run
    /// begins.
    pub fn collect(self) -> (peaks: Vec<FrequencyBin>)
        requires
            self.well_formed(),
        ensures
            peaks@ == peaks_from(self.points(), self.position()),
    {
        let mut peaks: Vec<FrequencyBin> = Vec::new();
        let ghost s = self.signal@;
        let ghost start = self.position as int;
        let mut iter = self;
        loop
            invariant_except_break
                peaks_from(s, start) == peaks@ + peaks_from(s, iter.position()),
            invariant
                iter.well_formed(),
                iter.points() == s,
                0 <= start,
            ensures
                peaks@ == peaks_from(s, start),
            decreases s.len() - iter.position(),
        {
            let ghost pos = iter.position();
            proof {
                lemma_run_bounds(s, pos);
            }
            match iter.next() {
                None => {
                    assert(peaks_from(s, pos) =~= Seq::empty());
                    assert(peaks@ + Seq::<FrequencyBin>::empty() =~= peaks@);
                    break ;
                },
                Some(peak) => {
                    let ghost before = peaks@;
                    peaks.push(peak);
                    proof {
                        assert(peaks_from(s, pos) == seq![peak] + peaks_from(s, after_run(s, pos)));
                        assert(before + (seq![peak] + peaks_from(s, after_run(s, pos)))
                            =~= before.push(peak) + peaks_from(s, after_run(s, pos)));
                    }
                },
            }
        }
        peaks
    }

    /// What all runs to come say of their peaks, up to the first place
    /// where no run begins.
    pub fn collect_estimates(self) -> (estimates: Vec<PeakEstimate>)
        requires
            self.well_formed(),
        ensures
            estimates@ == estimates_from(self.points(), self.position()),
    {
        let mut estimates: Vec<PeakEstimate> = Vec::new();
        let ghost s = self.signal@;
        let ghost start = self.position as int;
        let mut iter = self;
        loop
            invariant_except_break
                estimates_from(s, start) == estimates@ + estimates_from(s, iter.position()),
            invariant
                iter.well_formed(),
                iter.points() == s,
                0 <= start,
            ensures
                estimates@ == estimates_from(s, start),
            decreases s.len() - iter.position(),
        {
            let ghost pos = iter.position();
            proof {
                lemma_run_bounds(s, pos);
            }
            match iter.next_estimate() {
                None => {
                    assert(estimates_from(s, pos) =~= Seq::empty());
                    assert(estimates@ + Seq::<PeakEstimate>::empty() =~= estimates@);
                    break ;
                },
                Some(estimate) => {
                    let ghost before = estimates@;
                    estimates.push(estimate);
                    proof {
                        let rest = estimates_from(s, after_run(s, pos));
                        assert(estimates_from(s, pos) == seq![estimate] + rest);
                        assert(before + (seq![estimate] + rest) =~= before.push(estimate) + rest);
                    }
                },
            }
        }
        estimates
    }
}

/// What all runs from `pos` on say of their peaks, up to the first place
/// where no run begins.
pub open spec fn estimates_from(s: Seq<FlaggedBin>, pos: int) -> Seq<PeakEstimate>
    decreases s.len() - pos,
    when 0 <= pos
    via estimates_from_decreases
{
    match run_estimate(s, pos) {
        None => Seq::empty(),
        Some(estimate) => seq![estimate] + estimates_from(s, after_run(s, pos)),
    }
}

#[via_fn]
proof fn estimates_from_decreases(s: Seq<FlaggedBin>, pos: int) {
    lemma_run_bounds(s, pos);
}

/// An estimate that calls for a fit names three positions or more, all of
/// them positions of points.
pub proof fn lemma_estimates_within(s: Seq<FlaggedBin>, pos: int)
    requires
        0 <= pos,
        s.len() <= usize::MAX,
    ensures
        forall|k: int|
            0 <= k < estimates_from(s, pos).len() ==> (#[trigger] estimates_from(s, pos)[k]
                matches PeakEstimate::Fit { begin, end } ==> begin + 2 <= end < s.len()),
    decreases s.len() - pos,
{
    lemma_run_bounds(s, pos);
    match run_estimate(s, pos) {
        None => {
            assert(estimates_from(s, pos) =~= Seq::empty());
        },
        Some(estimate) => {
            lemma_estimates_within(s, after_run(s, pos));
            let rest = estimates_from(s, after_run(s, pos));
            assert(estimates_from(s, pos) =~= seq![estimate] + rest);
            assert forall|k: int| 0 <= k < estimates_from(s, pos).len() implies (#[trigger] estimates_from(
                s,
                pos,
            )[k] matches PeakEstimate::Fit { begin, end } ==> begin + 2 <= end < s.len()) by {
                if k > 0 {
                    assert(estimates_from(s, pos)[k] == rest[k - 1]);
                }
            }
        },
    }
}

/// What a fit is given for the points from position `begin` to position
/// `end` inclusive: their bins, in millionths, and their magnitudes.
pub open spec fn stream_request(s: Seq<FlaggedBin>, begin: int, end: int) -> (Seq<i64>, Seq<i64>) {
    (
        Seq::new((end + 1 - begin) as nat, |i: int| microbins(s[begin + i].bin as int) as i64),
        Seq::new((end + 1 - begin) as nat, |i: int| s[begin + i].magnitude),
    )
}

/// `peak` is the peak that an estimate comes to: the point itself where
/// the estimate is one, and else the centre and the amplitude of the curve
/// that `fit` fits to the points; none where the fit fails.
pub open spec fn is_peak_of_estimate<F: Fn(Vec<i64>, Vec<i64>) -> Fit>(
    s: Seq<FlaggedBin>,
    estimate: PeakEstimate,
    fit: F,
    peak: Option<FftPoint>,
) -> bool {
    match estimate {
        PeakEstimate::Exact(point) => peak == Some(point),
        PeakEstimate::Fit { begin, end } => exists|x: Vec<i64>, y: Vec<i64>, found: Fit|
            (x@, y@) == stream_request(s, begin as int, end as int) && #[trigger] fit.ensures(
                (x, y),
                found,
            ) && peak == match found {
                Ok((mu, _, a)) => Some(FftPoint { x: mu, y: a }),
                Err(_) => None,
            },
    }
}

/// `points` holds the peaks that the estimates come to, one after the
/// other, up to the first whose fit fails.
pub open spec fn are_peaks_of_estimates<F: Fn(Vec<i64>, Vec<i64>) -> Fit>(
    s: Seq<FlaggedBin>,
    estimates: Seq<PeakEstimate>,
    fit: F,
    points: Seq<FftPoint>,
) -> bool {
    &&& points.len() <= estimates.len()
    &&& forall|k: int|
        0 <= k < points.len() ==> is_peak_of_estimate(
            s,
            estimates[k],
            fit,
            Some(#[trigger] points[k]),
        )
    &&& points.len() < estimates.len() ==> is_peak_of_estimate(
        s,
        estimates[points.len() as int],
        fit,
        None,
    )
}

/// The peak that an estimate comes to, with `fit` to fit a curve to the
/// points of a run of three or more.
pub fn peak_of_estimate<F: Fn(Vec<i64>, Vec<i64>) -> Fit>(
    stream: &Vec<FlaggedBin>,
    estimate: PeakEstimate,
    fit: &F,
) -> (peak: Option<FftPoint>)
    requires
        forall|x: Vec<i64>, y: Vec<i64>| #[trigger] fit.requires((x, y)),
        estimate matches PeakEstimate::Fit { begin, end } ==> begin <= end < stream.len(),
    ensures
        is_peak_of_estimate(stream@, estimate, *fit, peak),
{
    match estimate {
        PeakEstimate::Exact(point) => Some(point),
        PeakEstimate::Fit { begin, end } => {
            let mut x_vals: Vec<i64> = Vec::new();
            let mut y_vals: Vec<i64> = Vec::new();
            let mut i: usize = begin;
            while i <= end
                invariant
                    begin <= i <= end + 1,
                    end < stream.len(),
                    x_vals.len() == i - begin,
                    y_vals.len() == i - begin,
                    forall|j: int|
                        0 <= j < x_vals.len() ==> #[trigger] x_vals[j] == microbins(
                            stream[begin + j].bin as int,
                        ),
                    forall|j: int|
                        0 <= j < y_vals.len() ==> #[trigger] y_vals[j] == stream[begin + j].magnitude,
                decreases end + 1 - i,
            {
                x_vals.push(to_microbins(stream[i].bin));
                y_vals.push(stream[i].magnitude);
                i = i + 1;
            }
            assert(x_vals@ =~= stream_request(stream@, begin as int, end as int).0);
            assert(y_vals@ =~= stream_request(stream@, begin as int, end as int).1);
            let ghost xs = x_vals;
            let ghost ys = y_vals;
            let found = fit(x_vals, y_vals);
            assert(fit.ensures((xs, ys), found));
            match found {
                Ok((mu, _, a)) => Some(FftPoint { x: mu, y: a }),
                Err(_) => None,
            }
        },
    }
}

/// `peak` is the strongest of the peaks of the runs of a stream of flagged
/// points: each run is refined to its peak, up to the first whose fit
/// fails, and the peak of the largest amplitude, the first of them where
/// several have it, is taken; none where there are no peaks.
pub open spec fn is_strongest_flagged_peak<F: Fn(Vec<i64>, Vec<i64>) -> Fit>(
    s: Seq<FlaggedBin>,
    fit: F,
    peak: Option<FftPoint>,
) -> bool {
    exists|points: Seq<FftPoint>| #[trigger]
        are_peaks_of_estimates(s, estimates_from(s, 0), fit, points) && if points.len() == 0 {
            peak.is_none()
        } else {
            exists|at: int| #[trigger] is_strongest(points, at) && peak == Some(points[at])
        }
}

/// The strongest peak of a stream of flagged points: every run of points
/// flagged as high is refined to its peak, by `fit` where it has three
/// points or more, and of these peaks the one of the largest amplitude is
/// taken.
pub fn strongest_flagged_peak<F: Fn(Vec<i64>, Vec<i64>) -> Fit>(
    stream: Vec<FlaggedBin>,
    fit: &F,
) -> (peak: Option<FftPoint>)
    requires
        forall|x: Vec<i64>, y: Vec<i64>| #[trigger] fit.requires((x, y)),
    ensures
        is_strongest_flagged_peak(stream@, *fit, peak),
{
    let mut points_of_stream: Vec<FlaggedBin> = Vec::new();
    let mut i: usize = 0;
    while i < stream.len()
        invariant
            i <= stream.len(),
            points_of_stream.len() == i,
            forall|j: int| 0 <= j < i ==> #[trigger] points_of_stream[j] == stream[j],
        decreases stream.len() - i,
    {
        points_of_stream.push(stream[i]);
        i = i + 1;
    }
    assert(points_of_stream@ =~= stream@);
    let estimates = PeakIter::new(points_of_stream).collect_estimates();
    proof {
        lemma_estimates_within(stream@, 0);
    }
    let mut points: Vec<FftPoint> = Vec::new();
    let mut k: usize = 0;
    while k < estimates.len()
        invariant_except_break
            points.len() == k,
        invariant
            k <= estimates.len(),
            points.len() <= k,
            estimates@ == estimates_from(stream@, 0),
            forall|x: Vec<i64>, y: Vec<i64>| #[trigger] fit.requires((x, y)),
            forall|j: int|
                0 <= j < estimates.len() ==> (#[trigger] estimates[j] matches PeakEstimate::Fit {
                    begin,
                    end,
                } ==> begin + 2 <= end < stream.len()),
            forall|j: int|
                0 <= j < points.len() ==> is_peak_of_estimate(
                    stream@,
                    estimates[j],
                    *fit,
                    Some(#[trigger] points[j]),
                ),
        ensures
            are_peaks_of_estimates(stream@, estimates@, *fit, points@),
        decreases estimates.len() - k,
    {
        assert(estimates[k as int] == estimates[k as int]);
        match peak_of_estimate(&stream, estimates[k], fit) {
            Some(point) => {
                let ghost before = points@;
                points.push(point);
                assert forall|j: int| 0 <= j < points.len() implies is_peak_of_estimate(
                    stream@,
                    estimates[j],
                    *fit,
                    Some(#[trigger] points[j]),
                ) by {
                    if j < before.len() {
                        assert(points[j] == before[j]);
                        assert(is_peak_of_estimate(stream@, estimates[j], *fit, Some(before[j])));
                    }
                }
            },
            None => {
                break ;
            },
        }
        k = k + 1;
    }
    strongest(points.as_slice())
}

} // verus!
