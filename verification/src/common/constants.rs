//! The range of musical pitch and the tolerance of tuning. Frequencies are
//! counted in millihertz, cents in thousandths.
use vstd::prelude::*;

verus! {

/// C6, in millihertz.
pub const MAX_FREQ: i64 = 1_046_500;

/// C1, in millihertz.
pub const MIN_FREQ: i64 = 32_700;

/// The least rate of zero crossings of a signal with a pitch, in millihertz.
pub const MIN_ZERO_CROSSING_RATE: i64 = 350_000;

/// A4, in millihertz.
pub const A4_FREQ: i64 = 440_000;

/// A noticeable pitch difference starts at around 10 to 25 cents.
/// In thousandths of a cent.
pub const MAX_CENTS_OFFSET: i64 = 10_000;

/// A semitone, in thousandths of a cent.
pub const NUM_CENTS_BETWEEN_NOTES: i64 = 100_000;

} // verus!
