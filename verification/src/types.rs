//! Shared value model: fixed-point scale, value ranges, observation shape,
//! error kinds and the per-tick indicator result.

use vstd::prelude::*;

verus! {

/// Number of fixed-point units in `1.0`: every value of the library is an
/// `i64` holding the real quantity multiplied by this scale.
pub const SCALE_ONE: i64 = 1_000_000;

/// Largest magnitude an observation may have (one million whole units at
/// the fixed-point scale). Keeping observations within this bound lets every
/// running sum over a window of up to 255 elements fit in an `i64`.
pub const VAL_MAX: i64 = 1_000_000_000_000;

/// An observation value is admissible when its magnitude is at most [`VAL_MAX`].
pub open spec fn in_range(v: i64) -> bool {
    -VAL_MAX <= v <= VAL_MAX
}

/// Method outputs stay within twice the observation bound (a difference of
/// two admissible values).
pub open spec fn in_range2(v: i64) -> bool {
    -2 * VAL_MAX <= v <= 2 * VAL_MAX
}

/// Every element of the sequence is an admissible observation.
pub open spec fn in_range_seq(s: Seq<i64>) -> bool {
    forall|i: int| 0 <= i < s.len() ==> in_range(#[trigger] s[i])
}

/// Error kinds of the library.
///
/// `WrongConfig` is raised only when an indicator configuration fails its
/// validation predicate at `init` time. `WrongMethodParameters` is raised by
/// a method constructor given an invalid parameter (a zero period).
/// `ParameterParse` carries the parameter name and the raw string that the
/// dynamic `set` path could not parse (or an unrecognized name).
#[derive(Debug, Clone, PartialEq, Eq)]
pub enum Error {
    WrongConfig,
    WrongMethodParameters,
    ParameterParse(String, String),
}

/// Which field of a candle an indicator reads as its input stream.
#[derive(Debug, Clone, Copy, PartialEq, Eq, Structural)]
pub enum Source {
    Open,
    High,
    Low,
    Close,
    Volume,
}

/// One observation of an open/high/low/close/volume series, in fixed-point
/// units.
#[derive(Debug, Clone, Copy, PartialEq, Eq, Structural)]
pub struct Candle {
    pub open: i64,
    pub high: i64,
    pub low: i64,
    pub close: i64,
    pub volume: i64,
}

/// All five fields of the candle are admissible observations.
pub open spec fn candle_in_range(c: Candle) -> bool {
    in_range(c.open) && in_range(c.high) && in_range(c.low) && in_range(c.close)
        && in_range(c.volume)
}

/// The field of `c` selected by `s`, as a spec-level function.
pub open spec fn source_of(c: Candle, s: Source) -> i64 {
    match s {
        Source::Open => c.open,
        Source::High => c.high,
        Source::Low => c.low,
        Source::Close => c.close,
        Source::Volume => c.volume,
    }
}

impl Candle {
    /// Extract the configured source field from this candle.
    pub fn source(&self, s: Source) -> (r: i64)
        ensures
            r == source_of(*self, s),
    {
        match s {
            Source::Open => self.open,
            Source::High => self.high,
            Source::Low => self.low,
            Source::Close => self.close,
            Source::Volume => self.volume,
        }
    }
}

/// The fixed-width per-tick output of an indicator: a tuple of continuous
/// values and a tuple of discrete signals. Signals are small signed numbers:
/// `1` is a buy, `-1` a sell, `0` no signal.
#[derive(Debug, Clone)]
pub struct IndicatorResult {
    pub values: Vec<i64>,
    pub signals: Vec<i8>,
}

impl IndicatorResult {
    /// Assemble a result from its value and signal tuples.
    pub fn new(values: Vec<i64>, signals: Vec<i8>) -> (r: IndicatorResult)
        ensures
            r.values@ == values@,
            r.signals@ == signals@,
    {
        IndicatorResult { values, signals }
    }
}

} // verus!
