use vstd::prelude::*;

use crate::clock::RESOLUTION;
use crate::log::{merged, mergeable, ChangeResolution, Log};

verus! {

/// Seconds in an hour.
pub const HOUR: i64 = 3600;

/// Lookback of `TimePeriod::HalfDay`: six hours.
pub const HALF_DAY: i64 = HOUR * 6;

/// Lookback of `TimePeriod::Day`: twelve hours.
pub const DAY: i64 = HOUR * 12;

/// Lookback of `TimePeriod::Week`: seven such days.
pub const WEEK: i64 = DAY * 7;

/// A period of time, looking back from now, over which message counts are shown.
///
/// Each period has a lookback and a display resolution, chosen so that a chart
/// shows at most 120 bars:
///
/// | period  | lookback (s) | display resolution (s) |
/// |---------|--------------|------------------------|
/// | Hour    | 3600         | 30                     |
/// | HalfDay | 21600        | 360                    |
/// | Day     | 43200        | 720                    |
/// | Week    | 302400       | 2520                   |
#[derive(Clone, Copy, Debug, PartialEq, Eq, Structural)]
pub enum TimePeriod {
    Hour,
    HalfDay,
    Day,
    Week,
}

/// How far back from now a period reaches, in seconds.
pub open spec fn lookback(period: TimePeriod) -> int {
    match period {
        TimePeriod::Hour => HOUR as int,
        TimePeriod::HalfDay => HALF_DAY as int,
        TimePeriod::Day => DAY as int,
        TimePeriod::Week => WEEK as int,
    }
}

/// Width, in seconds, of the buckets in which a period is shown.
pub open spec fn display_width(period: TimePeriod) -> int {
    match period {
        TimePeriod::Hour => RESOLUTION as int,
        TimePeriod::HalfDay => 360,
        TimePeriod::Day => 720,
        TimePeriod::Week => 2520,
    }
}

/// Words for the width of a period's buckets, used on the time axis.
pub open spec fn interval_words(period: TimePeriod) -> Seq<char> {
    match period {
        TimePeriod::Hour => "30 seconds"@,
        TimePeriod::HalfDay => "6 minutes"@,
        TimePeriod::Day => "12 minutes"@,
        TimePeriod::Week => "42 minutes"@,
    }
}

/// The logs of a period as they are shown: an hour is shown at the resolution
/// at which logs are kept, longer periods merged to their display width.
pub open spec fn displayed(period: TimePeriod, logs: Seq<Log>) -> Seq<Log> {
    match period {
        TimePeriod::Hour => logs,
        _ => merged(logs, display_width(period)),
    }
}

impl TimePeriod {
    /// How far back from now the period reaches, in seconds.
    pub fn lookback_seconds(self) -> (r: i64)
        ensures
            r == lookback(self),
    {
        match self {
            TimePeriod::Hour => HOUR,
            TimePeriod::HalfDay => HALF_DAY,
            TimePeriod::Day => DAY,
            TimePeriod::Week => WEEK,
        }
    }

    /// Width, in seconds, of the buckets in which the period is shown.
    pub fn display_resolution(self) -> (r: i64)
        ensures
            r == display_width(self),
            r >= RESOLUTION,
    {
        match self {
            TimePeriod::Hour => RESOLUTION,
            TimePeriod::HalfDay => 360,
            TimePeriod::Day => 720,
            TimePeriod::Week => 2520,
        }
    }

    /// The timestamp that lies the period's lookback before `timestamp`.
    pub fn relative_timestamp_from(self, timestamp: i64) -> (r: i64)
        requires
            timestamp - lookback(self) >= i64::MIN,
        ensures
            r == timestamp - lookback(self),
    {
        timestamp - self.lookback_seconds()
    }

    /// Words for the width of the period's buckets, such as "6 minutes".
    pub fn interval_text(self) -> (r: &'static str)
        ensures
            r@ == interval_words(self),
    {
        match self {
            TimePeriod::Hour => "30 seconds",
            TimePeriod::HalfDay => "6 minutes",
            TimePeriod::Day => "12 minutes",
            TimePeriod::Week => "42 minutes",
        }
    }

    /// The logs, ordered by start, as the period shows them.
    pub fn aggregate(self, logs: Vec<Log>) -> (r: Vec<Log>)
        requires
            self != TimePeriod::Hour ==> mergeable(logs@, display_width(self)),
        ensures
            r@ == displayed(self, logs@),
    {
        match self {
            TimePeriod::Hour => logs,
            _ => logs.change_resolution(self.display_resolution()),
        }
    }
}

} // verus!
