use vstd::prelude::*;

use crate::clock::RESOLUTION;
use crate::log::{is_mergeable, mergeable, sort_by_time, sorted_by_time, Log};
use crate::time_period::{display_width, displayed, lookback, TimePeriod};

verus! {

/// Width of the chart image, in pixels.
pub const WIDTH: usize = 1400;

/// Height of the chart image, in pixels.
pub const HEIGHT: usize = 700;

/// Bytes of one pixel of the chart image: red, green and blue.
pub const PIXEL_BYTES: usize = 3;

/// Bytes of the raw chart image.
pub const IMAGE_BYTES: usize = WIDTH * HEIGHT * PIXEL_BYTES;

/// Why a chart could not be made.
#[derive(Clone, Copy, Debug, PartialEq, Eq, Structural)]
pub enum GraphError {
    /// There are no logs to show.
    EmptyInput,
    /// The time axis, padded by one resolution on each side, does not fit in an `i64`.
    AxisDomain,
    /// The logs cannot be merged: a count is negative, a merged count does not
    /// fit in an `i32`, or a start plus the display width does not fit in an `i64`.
    Counts,
    /// The image could not be encoded.
    Encode,
}

/// What a histogram of logs shows: its bars, the ranges of its axes and the
/// period whose bucket width labels the time axis.
#[derive(Debug)]
pub struct GraphPlan {
    /// One bar per log, at its start and as high as its count, ordered by start.
    pub bars: Vec<Log>,
    /// Top of the count axis: the highest count of a bar.
    pub max_count: i64,
    /// Left end of the time axis.
    pub x_start: i64,
    /// Right end of the time axis.
    pub x_end: i64,
    /// Period shown.
    pub period: TimePeriod,
}

/// `m` is the highest count among the logs.
pub open spec fn is_max_count(logs: Seq<Log>, m: int) -> bool {
    &&& exists|i: int| 0 <= i < logs.len() && #[trigger] logs[i].count == m
    &&& forall|i: int| 0 <= i < logs.len() ==> #[trigger] logs[i].count <= m
}

/// `r` is the layout of the histogram of `logs` between `start` and `end`:
/// no logs is an error, and so is a time axis whose padding overflows;
/// otherwise the bars are the logs ordered by start, the count axis reaches
/// the highest count, and the time axis is padded by one resolution on each side.
pub open spec fn graph_outcome(
    logs: Seq<Log>,
    start: i64,
    end: i64,
    period: TimePeriod,
    r: Result<GraphPlan, GraphError>,
) -> bool {
    &&& logs.len() == 0 ==> r == Err::<GraphPlan, GraphError>(GraphError::EmptyInput)
    &&& logs.len() > 0 && (start - RESOLUTION < i64::MIN || end + RESOLUTION > i64::MAX) ==> r
        == Err::<GraphPlan, GraphError>(GraphError::AxisDomain)
    &&& logs.len() > 0 && start - RESOLUTION >= i64::MIN && end + RESOLUTION <= i64::MAX ==> r is Ok
    &&& r matches Ok(plan) ==> {
        &&& plan.bars@.to_multiset() == logs.to_multiset()
        &&& sorted_by_time(plan.bars@)
        &&& is_max_count(logs, plan.max_count as int)
        &&& plan.x_start == start - RESOLUTION
        &&& plan.x_end == end + RESOLUTION
        &&& plan.period == period
    }
}

/// Lays out the histogram of `logs` between `start_timestamp` and
/// `end_timestamp`: the bars ordered by start, the count axis up to the highest
/// count, and the time axis padded by one resolution on each side.
pub fn plan_log_graph(logs: Vec<Log>, start_timestamp: i64, end_timestamp: i64, period: TimePeriod) -> (r: Result<GraphPlan, GraphError>)
    ensures
        graph_outcome(logs@, start_timestamp, end_timestamp, period, r),
{
    let mut bars = logs;
    sort_by_time(&mut bars);
    proof {
        bars@.to_multiset_ensures();
        logs@.to_multiset_ensures();
    }
    if bars.len() == 0 {
        proof {
            assert(logs@.to_multiset().len() == 0);
        }
        return Err(GraphError::EmptyInput);
    }
    if start_timestamp < i64::MIN + RESOLUTION || end_timestamp > i64::MAX - RESOLUTION {
        return Err(GraphError::AxisDomain);
    }
    let mut max: i32 = bars[0].count;
    let mut i: usize = 1;
    while i < bars.len()
        invariant
            1 <= i <= bars@.len(),
            exists|k: int| 0 <= k < i && #[trigger] bars@[k].count == max,
            forall|k: int| 0 <= k < i ==> #[trigger] bars@[k].count <= max,
        decreases bars@.len() - i,
    {
        if bars[i].count > max {
            max = bars[i].count;
        }
        i = i + 1;
    }
    proof {
        assert forall|k: int| 0 <= k < logs@.len() implies #[trigger] logs@[k].count <= max by {
            assert(logs@.to_multiset().count(logs@[k]) > 0);
            assert(bars@.contains(logs@[k]));
        }
        let k = choose|k: int| 0 <= k < bars@.len() && #[trigger] bars@[k].count == max;
        assert(bars@.to_multiset().count(bars@[k]) > 0);
        assert(logs@.contains(bars@[k]));
    }
    Ok(GraphPlan {
        bars,
        max_count: max as i64,
        x_start: start_timestamp - RESOLUTION,
        x_end: end_timestamp + RESOLUTION,
        period,
    })
}

/// Lays out the chart of the logs of the period that ends at `now`: the logs
/// are shown as the period shows them, over the span from the period's
/// lookback before `now` up to `now`. Fails with `AxisDomain` where that span
/// does not fit in an `i64`, and with `Counts` where a period longer than an
/// hour cannot merge the logs (a negative count, a merged count over
/// `i32::MAX`, or a start too close to the end of `i64`).
pub fn chart_for_period(logs: Vec<Log>, period: TimePeriod, now: i64) -> (r: Result<GraphPlan, GraphError>)
    ensures
        now - lookback(period) < i64::MIN ==> r == Err::<GraphPlan, GraphError>(GraphError::AxisDomain),
        now - lookback(period) >= i64::MIN && period != TimePeriod::Hour && !mergeable(
            logs@,
            display_width(period),
        ) ==> r == Err::<GraphPlan, GraphError>(GraphError::Counts),
        now - lookback(period) >= i64::MIN && (period == TimePeriod::Hour || mergeable(
            logs@,
            display_width(period),
        )) ==> graph_outcome(
            displayed(period, logs@),
            (now - lookback(period)) as i64,
            now,
            period,
            r,
        ),
{
    if now < i64::MIN + period.lookback_seconds() {
        return Err(GraphError::AxisDomain);
    }
    let start = period.relative_timestamp_from(now);
    if period != TimePeriod::Hour && !is_mergeable(&logs, period.display_resolution()) {
        return Err(GraphError::Counts);
    }
    let shown = period.aggregate(logs);
    plan_log_graph(shown, start, now, period)
}

#[verifier::external_type_specification]
#[verifier::external_body]
pub struct ExPngError(lodepng::Error);

/// The PNG file that lodepng makes of `pixels`, 8-bit RGB, `width` by
/// `height`, or `None` where it reports an error.
pub uninterp spec fn png24_of(pixels: Seq<u8>, width: nat, height: nat) -> Option<Seq<u8>>;

/// Relies on `lodepng::encode24`: encodes 8-bit RGB pixels, `width` by
/// `height`, as a PNG file; with default settings the outcome depends on its
/// arguments alone. It asserts (in debug builds) that the buffer has exactly
/// three bytes per pixel.
#[verifier::external_body]
fn encode_rgb(pixels: &[u8], width: usize, height: usize) -> (r: Result<Vec<u8>, lodepng::Error>)
    requires
        pixels@.len() == width * height * 3,
        width <= u32::MAX,
        height <= u32::MAX,
    ensures
        match png24_of(pixels@, width as nat, height as nat) {
            Some(png) => r matches Ok(bytes) && bytes@ == png,
            None => r is Err,
        },
{
    lodepng::encode24(pixels, width, height)
}

/// Encodes the raw chart image as a PNG file; fails with `Encode` exactly
/// where lodepng reports an error.
pub fn encode_graph(pixels: &Vec<u8>) -> (r: Result<Vec<u8>, GraphError>)
    requires
        pixels@.len() == IMAGE_BYTES,
    ensures
        match png24_of(pixels@, WIDTH as nat, HEIGHT as nat) {
            Some(png) => r matches Ok(bytes) && bytes@ == png,
            None => r == Err::<Vec<u8>, GraphError>(GraphError::Encode),
        },
{
    match encode_rgb(pixels.as_slice(), WIDTH, HEIGHT) {
        Ok(png) => Ok(png),
        Err(_) => Err(GraphError::Encode),
    }
}

} // verus!
