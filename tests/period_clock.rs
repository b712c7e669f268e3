use queery::clock::{bucket_of, RESOLUTION};
use queery::time_period::TimePeriod;

#[test]
fn hour_lower_bound_from_now() {
    assert_eq!(TimePeriod::Hour.relative_timestamp_from(100000), 96400);
}

#[test]
fn lookback_table() {
    assert_eq!(TimePeriod::Hour.lookback_seconds(), 3600);
    assert_eq!(TimePeriod::HalfDay.lookback_seconds(), 21600);
    assert_eq!(TimePeriod::Day.lookback_seconds(), 43200);
    assert_eq!(TimePeriod::Week.lookback_seconds(), 302400);
    assert_eq!(TimePeriod::Week.relative_timestamp_from(1_000_000), 697600);
}

#[test]
fn display_resolution_table() {
    assert_eq!(TimePeriod::Hour.display_resolution(), RESOLUTION);
    assert_eq!(TimePeriod::HalfDay.display_resolution(), 360);
    assert_eq!(TimePeriod::Day.display_resolution(), 720);
    assert_eq!(TimePeriod::Week.display_resolution(), 2520);
}

#[test]
fn interval_text_names_bucket_width() {
    assert_eq!(TimePeriod::Hour.interval_text(), "30 seconds");
    assert_eq!(TimePeriod::HalfDay.interval_text(), "6 minutes");
    assert_eq!(TimePeriod::Day.interval_text(), "12 minutes");
    assert_eq!(TimePeriod::Week.interval_text(), "42 minutes");
}

#[test]
fn bucket_of_rounds_down() {
    assert_eq!(bucket_of(95, 30), 90);
    assert_eq!(bucket_of(90, 30), 90);
    assert_eq!(bucket_of(0, 30), 0);
    assert_eq!(bucket_of(29, 30), 0);
    assert_eq!(bucket_of(1698569658, RESOLUTION), 1698569640);
}

#[test]
fn bucket_of_is_idempotent() {
    for t in [0i64, 1, 29, 30, 31, 1698569658, i64::MAX] {
        let b = bucket_of(t, RESOLUTION);
        assert_eq!(bucket_of(b, RESOLUTION), b);
    }
}
