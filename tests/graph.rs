use queery::graph::{chart_for_period, encode_graph, plan_log_graph, GraphError, IMAGE_BYTES};
use queery::log::Log;
use queery::time_period::TimePeriod;

fn log(time: i64, count: i32) -> Log {
    Log { id: 1, channel_id: 8, count, time }
}

#[test]
fn render_empty_input_fails() {
    assert_eq!(
        plan_log_graph(Vec::new(), 0, 3600, TimePeriod::Hour).map(|_| ()),
        Err(GraphError::EmptyInput)
    );
}

#[test]
fn plan_sorts_bars_and_finds_max() {
    let plan = plan_log_graph(vec![log(90, 2), log(30, 7), log(60, 0)], 0, 120, TimePeriod::Hour)
        .expect("planned");
    let bars: Vec<(i64, i32)> = plan.bars.iter().map(|l| (l.time, l.count)).collect();
    assert_eq!(bars, vec![(30, 7), (60, 0), (90, 2)]);
    assert_eq!(plan.max_count, 7);
    assert_eq!(plan.x_start, -30);
    assert_eq!(plan.x_end, 150);
    assert_eq!(plan.period, TimePeriod::Hour);
}

#[test]
fn plan_allows_flat_chart() {
    let plan = plan_log_graph(vec![log(0, 0), log(30, 0)], 0, 60, TimePeriod::Hour).expect("planned");
    assert_eq!(plan.max_count, 0);
}

#[test]
fn plan_rejects_overflowing_axis() {
    assert_eq!(
        plan_log_graph(vec![log(0, 1)], i64::MIN, 60, TimePeriod::Hour).map(|_| ()),
        Err(GraphError::AxisDomain)
    );
    assert_eq!(
        plan_log_graph(vec![log(0, 1)], 0, i64::MAX - 29, TimePeriod::Hour).map(|_| ()),
        Err(GraphError::AxisDomain)
    );
}

#[test]
fn chart_for_day_merges_and_pads() {
    let logs = vec![log(57600, 1), log(57630, 2), log(58320, 3)];
    let plan = chart_for_period(logs, TimePeriod::Day, 100000).expect("planned");
    let bars: Vec<(i64, i32)> = plan.bars.iter().map(|l| (l.time, l.count)).collect();
    assert_eq!(bars, vec![(57600, 3), (58320, 3)]);
    assert_eq!(plan.max_count, 3);
    assert_eq!(plan.x_start, 100000 - 43200 - 30);
    assert_eq!(plan.x_end, 100030);
}

#[test]
fn chart_for_period_errors() {
    assert_eq!(
        chart_for_period(Vec::new(), TimePeriod::Week, 100000).map(|_| ()),
        Err(GraphError::EmptyInput)
    );
    assert_eq!(
        chart_for_period(vec![log(0, -2)], TimePeriod::Day, 100000).map(|_| ()),
        Err(GraphError::Counts)
    );
    assert_eq!(
        chart_for_period(vec![log(0, 1)], TimePeriod::Hour, i64::MIN + 100).map(|_| ()),
        Err(GraphError::AxisDomain)
    );
}

#[test]
fn chart_for_hour_does_not_sum_counts() {
    let logs = vec![log(99930, i32::MAX), log(99960, i32::MAX)];
    let plan = chart_for_period(logs.clone(), TimePeriod::Hour, 100000).expect("planned");
    assert_eq!(plan.bars, logs);
    assert_eq!(plan.max_count, i64::from(i32::MAX));
    assert_eq!(
        chart_for_period(logs, TimePeriod::HalfDay, 100000).map(|_| ()),
        Err(GraphError::Counts)
    );
}

#[test]
fn encode_graph_makes_png() {
    let pixels = vec![0u8; IMAGE_BYTES];
    let png = encode_graph(&pixels).expect("encoded");
    assert_eq!(&png[..8], &[0x89, b'P', b'N', b'G', 0x0D, 0x0A, 0x1A, 0x0A]);
    assert!(png.len() < pixels.len());
}
