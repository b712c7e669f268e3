use queery::log::Log;
use queery::store::{is_counted, plan_increment, CounterStore, IncrementAction, StorageError};

#[test]
fn two_increments_create_then_update() {
    let mut store = CounterStore::new();
    assert_eq!(store.increment(1, 1000, 1), Ok(()));
    let first = store.find_counter(1, 990).expect("row created");
    assert_eq!(first.count, 1);
    assert_eq!(first.id, 1);
    assert_eq!(store.increment(1, 1000, 2), Ok(()));
    let second = store.find_counter(1, 990).expect("row kept");
    assert_eq!(second.count, 2);
    assert_eq!(second.id, first.id);
}

#[test]
fn increments_keep_one_row_per_key() {
    let mut store = CounterStore::new();
    let events = [(1i64, 0i64), (1, 5), (2, 5), (1, 29), (1, 30), (2, 59), (1, 31)];
    for (n, (channel, t)) in events.into_iter().enumerate() {
        assert_eq!(store.increment(channel, t, n as u128), Ok(()));
    }
    let one = store.scan_range(1, i64::MIN, i64::MAX);
    let two = store.scan_range(2, i64::MIN, i64::MAX);
    let one_keys: Vec<(i64, i32)> = one.iter().map(|l| (l.time, l.count)).collect();
    let two_keys: Vec<(i64, i32)> = two.iter().map(|l| (l.time, l.count)).collect();
    assert_eq!(one_keys, vec![(0, 3), (30, 2)]);
    assert_eq!(two_keys, vec![(0, 1), (30, 1)]);
}

#[test]
fn scan_range_filters_and_orders() {
    let mut store = CounterStore::new();
    for (n, t) in [300i64, 60, 0, 120, 90].into_iter().enumerate() {
        assert_eq!(store.increment(4, t, n as u128), Ok(()));
    }
    assert_eq!(store.increment(5, 90, 10), Ok(()));
    let rows = store.scan_range(4, 60, 120);
    let times: Vec<i64> = rows.iter().map(|l| l.time).collect();
    assert_eq!(times, vec![60, 90, 120]);
    assert!(rows.iter().all(|l| l.channel_id == 4));
    assert!(store.scan_range(6, i64::MIN, i64::MAX).is_empty());
}

#[test]
fn find_counter_misses_other_keys() {
    let mut store = CounterStore::new();
    assert_eq!(store.increment(1, 45, 1), Ok(()));
    assert!(store.find_counter(1, 30).is_some());
    assert!(store.find_counter(1, 45).is_none());
    assert!(store.find_counter(2, 30).is_none());
}

#[test]
fn create_counter_refuses_duplicate_key() {
    let mut store = CounterStore::new();
    let id = 40;
    assert_eq!(store.create_counter(id, 3, 60), Ok(()));
    assert_eq!(store.create_counter(41, 3, 60), Err(StorageError::DuplicateKey));
    let row = store.find_counter(3, 60).expect("present");
    assert_eq!(row, Log { id, channel_id: 3, count: 1, time: 60 });
}

#[test]
fn created_rows_keep_their_ids() {
    let mut store = CounterStore::new();
    assert_eq!(store.create_counter(100, 3, 0), Ok(()));
    assert_eq!(store.create_counter(101, 3, 30), Ok(()));
    assert!(store.contains_id(100));
    assert!(store.contains_id(101));
    assert!(!store.contains_id(102));
    assert_eq!(store.find_counter(3, 30).expect("present").id, 101);
}

#[test]
fn set_count_overwrites_and_reports_missing_id() {
    let mut store = CounterStore::new();
    let id = 50;
    assert_eq!(store.create_counter(id, 3, 60), Ok(()));
    assert_eq!(store.set_count(id, 41), Ok(()));
    assert_eq!(store.find_counter(3, 60).expect("present").count, 41);
    assert_eq!(store.set_count(id ^ 1, 5), Err(StorageError::NotFound));
    assert_eq!(store.find_counter(3, 60).expect("present").count, 41);
}

#[test]
fn increment_at_max_count_overflows() {
    let mut store = CounterStore::new();
    let id = 50;
    assert_eq!(store.create_counter(id, 3, 60), Ok(()));
    assert_eq!(store.set_count(id, i32::MAX), Ok(()));
    assert_eq!(store.increment(3, 75, 51), Err(StorageError::CountOverflow));
    assert_eq!(store.find_counter(3, 60).expect("present").count, i32::MAX);
}

#[test]
fn plan_increment_decides_update_or_create() {
    let found = Log { id: 9, channel_id: 2, count: 4, time: 60 };
    assert_eq!(plan_increment(Some(found), 2, 60), Ok(IncrementAction::Update { id: 9, count: 5 }));
    assert_eq!(plan_increment(None, 2, 60), Ok(IncrementAction::Create { channel_id: 2, time: 60 }));
    let full = Log { count: i32::MAX, ..found };
    assert_eq!(plan_increment(Some(full), 2, 60), Err(StorageError::CountOverflow));
}

#[test]
fn own_messages_are_not_counted() {
    assert!(is_counted(12, 99));
    assert!(!is_counted(99, 99));
}
