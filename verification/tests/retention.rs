use jt_init_logging::CompletedTasks;
use jt_init_logging::RETENTION_WINDOW_SECS;

#[test]
fn default_window_is_three_hundred_seconds() {
    assert_eq!(RETENTION_WINDOW_SECS, 300);
}

#[test]
fn record_is_observable_just_inside_the_window() {
    let mut store = CompletedTasks::with_default_window();
    store.record_completed(7, 1000);
    store.evict_expired(1000 + RETENTION_WINDOW_SECS - 1);
    assert!(store.contains_task(7));
    assert_eq!(store.len(), 1);
}

#[test]
fn record_is_evicted_at_the_window_boundary() {
    let mut store = CompletedTasks::with_default_window();
    store.record_completed(7, 1000);
    store.evict_expired(1000 + RETENTION_WINDOW_SECS);
    assert!(!store.contains_task(7));
    assert_eq!(store.len(), 0);
}

#[test]
fn eviction_keeps_younger_records_and_drops_older_ones() {
    let mut store = CompletedTasks::new(60);
    store.record_completed(1, 100);
    store.record_completed(2, 150);
    store.record_completed(3, 190);
    store.evict_expired(200);
    assert!(!store.contains_task(1));
    assert!(store.contains_task(2));
    assert!(store.contains_task(3));
    assert_eq!(store.len(), 2);
}

#[test]
fn eviction_at_insert_time_keeps_the_record() {
    let mut store = CompletedTasks::new(1);
    store.record_completed(9, 500);
    store.evict_expired(500);
    assert!(store.contains_task(9));
}

#[test]
fn empty_store_contains_nothing() {
    let store = CompletedTasks::with_default_window();
    assert!(!store.contains_task(0));
    assert_eq!(store.len(), 0);
}
