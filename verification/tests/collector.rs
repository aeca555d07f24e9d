use clog_tracker::store::{ClogTracker, LogEntry, LogLevel};

fn bits(v: f64) -> u64 {
    v.to_bits()
}

#[test]
fn test_metric_tracking() {
    let mut tracker = ClogTracker::new();
    tracker.log_metric("test_metric".to_string(), bits(42.0), 1);
    let names = tracker.snapshot_metric_names();
    assert!(names.contains(&"test_metric".to_string()));
}

#[test]
fn series_preserves_order_and_count() {
    let mut tracker = ClogTracker::new();
    tracker.record_metric("loss".to_string(), bits(1.0), 0, 10);
    tracker.record_metric("loss".to_string(), bits(0.5), 1, 11);
    tracker.record_metric("loss".to_string(), bits(0.8), 2, 12);
    let series = tracker.snapshot_series(&"loss".to_string()).unwrap();
    assert_eq!(series.len(), 3);
    assert_eq!(series[0].value_bits, bits(1.0));
    assert_eq!(series[1].value_bits, bits(0.5));
    assert_eq!(series[2].value_bits, bits(0.8));
    assert_eq!(series[0].step, 0);
    assert_eq!(series[1].step, 1);
    assert_eq!(series[2].step, 2);
    assert_eq!(series[0].timestamp, 10);
    assert_eq!(series[2].timestamp, 12);
}

#[test]
fn interleaved_writers_do_not_interfere() {
    // Two writers appending to distinct names, serialized in an arbitrary
    // interleaving (the store's exclusion guard serializes real threads):
    // each series holds exactly its own appends, in order.
    let mut tracker = ClogTracker::new();
    for step in 0..3usize {
        tracker.record_metric("x".to_string(), bits(step as f64), step, 100 + step as u64);
        tracker.record_metric("y".to_string(), bits(10.0 + step as f64), step, 200 + step as u64);
    }
    let xs = tracker.snapshot_series(&"x".to_string()).unwrap();
    let ys = tracker.snapshot_series(&"y".to_string()).unwrap();
    assert_eq!(xs.len(), 3);
    assert_eq!(ys.len(), 3);
    for step in 0..3usize {
        assert_eq!(xs[step].value_bits, bits(step as f64));
        assert_eq!(ys[step].value_bits, bits(10.0 + step as f64));
    }
}

#[test]
fn bogus_level_falls_back_to_info() {
    let mut tracker = ClogTracker::new();
    tracker.log_message("x".to_string(), "bogus".to_string());
    let logs = tracker.snapshot_recent_logs(10);
    assert_eq!(logs.len(), 1);
    assert_eq!(logs[0].message, "x".to_string());
    assert_eq!(logs[0].level, LogLevel::Info);
}

#[test]
fn recognized_levels_are_kept() {
    let mut tracker = ClogTracker::new();
    tracker.log_message("a".to_string(), "info".to_string());
    tracker.log_message("b".to_string(), "warning".to_string());
    tracker.log_message("c".to_string(), "error".to_string());
    let logs = tracker.snapshot_recent_logs(10);
    // Newest first.
    assert_eq!(logs[0].level, LogLevel::Error);
    assert_eq!(logs[1].level, LogLevel::Warning);
    assert_eq!(logs[2].level, LogLevel::Info);
}

#[test]
fn recent_logs_are_truncated_newest_first() {
    let mut tracker = ClogTracker::new();
    tracker.record_log("one".to_string(), LogLevel::Info, 1);
    tracker.record_log("two".to_string(), LogLevel::Warning, 2);
    tracker.record_log("three".to_string(), LogLevel::Error, 3);
    let logs = tracker.snapshot_recent_logs(2);
    assert_eq!(logs.len(), 2);
    assert_eq!(logs[0].message, "three".to_string());
    assert_eq!(logs[1].message, "two".to_string());
    let none = tracker.snapshot_recent_logs(0);
    assert_eq!(none.len(), 0);
}

#[test]
fn last_value_is_the_most_recent() {
    let mut tracker = ClogTracker::new();
    tracker.record_metric("acc".to_string(), bits(0.1), 0, 1);
    tracker.record_metric("acc".to_string(), bits(0.9), 1, 2);
    assert_eq!(tracker.last_value_bits(&"acc".to_string()), bits(0.9));
    // Absent series: the defensive default.
    assert_eq!(tracker.last_value_bits(&"missing".to_string()), 0);
}

#[test]
fn missing_series_snapshot_is_none() {
    let mut tracker = ClogTracker::new();
    tracker.record_metric("present".to_string(), bits(1.0), 0, 1);
    assert!(tracker.snapshot_series(&"absent".to_string()).is_none());
}

#[test]
fn log_line_formats_timestamp_to_seconds() {
    let entry = LogEntry { message: "hello".to_string(), timestamp: 3661, level: LogLevel::Info };
    assert_eq!(clog_tracker::text::format_log_line(&entry), "[01:01:01] hello".to_string());
    let midnight = LogEntry { message: "m".to_string(), timestamp: 0, level: LogLevel::Error };
    assert_eq!(clog_tracker::text::format_log_line(&midnight), "[00:00:00] m".to_string());
    let late = LogEntry { message: "w".to_string(), timestamp: 86399 + 86400, level: LogLevel::Warning };
    assert_eq!(clog_tracker::text::format_log_line(&late), "[23:59:59] w".to_string());
}

#[test]
fn empty_store_has_nothing_to_show() {
    let tracker = ClogTracker::new();
    assert!(tracker.snapshot_metric_names().is_empty());
    assert!(tracker.filtered_names(&"".to_string()).is_empty());
    assert!(tracker.snapshot_recent_logs(10).is_empty());
}

#[test]
fn duplicate_steps_are_kept_in_order() {
    // Steps are caller-supplied ordinals: neither monotonic nor unique.
    let mut tracker = ClogTracker::new();
    tracker.record_metric("m".to_string(), bits(1.0), 7, 1);
    tracker.record_metric("m".to_string(), bits(2.0), 7, 2);
    tracker.record_metric("m".to_string(), bits(3.0), 3, 3);
    let series = tracker.snapshot_series(&"m".to_string()).unwrap();
    assert_eq!(series.len(), 3);
    assert_eq!(series[0].step, 7);
    assert_eq!(series[1].step, 7);
    assert_eq!(series[2].step, 3);
    assert_eq!(series[2].value_bits, bits(3.0));
}
