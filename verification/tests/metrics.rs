use roblox_studio_mcp::metrics::ToolMetricsTable;
use roblox_studio_mcp::metrics::{
    ConnectionMetrics, LateResultMetrics, ToolMetrics, UnknownCommandMetrics, MAX_DURATION_SAMPLES,
};

fn uptime_ratio(connected: u64, total: u64) -> f64 {
    if total > 0 {
        connected as f64 / total as f64
    } else {
        0.0
    }
}

#[test]
fn test_connection_metrics_new() {
    let metrics = ConnectionMetrics::new();
    let snapshot = metrics.snapshot();

    assert_eq!(snapshot.total_checks, 0);
    assert_eq!(snapshot.connected_checks, 0);
    assert_eq!(snapshot.disconnected_checks, 0);
    assert_eq!(uptime_ratio(snapshot.connected_checks, snapshot.total_checks), 0.0);
    assert!(!snapshot.last_connected);
}

#[test]
fn test_connection_metrics_record_connected() {
    let mut metrics = ConnectionMetrics::new();

    metrics.record_status(true);
    metrics.record_status(true);
    metrics.record_status(true);

    let snapshot = metrics.snapshot();
    assert_eq!(snapshot.total_checks, 3);
    assert_eq!(snapshot.connected_checks, 3);
    assert_eq!(snapshot.disconnected_checks, 0);
    assert!((uptime_ratio(snapshot.connected_checks, snapshot.total_checks) - 1.0).abs() < 0.001);
    assert!(snapshot.last_connected);
}

#[test]
fn test_connection_metrics_record_disconnected() {
    let mut metrics = ConnectionMetrics::new();

    metrics.record_status(false);
    metrics.record_status(false);

    let snapshot = metrics.snapshot();
    assert_eq!(snapshot.total_checks, 2);
    assert_eq!(snapshot.connected_checks, 0);
    assert_eq!(snapshot.disconnected_checks, 2);
    assert_eq!(uptime_ratio(snapshot.connected_checks, snapshot.total_checks), 0.0);
    assert!(!snapshot.last_connected);
}

#[test]
fn test_connection_metrics_mixed_status() {
    let mut metrics = ConnectionMetrics::new();

    metrics.record_status(true);
    metrics.record_status(true);
    metrics.record_status(false);
    metrics.record_status(true);
    metrics.record_status(false);

    let snapshot = metrics.snapshot();
    assert_eq!(snapshot.total_checks, 5);
    assert_eq!(snapshot.connected_checks, 3);
    assert_eq!(snapshot.disconnected_checks, 2);
    assert!((uptime_ratio(snapshot.connected_checks, snapshot.total_checks) - 0.6).abs() < 0.001);
    assert!(!snapshot.last_connected);
}

#[test]
fn test_connection_metrics_last_status_tracking() {
    let mut metrics = ConnectionMetrics::new();

    metrics.record_status(true);
    assert!(metrics.snapshot().last_connected);

    metrics.record_status(false);
    assert!(!metrics.snapshot().last_connected);

    metrics.record_status(true);
    assert!(metrics.snapshot().last_connected);
}

#[test]
fn test_late_result_metrics_new() {
    let metrics = LateResultMetrics::new();
    let snapshot = metrics.snapshot();

    assert_eq!(snapshot.total, 0);
    assert_eq!(snapshot.successful, 0);
    assert_eq!(snapshot.errors, 0);
}

#[test]
fn test_late_result_metrics_record_successful() {
    let mut metrics = LateResultMetrics::new();

    metrics.record(false);
    metrics.record(false);
    metrics.record(false);

    let snapshot = metrics.snapshot();
    assert_eq!(snapshot.total, 3);
    assert_eq!(snapshot.successful, 3);
    assert_eq!(snapshot.errors, 0);
}

#[test]
fn test_late_result_metrics_record_errors() {
    let mut metrics = LateResultMetrics::new();

    metrics.record(true);
    metrics.record(true);

    let snapshot = metrics.snapshot();
    assert_eq!(snapshot.total, 2);
    assert_eq!(snapshot.successful, 0);
    assert_eq!(snapshot.errors, 2);
}

#[test]
fn test_late_result_metrics_mixed() {
    let mut metrics = LateResultMetrics::new();

    metrics.record(false);
    metrics.record(true);
    metrics.record(false);
    metrics.record(true);
    metrics.record(false);

    let snapshot = metrics.snapshot();
    assert_eq!(snapshot.total, 5);
    assert_eq!(snapshot.successful, 3);
    assert_eq!(snapshot.errors, 2);
}

#[test]
fn test_unknown_command_metrics_new() {
    let metrics = UnknownCommandMetrics::new();
    let snapshot = metrics.snapshot();

    assert_eq!(snapshot.total, 0);
}

#[test]
fn test_unknown_command_metrics_record() {
    let mut metrics = UnknownCommandMetrics::new();

    metrics.record();
    metrics.record();
    metrics.record();

    let snapshot = metrics.snapshot();
    assert_eq!(snapshot.total, 3);
}

fn average(s: &roblox_studio_mcp::metrics::ToolMetricsSnapshot) -> f64 {
    if s.sample_count == 0 {
        0.0
    } else {
        s.duration_total_ms as f64 / s.sample_count as f64
    }
}

#[test]
fn test_tool_metrics_record_call() {
    let mut metrics = ToolMetrics::new();
    metrics.record_call(100);
    metrics.record_call(200);

    let snapshot = metrics.snapshot();
    assert_eq!(snapshot.calls, 2);
    assert_eq!(snapshot.errors, 0);
    assert!((average(&snapshot) - 150.0).abs() < 0.1);
}

#[test]
fn test_tool_metrics_record_error() {
    let mut metrics = ToolMetrics::new();
    metrics.record_call(100);
    metrics.record_error();

    let snapshot = metrics.snapshot();
    assert_eq!(snapshot.calls, 1);
    assert_eq!(snapshot.errors, 1);
    assert!((error_rate(snapshot.calls, snapshot.errors) - 1.0).abs() < 0.001);
}

#[test]
fn test_tool_metrics_bounded_queue() {
    let mut metrics = ToolMetrics::new();
    for i in 0..(MAX_DURATION_SAMPLES + 100) {
        metrics.record_call(i as u64);
    }
    assert_eq!(metrics.sample_count(), MAX_DURATION_SAMPLES);
    // The oldest hundred samples left: the sum is that of 100..1100.
    let snapshot = metrics.snapshot();
    let expected: u128 = (100u128..1100).sum();
    assert_eq!(snapshot.duration_total_ms, expected);
}

#[test]
fn test_tool_metrics_snapshot_empty() {
    let metrics = ToolMetrics::new();
    let snapshot = metrics.snapshot();
    assert_eq!(snapshot.calls, 0);
    assert_eq!(snapshot.errors, 0);
    assert_eq!(snapshot.sample_count, 0);
    assert_eq!(snapshot.p95_duration_ms, 0);
    assert_eq!(snapshot.p99_duration_ms, 0);
    assert_eq!(average(&snapshot), 0.0);
}

#[test]
fn test_tool_metrics_single_call() {
    let mut metrics = ToolMetrics::new();
    metrics.record_call(42);
    let snapshot = metrics.snapshot();
    assert_eq!(snapshot.calls, 1);
    assert!((average(&snapshot) - 42.0).abs() < 0.1);
    assert_eq!(snapshot.p95_duration_ms, 42);
    assert_eq!(snapshot.p99_duration_ms, 42);
}

#[test]
fn test_tool_metrics_multiple_errors() {
    let mut metrics = ToolMetrics::new();
    metrics.record_error();
    metrics.record_error();
    metrics.record_error();
    let snapshot = metrics.snapshot();
    assert_eq!(snapshot.calls, 0);
    assert_eq!(snapshot.errors, 3);
    assert_eq!(error_rate(snapshot.calls, snapshot.errors), 0.0);
}

#[test]
fn percentiles_pick_from_sorted_samples() {
    let mut metrics = ToolMetrics::new();
    // 1..=100 recorded in descending order.
    for d in (1..=100u64).rev() {
        metrics.record_call(d);
    }
    let s = metrics.snapshot();
    // index 100*95/100 = 95 and 99 of the ascending samples 1..=100
    assert_eq!(s.p95_duration_ms, 96);
    assert_eq!(s.p99_duration_ms, 100);
    assert!(s.p95_duration_ms <= s.p99_duration_ms);
}

#[test]
fn percentiles_of_few_samples_clamp_to_last() {
    let mut metrics = ToolMetrics::new();
    metrics.record_call(7);
    metrics.record_call(3);
    let s = metrics.snapshot();
    // 2*95/100 = 1 and 2*99/100 = 1: the larger sample
    assert_eq!(s.p95_duration_ms, 7);
    assert_eq!(s.p99_duration_ms, 7);
}

#[test]
fn late_result_totals_add_up() {
    let mut m = LateResultMetrics::new();
    for i in 0..37 {
        m.record(i % 3 == 0);
    }
    let s = m.snapshot();
    assert_eq!(s.total, s.successful + s.errors);
    assert_eq!(s.errors, 13);
}

#[test]
fn finished_calls_count_errors_only_on_failure() {
    let mut m = ToolMetrics::new();
    m.record_finished(10, true);
    m.record_finished(30, false);
    m.record_finished(20, false);
    let s = m.snapshot();
    assert_eq!(s.calls, 3);
    assert_eq!(s.errors, 2);
    assert!(s.errors <= s.calls);
    assert_eq!(s.duration_total_ms, 60);
    assert_eq!(s.p95_duration_ms, 30);
}

/// The error rate the server reports from a snapshot's counters (no calls: 0).
fn error_rate(calls: u64, errors: u64) -> f64 {
    if calls > 0 {
        errors as f64 / calls as f64
    } else {
        0.0
    }
}

#[test]
fn tool_table_keeps_one_entry_per_tool() {
    let mut table = ToolMetricsTable::new();
    assert_eq!(table.len(), 0);
    table.record_finished("fs_read_script", 10, true);
    table.record_finished("fs_write_script", 20, false);
    table.record_finished("fs_read_script", 30, false);
    assert_eq!(table.len(), 2);
    assert_eq!(table.get_or_create("fs_write_script"), 1);
    assert_eq!(table.len(), 2);
    assert_eq!(table.name_at(0), "fs_read_script");
    let read = table.snapshot_at(0);
    assert_eq!((read.calls, read.errors, read.sample_count, read.duration_total_ms), (2, 1, 2, 40));
    let write = table.snapshot_at(1);
    assert_eq!((write.calls, write.errors, write.duration_total_ms), (1, 1, 20));
    assert_eq!(table.get_or_create("lune_run"), 2);
    let fresh = table.snapshot_at(2);
    assert_eq!((fresh.calls, fresh.errors, fresh.sample_count), (0, 0, 0));
}
