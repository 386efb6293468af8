use rustfiber::bench::{capture_internal_metrics, InternalMetrics};
use rustfiber::metrics::{Metrics, MetricsSnapshot};
use rustfiber::metrics_depth::queue_depth;
use std::sync::atomic::Ordering;

#[test]
fn test_metrics_creation() {
    let metrics = Metrics::new();
    let snapshot = metrics.snapshot();
    assert_eq!(snapshot.jobs_completed, 0);
    assert_eq!(snapshot.local_queue_pushes, 0);
    assert_eq!(snapshot.worker_steals_success, 0);
    assert_eq!(snapshot.worker_steals_failed, 0);
    assert_eq!(snapshot.worker_steals_retry, 0);
    assert_eq!(snapshot.injector_steals_success, 0);
    assert_eq!(snapshot.injector_steals_failed, 0);
    assert_eq!(snapshot.injector_steals_retry, 0);
    assert!(snapshot.elapsed_nanos as f64 >= 0.0);
}

#[test]
fn test_metrics_updates() {
    let metrics = Metrics::new();

    metrics.jobs_completed.fetch_add(5, Ordering::Relaxed);
    metrics.local_queue_pushes.fetch_add(10, Ordering::Relaxed);
    metrics.local_queue_pops.fetch_add(8, Ordering::Relaxed);

    let snapshot = metrics.snapshot();
    assert_eq!(snapshot.jobs_completed, 5);
    assert_eq!(snapshot.local_queue_pushes, 10);
    assert_eq!(snapshot.local_queue_pops, 8);
    assert_eq!(snapshot.local_queue_depth(), 2);
}

fn sample_snapshot() -> MetricsSnapshot {
    MetricsSnapshot {
        jobs_completed: 1,
        local_queue_pushes: 2,
        local_queue_pops: 7,
        global_injector_pushes: 9,
        global_injector_pops: 4,
        worker_steals_success: 11,
        worker_steals_failed: 12,
        worker_steals_retry: 13,
        injector_steals_success: 14,
        injector_steals_failed: 15,
        injector_steals_retry: 16,
        elapsed_nanos: 1000,
    }
}

#[test]
fn queue_depths_can_be_negative() {
    let s = sample_snapshot();
    assert_eq!(s.local_queue_depth(), -5);
    assert_eq!(s.global_injector_depth(), 5);
}

#[test]
fn queue_depth_wraps_values_above_i64_max() {
    // u64::MAX converts to -1 as an i64.
    assert_eq!(queue_depth(u64::MAX, 0), -1);
    assert_eq!(queue_depth(0, 0), 0);
    assert_eq!(queue_depth(3, 10), -7);
}

#[test]
fn capture_internal_metrics_copies_steal_counters() {
    let captured = capture_internal_metrics(Some(sample_snapshot())).unwrap();
    let InternalMetrics {
        worker_steals_success,
        worker_steals_failed,
        worker_steals_retry,
        injector_steals_success,
        injector_steals_failed,
        injector_steals_retry,
        parks,
        wakeups,
    } = captured;
    assert_eq!(
        (worker_steals_success, worker_steals_failed, worker_steals_retry),
        (11, 12, 13)
    );
    assert_eq!(
        (injector_steals_success, injector_steals_failed, injector_steals_retry),
        (14, 15, 16)
    );
    assert_eq!((parks, wakeups), (0, 0));
}

#[test]
fn capture_internal_metrics_without_metrics() {
    assert!(capture_internal_metrics(None).is_none());
}
