//! Optional counters of what the job system does.

use vstd::prelude::*;
use std::sync::atomic::{AtomicU64, Ordering};
use std::time::{Duration, Instant};

verus! {

#[verifier::external_type_specification]
#[verifier::external_body]
pub struct ExInstant(std::time::Instant);

/// Calls `std::time::Instant::now`: the current time, of which nothing is
/// stated.
#[verifier::external_body]
fn now() -> (t: Instant) {
    Instant::now()
}

/// Calls `std::time::Instant::elapsed`: the time passed since `start`, of
/// which nothing is stated (it depends on the clock).
#[verifier::external_body]
fn elapsed_since(start: &Instant) -> (d: Duration) {
    start.elapsed()
}

/// Calls `std::time::Duration::as_nanos`: the whole nanoseconds of `d`.
/// Nothing is stated, as a `Duration` is opaque here.
#[verifier::external_body]
fn duration_nanos(d: &Duration) -> (n: u128) {
    d.as_nanos()
}

/// Performance counters of the job system. They are shared between worker
/// threads and updated atomically, so what a read returns depends on the
/// interleaving of threads and nothing is stated of it.
#[derive(Debug)]
pub struct Metrics {
    /// Total number of jobs completed.
    pub jobs_completed: AtomicU64,
    /// Total pushes to local worker queues.
    pub local_queue_pushes: AtomicU64,
    /// Total pops from local worker queues.
    pub local_queue_pops: AtomicU64,
    /// Total pushes to the global injector.
    pub global_injector_pushes: AtomicU64,
    /// Total pops from the global injector.
    pub global_injector_pops: AtomicU64,
    /// Successful steals from other workers.
    pub worker_steals_success: AtomicU64,
    /// Failed steal attempts from other workers.
    pub worker_steals_failed: AtomicU64,
    /// Steal attempts from other workers that need a retry (contention).
    pub worker_steals_retry: AtomicU64,
    /// Successful steals from the global injector.
    pub injector_steals_success: AtomicU64,
    /// Failed steal attempts from the global injector.
    pub injector_steals_failed: AtomicU64,
    /// Steal attempts from the global injector that need a retry.
    pub injector_steals_retry: AtomicU64,
    /// Time when metrics collection started.
    pub start_time: Instant,
}

impl Metrics {
    /// Creates a new set of counters, all zero, started now.
    ///
    /// The standard atomics carry no specification of their values here, so
    /// the zero start is not stated.
    pub fn new() -> (m: Self) {
        Metrics {
            jobs_completed: AtomicU64::new(0),
            local_queue_pushes: AtomicU64::new(0),
            local_queue_pops: AtomicU64::new(0),
            global_injector_pushes: AtomicU64::new(0),
            global_injector_pops: AtomicU64::new(0),
            worker_steals_success: AtomicU64::new(0),
            worker_steals_failed: AtomicU64::new(0),
            worker_steals_retry: AtomicU64::new(0),
            injector_steals_success: AtomicU64::new(0),
            injector_steals_failed: AtomicU64::new(0),
            injector_steals_retry: AtomicU64::new(0),
            start_time: now(),
        }
    }

    /// Reads every counter (each on its own, with relaxed ordering) and the
    /// time elapsed since the start.
    pub fn snapshot(&self) -> (s: MetricsSnapshot) {
        let elapsed = elapsed_since(&self.start_time);
        MetricsSnapshot {
            jobs_completed: self.jobs_completed.load(Ordering::Relaxed),
            local_queue_pushes: self.local_queue_pushes.load(Ordering::Relaxed),
            local_queue_pops: self.local_queue_pops.load(Ordering::Relaxed),
            global_injector_pushes: self.global_injector_pushes.load(Ordering::Relaxed),
            global_injector_pops: self.global_injector_pops.load(Ordering::Relaxed),
            worker_steals_success: self.worker_steals_success.load(Ordering::Relaxed),
            worker_steals_failed: self.worker_steals_failed.load(Ordering::Relaxed),
            worker_steals_retry: self.worker_steals_retry.load(Ordering::Relaxed),
            injector_steals_success: self.injector_steals_success.load(Ordering::Relaxed),
            injector_steals_failed: self.injector_steals_failed.load(Ordering::Relaxed),
            injector_steals_retry: self.injector_steals_retry.load(Ordering::Relaxed),
            elapsed_nanos: duration_nanos(&elapsed),
        }
    }
}

/// The counters of `Metrics` at one point in time.
#[derive(Debug, Clone, Copy)]
pub struct MetricsSnapshot {
    pub jobs_completed: u64,
    pub local_queue_pushes: u64,
    pub local_queue_pops: u64,
    pub global_injector_pushes: u64,
    pub global_injector_pops: u64,
    pub worker_steals_success: u64,
    pub worker_steals_failed: u64,
    pub worker_steals_retry: u64,
    pub injector_steals_success: u64,
    pub injector_steals_failed: u64,
    pub injector_steals_retry: u64,
    /// Nanoseconds since the metrics were created.
    pub elapsed_nanos: u128,
}

} // verus!
