//! Verified core of a fiber-based job system: bump allocators for job data,
//! the splitting of parallel loops into batches, the worker scheduling policy,
//! CPU topology, metrics and trace export.

pub mod allocator;
pub mod bench;
pub mod fiber;
pub mod job;
pub mod job_system;
pub mod layout;
pub mod metrics;
pub mod metrics_depth;
pub mod topology;
pub mod tracing;
pub mod worker;


use vstd::prelude::*;

verus! {

/// Strategy for pinning worker threads to CPU cores.
#[derive(Debug, Clone, Copy, PartialEq, Eq, Structural)]
pub enum PinningStrategy {
    /// No pinning (standard OS scheduling).
    Unpinned,
    /// Linear pinning (worker i -> logical processor i).
    Linear,
    /// Pin to physical cores only (even-numbered logical processors), avoiding SMT contention.
    AvoidSMT,
    /// Pin to physical cores on the first CCD only (logical 0, 2, ..., 14).
    CCDIsolation,
    /// Dynamic strategy: first CCD0, then CCD1, then SMT threads, by load.
    TieredSpillover,
}

impl Default for PinningStrategy {
    fn default() -> (s: Self)
        ensures
            s == PinningStrategy::Unpinned,
    {
        PinningStrategy::Unpinned
    }
}

} // verus!
