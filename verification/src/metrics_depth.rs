//! Queue depths derived from a metrics snapshot.

use vstd::prelude::*;
use crate::metrics::MetricsSnapshot;

verus! {

/// Pushes minus pops, both taken as `i64` (values above `i64::MAX` wrap, as
/// an `as` conversion does), when the difference fits in an `i64`.
pub open spec fn depth_fits(pushes: u64, pops: u64) -> bool {
    i64::MIN <= (pushes as i64) - (pops as i64) <= i64::MAX
}

/// Approximate queue depth: pushes minus pops.
pub fn queue_depth(pushes: u64, pops: u64) -> (d: i64)
    requires
        depth_fits(pushes, pops),
    ensures
        d == (pushes as i64) - (pops as i64),
{
    let a = pushes as i64;
    let b = pops as i64;
    a - b
}

impl MetricsSnapshot {
    /// Approximates the local queue depth (pushes - pops).
    pub fn local_queue_depth(&self) -> (d: i64)
        requires
            depth_fits(self.local_queue_pushes, self.local_queue_pops),
        ensures
            d == (self.local_queue_pushes as i64) - (self.local_queue_pops as i64),
    {
        queue_depth(self.local_queue_pushes, self.local_queue_pops)
    }

    /// Approximates the global injector depth (pushes - pops).
    pub fn global_injector_depth(&self) -> (d: i64)
        requires
            depth_fits(self.global_injector_pushes, self.global_injector_pops),
        ensures
            d == (self.global_injector_pushes as i64) - (self.global_injector_pops as i64),
    {
        queue_depth(self.global_injector_pushes, self.global_injector_pops)
    }
}

} // verus!
