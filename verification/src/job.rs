//! Job priorities.

use vstd::prelude::*;

verus! {

/// Priority level for job execution.
#[derive(Debug, Clone, Copy, PartialEq, Eq, Structural, PartialOrd, Ord)]
pub enum JobPriority {
    /// Low priority - background tasks
    Low,
    /// Normal priority - standard game logic
    Normal,
    /// High priority - critical path (physics, reliable networking)
    High,
}

impl Default for JobPriority {
    fn default() -> (p: Self)
        ensures
            p == JobPriority::Normal,
    {
        JobPriority::Normal
    }
}

/// The priority of a job that resumes a suspended fiber: resumed fibers
/// continue as soon as possible.
pub fn resume_job_priority() -> (p: JobPriority)
    ensures
        p == JobPriority::High,
{
    JobPriority::High
}

} // verus!
