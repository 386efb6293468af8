//! Fiber yield and completion states, and the signalling of fibers that wait
//! on a counter.

use vstd::prelude::*;

verus! {

/// The wait node's fiber runs.
pub const NODE_STATE_RUNNING: u32 = 0;
/// The fiber is suspended and waits to be resumed by a signal.
pub const NODE_STATE_WAITING: u32 = 1;
/// The waiter has been signalled.
pub const NODE_STATE_SIGNALED: u32 = 2;
/// The waiter spins and will notice the signal by itself.
pub const NODE_STATE_SPINNING: u32 = 3;

/// Why a fiber gave control back to its worker.
#[derive(Clone, Copy, Debug, PartialEq, Eq, Structural)]
pub enum YieldType {
    /// Reschedule the fiber immediately (cooperative yield).
    Normal,
    /// Suspend the fiber and wait for an external signal (intrusive wait).
    Wait,
    /// Job completed, fiber ready for reuse.
    Complete,
}

/// What a fiber reports after it was resumed.
pub enum FiberState {
    /// The job suspended itself for the given reason.
    Yielded(YieldType),
    /// The job ran to completion.
    Complete,
    /// The job panicked; the payload's message.
    Panic(String),
}

/// What a counter that reached zero does with one waiter.
#[derive(Clone, Copy, Debug, PartialEq, Eq, Structural)]
pub struct SignalOutcome {
    /// The state the node is moved to, if it is changed.
    pub new_state: Option<u32>,
    /// Whether a job that resumes the waiting fiber is scheduled.
    pub schedule_resume: bool,
}

/// The outcome of signalling a waiter whose node is in `state`.
pub open spec fn signal_spec(state: u32, has_fiber: bool) -> SignalOutcome {
    if state == NODE_STATE_WAITING {
        SignalOutcome { new_state: Some(NODE_STATE_SIGNALED), schedule_resume: has_fiber }
    } else if state == NODE_STATE_SPINNING {
        SignalOutcome { new_state: Some(NODE_STATE_SIGNALED), schedule_resume: false }
    } else {
        SignalOutcome { new_state: None, schedule_resume: false }
    }
}

/// The signalling of one waiter when its counter reaches zero, from the
/// state its wait node is seen in.
///
/// A waiting fiber is marked signalled and a job that resumes it is
/// scheduled (if the node names a fiber); a spinning waiter is only marked
/// signalled, since it wakes itself; a node that runs or was already
/// signalled is left alone.
pub fn signal_waiter(state: u32, has_fiber: bool) -> (o: SignalOutcome)
    ensures
        o == signal_spec(state, has_fiber),
        state == NODE_STATE_WAITING ==> o == (SignalOutcome { new_state: Some(NODE_STATE_SIGNALED), schedule_resume: has_fiber }),
        state == NODE_STATE_SPINNING ==> o == (SignalOutcome { new_state: Some(NODE_STATE_SIGNALED), schedule_resume: false }),
        state != NODE_STATE_WAITING && state != NODE_STATE_SPINNING ==> o == (SignalOutcome { new_state: None, schedule_resume: false }),
{
    if state == NODE_STATE_WAITING {
        SignalOutcome { new_state: Some(NODE_STATE_SIGNALED), schedule_resume: has_fiber }
    } else if state == NODE_STATE_SPINNING {
        SignalOutcome { new_state: Some(NODE_STATE_SIGNALED), schedule_resume: false }
    } else {
        SignalOutcome { new_state: None, schedule_resume: false }
    }
}

/// A waiter is resumed at most once: after a signal, the node is signalled
/// (or left as it was when it did not wait or spin), and signalling it again
/// schedules nothing.
pub proof fn lemma_signal_at_most_once(state: u32, has_fiber: bool)
    ensures
        ({
            let first = signal_spec(state, has_fiber);
            let after = match first.new_state {
                Some(s) => s,
                None => state,
            };
            &&& (first.schedule_resume ==> state == NODE_STATE_WAITING)
            &&& (state == NODE_STATE_WAITING || state == NODE_STATE_SPINNING ==> after == NODE_STATE_SIGNALED)
            &&& (after == NODE_STATE_SIGNALED ==> !signal_spec(after, has_fiber).schedule_resume)
        }),
{
}

/// Whether a decrement that found the counter at `previous` brought it to
/// zero, which wakes all of its waiters.
pub fn decrement_reaches_zero(previous: usize) -> (b: bool)
    ensures
        b <==> previous == 1,
{
    previous == 1
}

/// How many times a fiber polls a counter before it registers as a waiter.
pub const SPIN_LIMIT: usize = 5000;

/// Whether a fiber that has polled `spin_count` times polls again.
pub fn keep_spinning(spin_count: usize) -> (b: bool)
    ensures
        b <==> spin_count < SPIN_LIMIT,
{
    spin_count < SPIN_LIMIT
}

/// The longest sleep, in microseconds, of a thread that waits on a counter
/// outside any fiber.
pub const MAX_BACKOFF_US: u64 = 1000;

/// The next sleep of a thread that waits on a counter: twice the last one,
/// at most `MAX_BACKOFF_US`.
pub fn next_backoff_us(current: u64) -> (n: u64)
    requires
        current <= MAX_BACKOFF_US,
    ensures
        n == (if 2 * current < MAX_BACKOFF_US { 2 * current } else { MAX_BACKOFF_US as int }),
        n <= MAX_BACKOFF_US,
        current <= n,
{
    let doubled = current * 2;
    if doubled < MAX_BACKOFF_US {
        doubled
    } else {
        MAX_BACKOFF_US
    }
}

} // verus!
