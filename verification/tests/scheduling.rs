use rustfiber::fiber::{
    decrement_reaches_zero, keep_spinning, next_backoff_us, signal_waiter, FiberState, SignalOutcome,
    YieldType, NODE_STATE_RUNNING, NODE_STATE_SIGNALED, NODE_STATE_SPINNING, NODE_STATE_WAITING,
};
use rustfiber::job::{resume_job_priority, JobPriority};
use rustfiber::job_system::{auto_batch_size, batch_ranges, FiberConfig};
use rustfiber::worker::{
    after_resume, batch_wake_count, frame_advanced, idle_action, injector_retry, next_probe, pick_source,
    shutdown_result, should_notify, stay_dormant, submit_target, wake_target, FiberAction,
    IdleAction, JobSource, Probe, QueueTarget, WorkerPoolError,
};
use rustfiber::PinningStrategy;

#[test]
fn parallel_for_batches_even_split() {
    let r = batch_ranges(0, 1000, 100);
    assert_eq!(r.len(), 10);
    for (i, (lo, hi)) in r.iter().enumerate() {
        assert_eq!(*lo, i * 100);
        assert_eq!(*hi, i * 100 + 100);
    }
}

#[test]
fn parallel_for_batches_uneven_split() {
    // Batch size 10 means 10 chunks of 10 and 1 chunk of 5.
    let r = batch_ranges(0, 105, 10);
    assert_eq!(r.len(), 11);
    assert_eq!(r[10], (100, 105));
    let total: usize = r.iter().map(|(lo, hi)| hi - lo).sum();
    assert_eq!(total, 105);
}

#[test]
fn parallel_for_batches_cover_each_index_once() {
    let r = batch_ranges(7, 50, 6);
    let mut seen = vec![0; 50];
    for (lo, hi) in r {
        for i in lo..hi {
            seen[i] += 1;
        }
    }
    for i in 0..50 {
        assert_eq!(seen[i], if i >= 7 { 1 } else { 0 });
    }
}

#[test]
fn parallel_for_empty_range_has_no_batches() {
    assert!(batch_ranges(5, 5, 10).is_empty());
    assert!(batch_ranges(9, 5, 10).is_empty());
}

#[test]
fn parallel_for_zero_batch_size_means_one() {
    let r = batch_ranges(0, 3, 0);
    assert_eq!(r, vec![(0, 1), (1, 2), (2, 3)]);
}

#[test]
fn parallel_for_auto_batch_size() {
    // 10000 indices on 4 workers: 16 batches of 625.
    assert_eq!(auto_batch_size(10000, 4), 625);
    assert_eq!(auto_batch_size(10, 4), 1);
    assert_eq!(auto_batch_size(0, 1), 1);
    assert_eq!(batch_ranges(0, 10000, auto_batch_size(10000, 4)).len(), 16);
}

#[test]
fn fiber_config_defaults() {
    let c = FiberConfig::default();
    assert_eq!(c.stack_size, 512 * 1024);
    assert_eq!(c.initial_pool_size, 16);
    assert_eq!(c.target_pool_size, 128);
    assert_eq!(c.frame_stack_size, 1024 * 1024);
}

#[test]
fn priorities_and_strategy_defaults() {
    assert_eq!(JobPriority::default(), JobPriority::Normal);
    assert_eq!(resume_job_priority(), JobPriority::High);
    assert_eq!(PinningStrategy::default(), PinningStrategy::Unpinned);
}

#[test]
fn signal_waiting_fiber_schedules_resume() {
    assert_eq!(
        signal_waiter(NODE_STATE_WAITING, true),
        SignalOutcome { new_state: Some(NODE_STATE_SIGNALED), schedule_resume: true }
    );
    assert_eq!(
        signal_waiter(NODE_STATE_WAITING, false),
        SignalOutcome { new_state: Some(NODE_STATE_SIGNALED), schedule_resume: false }
    );
}

#[test]
fn signal_spinning_waiter_is_not_enqueued() {
    assert_eq!(
        signal_waiter(NODE_STATE_SPINNING, true),
        SignalOutcome { new_state: Some(NODE_STATE_SIGNALED), schedule_resume: false }
    );
}

#[test]
fn signal_is_not_repeated() {
    let first = signal_waiter(NODE_STATE_WAITING, true);
    let second = signal_waiter(first.new_state.unwrap(), true);
    assert_eq!(second, SignalOutcome { new_state: None, schedule_resume: false });
    assert_eq!(
        signal_waiter(NODE_STATE_RUNNING, true),
        SignalOutcome { new_state: None, schedule_resume: false }
    );
}

#[test]
fn counter_wakes_on_last_decrement() {
    assert!(decrement_reaches_zero(1));
    assert!(!decrement_reaches_zero(5));
    assert!(!decrement_reaches_zero(0));
}

#[test]
fn waiting_spins_then_backs_off() {
    assert!(keep_spinning(0));
    assert!(keep_spinning(4999));
    assert!(!keep_spinning(5000));
    assert_eq!(next_backoff_us(1), 2);
    assert_eq!(next_backoff_us(512), 1000);
    assert_eq!(next_backoff_us(1000), 1000);
}

#[test]
fn submit_routing_by_priority() {
    assert_eq!(submit_target(true, JobPriority::High), QueueTarget::Local);
    assert_eq!(submit_target(false, JobPriority::High), QueueTarget::HighPriorityInjector);
    assert_eq!(submit_target(false, JobPriority::Normal), QueueTarget::Injector);
    assert_eq!(submit_target(false, JobPriority::Low), QueueTarget::Injector);
}

#[test]
fn batch_wakeups() {
    assert_eq!(batch_wake_count(0, 4, false), 0);
    assert_eq!(batch_wake_count(10, 4, false), 4);
    assert_eq!(batch_wake_count(2, 4, false), 2);
    assert_eq!(batch_wake_count(10, 4, true), 1);
}

#[test]
fn parking_and_frames() {
    assert!(should_notify(1));
    assert!(!should_notify(0));
    assert!(frame_advanced(3, 2));
    assert!(!frame_advanced(2, 2));
}

#[test]
fn dormancy_of_upper_tiers() {
    assert!(!stay_dormant(1, 0, 0, true));
    assert!(stay_dormant(2, 3, 7, true));
    assert!(!stay_dormant(2, 7, 7, true));
    assert!(!stay_dormant(3, 3, 15, false));
}

#[test]
fn job_sources_in_priority_order() {
    assert_eq!(pick_source(true, true, Some(2), true), Some(JobSource::HighPriority));
    assert_eq!(pick_source(false, true, Some(2), true), Some(JobSource::Local));
    assert_eq!(pick_source(false, false, Some(2), true), Some(JobSource::Steal(2)));
    assert_eq!(pick_source(false, false, None, true), Some(JobSource::Global));
    assert_eq!(pick_source(false, false, None, false), None);
}

#[test]
fn injector_retries_three_times() {
    assert_eq!(injector_retry(0), (1, false));
    assert_eq!(injector_retry(1), (2, false));
    assert_eq!(injector_retry(2), (3, true));
}

#[test]
fn fiber_outcomes() {
    assert_eq!(after_resume(&FiberState::Complete, PinningStrategy::Linear), FiberAction::ReturnToPool);
    assert_eq!(
        after_resume(&FiberState::Panic("boom".to_string()), PinningStrategy::Linear),
        FiberAction::Discard
    );
    assert_eq!(
        after_resume(&FiberState::Yielded(YieldType::Normal), PinningStrategy::Linear),
        FiberAction::Reschedule(QueueTarget::Local)
    );
    assert_eq!(
        after_resume(&FiberState::Yielded(YieldType::Normal), PinningStrategy::TieredSpillover),
        FiberAction::Reschedule(QueueTarget::HighPriorityInjector)
    );
    assert_eq!(
        after_resume(&FiberState::Yielded(YieldType::Wait), PinningStrategy::TieredSpillover),
        FiberAction::LeaveSuspended
    );
    assert_eq!(wake_target(PinningStrategy::TieredSpillover), QueueTarget::Injector);
    assert_eq!(wake_target(PinningStrategy::AvoidSMT), QueueTarget::Local);
}

#[test]
fn idle_worker_grows_pool_then_parks() {
    assert_eq!(idle_action(false, 0, 128), IdleAction::Snooze);
    assert_eq!(idle_action(true, 16, 128), IdleAction::GrowPool);
    assert_eq!(idle_action(true, 128, 128), IdleAction::Park);
}

#[test]
fn shutdown_reports_panicked_workers() {
    assert!(shutdown_result(0).is_ok());
    match shutdown_result(2) {
        Err(WorkerPoolError::WorkerPanic { failed_count }) => assert_eq!(failed_count, 2),
        Ok(()) => panic!("expected an error"),
    }
}

#[test]
fn auto_batching_aims_at_four_batches_per_worker() {
    // 100 indices on 4 workers: batch size 6, 17 batches (between 16 and 32).
    let b = auto_batch_size(100, 4);
    assert_eq!(b, 6);
    assert_eq!(batch_ranges(0, 100, b).len(), 17);
    // Fewer indices than 4 per worker: one batch per index.
    assert_eq!(batch_ranges(0, 10, auto_batch_size(10, 4)).len(), 10);
}

fn run_probes(high: bool, local: bool, has: &[bool], global: bool, order: &Vec<usize>) -> (Probe, usize) {
    let mut p = Probe::HighPriority;
    let mut steps = 0;
    loop {
        let found = match p {
            Probe::HighPriority => high,
            Probe::Local => local,
            Probe::Victim(k) => has[k],
            Probe::Global => global,
            Probe::Found(_) | Probe::Exhausted => break,
        };
        p = next_probe(p, found, order);
        steps += 1;
    }
    (p, steps)
}

#[test]
fn probe_order_high_local_victims_global() {
    let order = vec![2, 0, 3];
    assert_eq!(run_probes(true, true, &[true, true, true], true, &order), (Probe::Found(JobSource::HighPriority), 1));
    assert_eq!(run_probes(false, true, &[true, true, true], true, &order), (Probe::Found(JobSource::Local), 2));
    // The first victim in steal order that has a job: position 1, worker 0.
    assert_eq!(run_probes(false, false, &[false, true, true], true, &order), (Probe::Found(JobSource::Steal(0)), 4));
    assert_eq!(run_probes(false, false, &[false, false, false], true, &order), (Probe::Found(JobSource::Global), 6));
    assert_eq!(run_probes(false, false, &[false, false, false], false, &order), (Probe::Exhausted, 6));
    // No victims: straight from the own deque to the global queue.
    assert_eq!(run_probes(false, false, &[], true, &Vec::new()), (Probe::Found(JobSource::Global), 3));
}
