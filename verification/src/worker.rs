//! Worker placement on CPU cores and the decisions of the worker loop.

use vstd::prelude::*;
use crate::PinningStrategy;

verus! {

/// Every other entry of `ids`, starting at index `first` (0 or 1).
pub open spec fn stride2(ids: Seq<usize>, first: nat) -> Seq<usize> {
    Seq::new(((ids.len() + 1 - first) as nat) / 2, |k: int| ids[first + 2 * k])
}

/// Logical processors on distinct physical cores: the even-numbered ones.
pub open spec fn physical_ids(ids: Seq<usize>) -> Seq<usize> {
    stride2(ids, 0)
}

/// The SMT sibling processors: the odd-numbered ones.
pub open spec fn smt_ids(ids: Seq<usize>) -> Seq<usize> {
    stride2(ids, 1)
}

/// The smaller of two numbers.
pub open spec fn min_nat(a: nat, b: nat) -> nat {
    if a < b {
        a
    } else {
        b
    }
}

/// The physical cores of the first CCD: the first eight physical cores.
pub open spec fn first_ccd(ids: Seq<usize>) -> Seq<usize> {
    physical_ids(ids).take(min_nat(8, physical_ids(ids).len()) as int)
}

/// The physical cores of the second CCD: the next eight physical cores.
pub open spec fn second_ccd(ids: Seq<usize>) -> Seq<usize> {
    let p = physical_ids(ids);
    p.subrange(min_nat(8, p.len()) as int, min_nat(16, p.len()) as int)
}

/// Entry `i` of `s` taken cyclically, or `None` for an empty `s`.
pub open spec fn pick_cyclic(s: Seq<usize>, i: nat) -> Option<usize> {
    if s.len() == 0 {
        None
    } else {
        Some(s[(i % s.len()) as int])
    }
}

/// A tiered placement of `num_threads` workers can be made: workers beyond
/// the two CCDs need at least one SMT processor.
pub open spec fn tiered_feasible(ids: Seq<usize>, num_threads: nat) -> bool {
    num_threads <= first_ccd(ids).len() + second_ccd(ids).len() || smt_ids(ids).len() > 0
}

/// The processor worker `i` is pinned to under `strategy`, given the
/// processors `ids` available.
pub open spec fn planned_core(ids: Seq<usize>, strategy: PinningStrategy, i: nat) -> Option<usize> {
    match strategy {
        PinningStrategy::Unpinned => None,
        PinningStrategy::Linear => pick_cyclic(ids, i),
        PinningStrategy::AvoidSMT => pick_cyclic(physical_ids(ids), i),
        PinningStrategy::CCDIsolation => pick_cyclic(first_ccd(ids), i),
        PinningStrategy::TieredSpillover => {
            let c0 = first_ccd(ids).len();
            let c1 = second_ccd(ids).len();
            if i < c0 {
                Some(first_ccd(ids)[i as int])
            } else if i < c0 + c1 {
                Some(second_ccd(ids)[i - c0])
            } else {
                pick_cyclic(smt_ids(ids), (i - c0 - c1) as nat)
            }
        },
    }
}

/// The tier of worker `i`: under tiered spillover 1 on the first CCD, 2 on
/// the second and 3 on SMT processors; 1 otherwise.
pub open spec fn planned_tier(ids: Seq<usize>, strategy: PinningStrategy, i: nat) -> u32 {
    match strategy {
        PinningStrategy::TieredSpillover => {
            let c0 = first_ccd(ids).len();
            let c1 = second_ccd(ids).len();
            if i < c0 {
                1
            } else if i < c0 + c1 {
                2
            } else {
                3
            }
        },
        _ => 1,
    }
}

/// The number of active workers below which worker `i` stays dormant: under
/// tiered spillover 0, 7 and 15 for tiers 1, 2 and 3; 0 otherwise.
pub open spec fn planned_threshold(ids: Seq<usize>, strategy: PinningStrategy, i: nat) -> usize {
    match strategy {
        PinningStrategy::TieredSpillover => {
            let c0 = first_ccd(ids).len();
            let c1 = second_ccd(ids).len();
            if i < c0 {
                0
            } else if i < c0 + c1 {
                7
            } else {
                15
            }
        },
        _ => 0,
    }
}

/// Where each worker runs: its processor (if pinned), its tier and the load
/// threshold under which it stays dormant.
pub struct WorkerPlacement {
    pub cores: Vec<Option<usize>>,
    pub tiers: Vec<u32>,
    pub thresholds: Vec<usize>,
}

/// The placement computed from `ids` for `num_threads` workers.
pub open spec fn placement_matches(p: WorkerPlacement, ids: Seq<usize>, strategy: PinningStrategy, num_threads: nat) -> bool {
    &&& p.cores@.len() == num_threads
    &&& p.tiers@.len() == num_threads
    &&& p.thresholds@.len() == num_threads
    &&& forall|i: int|
        0 <= i < num_threads ==> #[trigger] p.cores@[i] == planned_core(ids, strategy, i as nat)
            && p.tiers@[i] == planned_tier(ids, strategy, i as nat)
            && p.thresholds@[i] == planned_threshold(ids, strategy, i as nat)
}

/// Every other entry of `ids`, starting at `first`.
fn every_other(ids: &Vec<usize>, first: usize) -> (r: Vec<usize>)
    requires
        first <= 1,
    ensures
        r@ == stride2(ids@, first as nat),
{
    let mut r: Vec<usize> = Vec::new();
    let n = ids.len();
    let count: usize = if n >= first {
        (n - first) / 2 + (n - first) % 2
    } else {
        0
    };
    let mut j: usize = 0;
    while j < count
        invariant
            first <= 1,
            n == ids@.len(),
            count == ((ids@.len() + 1 - first) as nat) / 2,
            j <= count,
            r@.len() == j,
            forall|k: int| 0 <= k < j ==> #[trigger] r@[k] == ids@[first + 2 * k],
        decreases count - j,
    {
        r.push(ids[first + 2 * j]);
        j = j + 1;
    }
    proof {
        assert(r@ =~= stride2(ids@, first as nat));
    }
    r
}

/// The entries of `s` in `[lo, hi)`.
fn slice_range(s: &Vec<usize>, lo: usize, hi: usize) -> (r: Vec<usize>)
    requires
        lo <= hi <= s@.len(),
    ensures
        r@ == s@.subrange(lo as int, hi as int),
{
    let mut r: Vec<usize> = Vec::new();
    let mut k: usize = lo;
    while k < hi
        invariant
            lo <= k <= hi,
            hi <= s@.len(),
            r@ == s@.subrange(lo as int, k as int),
        decreases hi - k,
    {
        r.push(s[k]);
        k = k + 1;
        proof {
            assert(r@ =~= s@.subrange(lo as int, k as int));
        }
    }
    r
}

/// Entry `i` of `s` taken cyclically.
fn pick_cyclic_exec(s: &Vec<usize>, i: usize) -> (r: Option<usize>)
    ensures
        r == pick_cyclic(s@, i as nat),
{
    if s.len() == 0 {
        None
    } else {
        Some(s[i % s.len()])
    }
}

/// The processor, tier and threshold of worker `i`.
fn place_worker(
    ids: &Vec<usize>,
    physical: &Vec<usize>,
    smt: &Vec<usize>,
    ccd0: &Vec<usize>,
    ccd1: &Vec<usize>,
    strategy: PinningStrategy,
    i: usize,
    num_threads: usize,
) -> (r: (Option<usize>, u32, usize))
    requires
        i < num_threads,
        physical@ == physical_ids(ids@),
        smt@ == smt_ids(ids@),
        ccd0@ == first_ccd(ids@),
        ccd1@ == second_ccd(ids@),
        strategy == PinningStrategy::TieredSpillover ==> tiered_feasible(ids@, num_threads as nat),
    ensures
        r.0 == planned_core(ids@, strategy, i as nat),
        r.1 == planned_tier(ids@, strategy, i as nat),
        r.2 == planned_threshold(ids@, strategy, i as nat),
{
    match strategy {
        PinningStrategy::Unpinned => (None, 1, 0),
        PinningStrategy::Linear => (pick_cyclic_exec(ids, i), 1, 0),
        PinningStrategy::AvoidSMT => (pick_cyclic_exec(physical, i), 1, 0),
        PinningStrategy::CCDIsolation => (pick_cyclic_exec(ccd0, i), 1, 0),
        PinningStrategy::TieredSpillover => {
            if i < ccd0.len() {
                (Some(ccd0[i]), 1, 0)
            } else if i < ccd0.len() + ccd1.len() {
                (Some(ccd1[i - ccd0.len()]), 2, 7)
            } else {
                (pick_cyclic_exec(smt, i - ccd0.len() - ccd1.len()), 3, 15)
            }
        },
    }
}

/// What planning gives for `ids`: `None` exactly when tiered spillover is
/// asked for and cannot be made, else the placement computed from `ids`.
pub open spec fn plan_result(r: Option<WorkerPlacement>, ids: Seq<usize>, strategy: PinningStrategy, num_threads: nat) -> bool {
    &&& (r is None <==> (strategy == PinningStrategy::TieredSpillover && !tiered_feasible(ids, num_threads)))
    &&& (r matches Some(p) ==> placement_matches(p, ids, strategy, num_threads))
}

/// Computes where each of `num_threads` workers runs under `strategy`, given
/// the processors `ids` of the machine in order.
///
/// `None` when tiered spillover needs SMT processors for the workers beyond
/// the two CCDs and `ids` lists fewer than two processors.
pub fn plan_placement(ids: &Vec<usize>, num_threads: usize, strategy: PinningStrategy) -> (r: Option<WorkerPlacement>)
    ensures
        plan_result(r, ids@, strategy, num_threads as nat),
{
    let feasible = match strategy {
        PinningStrategy::TieredSpillover => {
            let physical = ids.len() / 2 + ids.len() % 2;
            let c0 = if physical < 8 { physical } else { 8 };
            let c1 = if physical < 16 { physical - c0 } else { 16 - c0 };
            num_threads <= c0 + c1 || ids.len() >= 2
        },
        _ => true,
    };
    proof {
        if strategy == PinningStrategy::TieredSpillover {
            assert(physical_ids(ids@).len() == ids@.len() / 2 + ids@.len() % 2);
            assert(smt_ids(ids@).len() == ids@.len() / 2);
        }
    }
    if feasible {
        Some(build_placement(ids, num_threads, strategy))
    } else {
        None
    }
}

/// The placement of `num_threads` workers under `strategy` on `ids`, where it
/// can be made.
fn build_placement(ids: &Vec<usize>, num_threads: usize, strategy: PinningStrategy) -> (p: WorkerPlacement)
    requires
        strategy == PinningStrategy::TieredSpillover ==> tiered_feasible(ids@, num_threads as nat),
    ensures
        placement_matches(p, ids@, strategy, num_threads as nat),
{
    let physical = every_other(ids, 0);
    let smt = every_other(ids, 1);
    let c0 = if physical.len() < 8 { physical.len() } else { 8 };
    let c1_end = if physical.len() < 16 { physical.len() } else { 16 };
    let ccd0 = slice_range(&physical, 0, c0);
    let ccd1 = slice_range(&physical, c0, c1_end);
    proof {
        assert(ccd0@ =~= first_ccd(ids@));
        assert(ccd1@ =~= second_ccd(ids@));
    }
    let mut cores: Vec<Option<usize>> = Vec::new();
    let mut tiers: Vec<u32> = Vec::new();
    let mut thresholds: Vec<usize> = Vec::new();
    let mut i: usize = 0;
    while i < num_threads
        invariant
            0 <= i <= num_threads,
            physical@ == physical_ids(ids@),
            smt@ == smt_ids(ids@),
            ccd0@ == first_ccd(ids@),
            ccd1@ == second_ccd(ids@),
            strategy == PinningStrategy::TieredSpillover ==> tiered_feasible(ids@, num_threads as nat),
            cores@.len() == i,
            tiers@.len() == i,
            thresholds@.len() == i,
            forall|k: int|
                0 <= k < i ==> #[trigger] cores@[k] == planned_core(ids@, strategy, k as nat)
                    && tiers@[k] == planned_tier(ids@, strategy, k as nat)
                    && thresholds@[k] == planned_threshold(ids@, strategy, k as nat),
        decreases num_threads - i,
    {
        let (core, tier, threshold) = place_worker(ids, &physical, &smt, &ccd0, &ccd1, strategy, i, num_threads);
        let ghost old_cores = cores@;
        let ghost old_tiers = tiers@;
        let ghost old_thresholds = thresholds@;
        cores.push(core);
        tiers.push(tier);
        thresholds.push(threshold);
        proof {
            assert forall|k: int| 0 <= k < i + 1 implies #[trigger] cores@[k] == planned_core(ids@, strategy, k as nat)
                && tiers@[k] == planned_tier(ids@, strategy, k as nat)
                && thresholds@[k] == planned_threshold(ids@, strategy, k as nat) by {
                if k < i {
                    assert(cores@[k] == old_cores[k]);
                    assert(tiers@[k] == old_tiers[k]);
                    assert(thresholds@[k] == old_thresholds[k]);
                }
            }
        }
        i = i + 1;
    }
    WorkerPlacement { cores, tiers, thresholds }
}

} // verus!

verus! {

/// The siblings of a worker that it may steal from: those other than itself
/// that name an existing worker, in the order given.
pub open spec fn sibling_victims(sibs: Seq<usize>, id: nat, n: nat) -> Seq<usize> {
    sibs.filter(sibling_pred(id, n))
}

/// A sibling that is a possible victim.
pub open spec fn sibling_pred(id: nat, n: nat) -> spec_fn(usize) -> bool {
    |s: usize| s != id && s < n
}

/// A worker not yet listed in `first` that is a possible victim.
pub open spec fn remaining_pred(first: Seq<usize>, id: nat) -> spec_fn(usize) -> bool {
    |i: usize| i != id && !first.contains(i)
}

/// The workers `0..n` in order.
pub open spec fn all_workers(n: nat) -> Seq<usize> {
    Seq::new(n, |i: int| i as usize)
}

/// The other workers, in increasing order, that are not already in `first`.
pub open spec fn remaining_victims(first: Seq<usize>, id: nat, n: nat) -> Seq<usize> {
    all_workers(n).filter(remaining_pred(first, id))
}

/// `s` rotated left by `k` places.
pub open spec fn rotate_left(s: Seq<usize>, k: nat) -> Seq<usize> {
    s.subrange(k as int, s.len() as int) + s.subrange(0, k as int)
}

/// The order in which worker `id` of `n` tries to steal: its siblings on the
/// same NUMA node first, then all other workers, the whole list rotated left
/// by `id` modulo its length so that workers do not all start with the same
/// victim.
pub open spec fn steal_order_spec(sibs: Seq<usize>, id: nat, n: nat) -> Seq<usize> {
    let f = sibling_victims(sibs, id, n);
    let pre = f + remaining_victims(f, id, n);
    if pre.len() == 0 {
        pre
    } else {
        rotate_left(pre, id % pre.len())
    }
}

/// Keeping the entries of a strictly increasing sequence that satisfy a
/// predicate gives a strictly increasing sequence.
pub proof fn lemma_filter_increasing(s: Seq<usize>, p: spec_fn(usize) -> bool)
    requires
        forall|a: int, b: int| 0 <= a < b < s.len() ==> s[a] < s[b],
    ensures
        forall|a: int, b: int| 0 <= a < b < s.filter(p).len() ==> s.filter(p)[a] < s.filter(p)[b],
    decreases s.len(),
{
    broadcast use vstd::seq_lib::group_filter_ensures;

    reveal(Seq::filter);
    if s.len() > 0 {
        let d = s.drop_last();
        lemma_filter_increasing(d, p);
        let f = s.filter(p);
        let g = d.filter(p);
        if p(s.last()) {
            assert(f == g.push(s.last()));
            assert forall|a: int, b: int| 0 <= a < b < f.len() implies f[a] < f[b] by {
                if b == f.len() - 1 {
                    assert(f[a] == g[a]);
                    assert(g.contains(g[a]));
                    d.lemma_filter_contains_rev(p, g[a]);
                    let k = choose|k: int| 0 <= k < d.len() && d[k] == g[a];
                    assert(d[k] == s[k]);
                } else {
                    assert(f[a] == g[a] && f[b] == g[b]);
                }
            }
        } else {
            assert(f == g);
        }
    }
}

/// Whether `v` holds `x`.
fn vec_contains(v: &Vec<usize>, x: usize) -> (b: bool)
    ensures
        b <==> v@.contains(x),
{
    let mut k: usize = 0;
    while k < v.len()
        invariant
            k <= v@.len(),
            forall|j: int| 0 <= j < k ==> v@[j] != x,
        decreases v@.len() - k,
    {
        if v[k] == x {
            assert(v@[k as int] == x);
            return true;
        }
        k = k + 1;
    }
    false
}

/// One more element of a sequence, filtered.
pub(crate) proof fn lemma_filter_take_step(s: Seq<usize>, pred: spec_fn(usize) -> bool, k: int)
    requires
        0 <= k < s.len(),
    ensures
        s.take(k + 1).filter(pred) == if pred(s[k]) {
            s.take(k).filter(pred).push(s[k])
        } else {
            s.take(k).filter(pred)
        },
{
    reveal(Seq::filter);
    assert(s.take(k + 1).drop_last() =~= s.take(k));
    assert(s.take(k + 1).last() == s[k]);
}

/// Computes the order in which worker `worker_id` of `num_workers` tries to
/// steal work, given the workers on its NUMA node (if known).
pub fn steal_order(worker_id: usize, num_workers: usize, siblings: Option<&Vec<usize>>) -> (r: Vec<usize>)
    ensures
        r@ == steal_order_spec(
            match siblings {
                Some(v) => v@,
                None => Seq::empty(),
            },
            worker_id as nat,
            num_workers as nat,
        ),
{
    let ghost sibs: Seq<usize> = match siblings {
        Some(v) => v@,
        None => Seq::empty(),
    };
    let ghost p1 = sibling_pred(worker_id as nat, num_workers as nat);
    let mut order: Vec<usize> = Vec::new();
    match siblings {
        Some(v) => {
            let mut k: usize = 0;
            while k < v.len()
                invariant
                    k <= v@.len(),
                    sibs == v@,
                    p1 == sibling_pred(worker_id as nat, num_workers as nat),
                    order@ == v@.take(k as int).filter(p1),
                decreases v@.len() - k,
            {
                proof {
                    lemma_filter_take_step(v@, p1, k as int);
                }
                let s = v[k];
                if s != worker_id && s < num_workers {
                    order.push(s);
                }
                k = k + 1;
            }
            proof {
                assert(v@.take(v@.len() as int) =~= v@);
            }
        },
        None => {
            proof {
                assert(sibs.filter(p1) =~= Seq::<usize>::empty()) by {
                    reveal(Seq::filter);
                }
            }
        },
    }
    let ghost f = order@;
    assert(f == sibling_victims(sibs, worker_id as nat, num_workers as nat));
    let ghost p2 = remaining_pred(f, worker_id as nat);
    let ghost all = all_workers(num_workers as nat);
    let mut i: usize = 0;
    while i < num_workers
        invariant
            i <= num_workers,
            all == all_workers(num_workers as nat),
            p2 == remaining_pred(f, worker_id as nat),
            order@ == f + all.take(i as int).filter(p2),
        decreases num_workers - i,
    {
        proof {
            lemma_filter_take_step(all, p2, i as int);
            let rest = all.take(i as int).filter(p2);
            assert forall|x: usize| rest.contains(x) implies x < i by {
                all.take(i as int).lemma_filter_contains_rev(p2, x);
            }
            if !f.contains(i) {
                assert(!rest.contains(i));
                assert(!order@.contains(i)) by {
                    if order@.contains(i) {
                        let j = choose|j: int| 0 <= j < order@.len() && order@[j] == i;
                        if j < f.len() {
                            assert(f.contains(i));
                        } else {
                            assert(rest[j - f.len()] == i);
                            assert(rest.contains(i));
                        }
                    }
                }
            } else {
                let j = choose|j: int| 0 <= j < f.len() && f[j] == i;
                assert(order@[j] == i);
            }
        }
        if i != worker_id && !vec_contains(&order, i) {
            order.push(i);
            proof {
                assert(order@ =~= f + all.take(i + 1).filter(p2));
            }
        }
        i = i + 1;
    }
    proof {
        assert(all.take(num_workers as int) =~= all);
    }
    let ghost pre = order@;
    let len = order.len();
    if len == 0 {
        return order;
    }
    let k = worker_id % len;
    let mut rotated: Vec<usize> = Vec::new();
    let mut j: usize = k;
    while j < len
        invariant
            k <= j <= len,
            len == order@.len(),
            rotated@ == order@.subrange(k as int, j as int),
        decreases len - j,
    {
        rotated.push(order[j]);
        j = j + 1;
        proof {
            assert(rotated@ =~= order@.subrange(k as int, j as int));
        }
    }
    let mut j2: usize = 0;
    while j2 < k
        invariant
            j2 <= k,
            k < len,
            len == order@.len(),
            rotated@ == order@.subrange(k as int, len as int) + order@.subrange(0, j2 as int),
        decreases k - j2,
    {
        rotated.push(order[j2]);
        j2 = j2 + 1;
        proof {
            assert(rotated@ =~= order@.subrange(k as int, len as int) + order@.subrange(0, j2 as int));
        }
    }
    rotated
}

} // verus!

verus! {

/// Error of worker pool operations.
#[derive(Debug)]
pub enum WorkerPoolError {
    /// One or more worker threads failed to join during shutdown.
    WorkerPanic { failed_count: usize },
}

/// The outcome of a shutdown in which `failed_count` worker threads could
/// not be joined: `Ok` when none failed.
pub fn shutdown_result(failed_count: usize) -> (r: Result<(), WorkerPoolError>)
    ensures
        failed_count == 0 ==> r is Ok,
        failed_count > 0 ==> (r matches Err(WorkerPoolError::WorkerPanic { failed_count: c }) && c == failed_count),
{
    if failed_count > 0 {
        Err(WorkerPoolError::WorkerPanic { failed_count })
    } else {
        Ok(())
    }
}

/// Where a submitted job is queued.
#[derive(Clone, Copy, Debug, PartialEq, Eq, Structural)]
pub enum QueueTarget {
    /// The submitting worker's own local deque.
    Local,
    /// The global queue of high-priority jobs.
    HighPriorityInjector,
    /// The global queue of all other jobs.
    Injector,
}

/// The queue `submit` chooses for a job.
pub open spec fn submit_target_spec(on_worker_thread: bool, priority: crate::job::JobPriority) -> QueueTarget {
    if on_worker_thread {
        QueueTarget::Local
    } else if priority == crate::job::JobPriority::High {
        QueueTarget::HighPriorityInjector
    } else {
        QueueTarget::Injector
    }
}

/// Where `submit` puts a job: on a worker thread, the worker's local deque;
/// elsewhere, the high-priority queue for high-priority jobs and the global
/// queue for the rest.
pub fn submit_target(on_worker_thread: bool, priority: crate::job::JobPriority) -> (t: QueueTarget)
    ensures
        t == submit_target_spec(on_worker_thread, priority),
        on_worker_thread ==> t == QueueTarget::Local,
        !on_worker_thread && priority == crate::job::JobPriority::High ==> t == QueueTarget::HighPriorityInjector,
        !on_worker_thread && priority != crate::job::JobPriority::High ==> t == QueueTarget::Injector,
{
    if on_worker_thread {
        QueueTarget::Local
    } else {
        match priority {
            crate::job::JobPriority::High => QueueTarget::HighPriorityInjector,
            _ => QueueTarget::Injector,
        }
    }
}

/// How many sleeping workers `submit_batch` wakes after queueing `count`
/// jobs on a pool of `num_workers`: one when the jobs went to the local
/// deque, otherwise one per job up to the number of workers; none for an
/// empty batch.
pub fn batch_wake_count(count: usize, num_workers: usize, on_worker_thread: bool) -> (w: usize)
    ensures
        count == 0 ==> w == 0,
        count > 0 && on_worker_thread ==> w == 1,
        count > 0 && !on_worker_thread ==> w == (if count < num_workers { count } else { num_workers }),
{
    if count == 0 {
        0
    } else if on_worker_thread {
        1
    } else if count < num_workers {
        count
    } else {
        num_workers
    }
}

/// Whether waking one sleeper signals the condition variable: only when some
/// worker sleeps.
pub fn should_notify(sleepers: usize) -> (b: bool)
    ensures
        b <==> sleepers > 0,
{
    sleepers > 0
}

/// Whether a worker resets its frame allocator: when the pool's frame index
/// has moved past the one the worker last saw.
pub fn frame_advanced(global_frame: u64, local_frame: u64) -> (b: bool)
    ensures
        b <==> global_frame > local_frame,
{
    global_frame > local_frame
}

/// Whether a worker stays dormant.
pub open spec fn stay_dormant_spec(tier: u32, active_workers: usize, threshold: usize, injector_empty: bool) -> bool {
    tier > 1 && active_workers < threshold && injector_empty
}

/// Whether a worker stays dormant this round: a worker beyond the first tier
/// sleeps while fewer than `threshold` workers are busy and the global queue
/// is empty.
pub fn stay_dormant(tier: u32, active_workers: usize, threshold: usize, injector_empty: bool) -> (b: bool)
    ensures
        b == stay_dormant_spec(tier, active_workers, threshold, injector_empty),
{
    tier > 1 && active_workers < threshold && injector_empty
}

/// Where a worker takes its next job from.
#[derive(Clone, Copy, Debug, PartialEq, Eq, Structural)]
pub enum JobSource {
    /// The global high-priority queue.
    HighPriority,
    /// The worker's own local deque.
    Local,
    /// The local deque of the given victim worker.
    Steal(usize),
    /// The global queue.
    Global,
}

/// The source chosen among those that have a job.
pub open spec fn pick_source_spec(high: bool, local: bool, victim: Option<usize>, global: bool) -> Option<JobSource> {
    if high {
        Some(JobSource::HighPriority)
    } else if local {
        Some(JobSource::Local)
    } else if victim is Some {
        Some(JobSource::Steal(victim->0))
    } else if global {
        Some(JobSource::Global)
    } else {
        None
    }
}

/// The source a worker takes its next job from, given which sources have a
/// job: the high-priority queue first, then its own deque, then the first
/// victim in steal order that has work, then the global queue; `None` when
/// all are empty.
pub fn pick_source(high: bool, local: bool, victim: Option<usize>, global: bool) -> (s: Option<JobSource>)
    ensures
        s == pick_source_spec(high, local, victim, global),
        high ==> s == Some(JobSource::HighPriority),
        !high && local ==> s == Some(JobSource::Local),
        !high && !local && victim is Some ==> s == Some(JobSource::Steal(victim->0)),
        !high && !local && victim is None && global ==> s == Some(JobSource::Global),
        !high && !local && victim is None && !global ==> s is None,
{
    if high {
        Some(JobSource::HighPriority)
    } else if local {
        Some(JobSource::Local)
    } else {
        match victim {
            Some(v) => Some(JobSource::Steal(v)),
            None => if global {
                Some(JobSource::Global)
            } else {
                None
            },
        }
    }
}

/// Where a worker looks for its next job, or how its search ended.
#[derive(Clone, Copy, Debug, PartialEq, Eq, Structural)]
pub enum Probe {
    /// Look in the global high-priority queue.
    HighPriority,
    /// Look in the worker's own deque.
    Local,
    /// Try to steal from the victim at this position of the steal order.
    Victim(usize),
    /// Look in the global queue.
    Global,
    /// A job was taken from this source.
    Found(JobSource),
    /// Every source was empty.
    Exhausted,
}

/// The step after looking at `p`, given whether a job was taken there and
/// the worker's steal order: the high-priority queue, then the own deque,
/// then each victim in steal order, then the global queue.
pub open spec fn next_probe_spec(p: Probe, found: bool, order: Seq<usize>) -> Probe {
    match p {
        Probe::HighPriority => if found {
            Probe::Found(JobSource::HighPriority)
        } else {
            Probe::Local
        },
        Probe::Local => if found {
            Probe::Found(JobSource::Local)
        } else if order.len() > 0 {
            Probe::Victim(0)
        } else {
            Probe::Global
        },
        Probe::Victim(k) => if found && k < order.len() {
            Probe::Found(JobSource::Steal(order[k as int]))
        } else if k + 1 < order.len() && k < usize::MAX {
            Probe::Victim((k + 1) as usize)
        } else {
            Probe::Global
        },
        Probe::Global => if found {
            Probe::Found(JobSource::Global)
        } else {
            Probe::Exhausted
        },
        _ => p,
    }
}

/// The worker's search for a job, one step at a time: where to look after
/// looking at `p` and finding a job there (`found`) or not.
pub fn next_probe(p: Probe, found: bool, order: &Vec<usize>) -> (n: Probe)
    ensures
        n == next_probe_spec(p, found, order@),
{
    match p {
        Probe::HighPriority => if found {
            Probe::Found(JobSource::HighPriority)
        } else {
            Probe::Local
        },
        Probe::Local => if found {
            Probe::Found(JobSource::Local)
        } else if order.len() > 0 {
            Probe::Victim(0)
        } else {
            Probe::Global
        },
        Probe::Victim(k) => if found && k < order.len() {
            Probe::Found(JobSource::Steal(order[k]))
        } else if k < order.len() && k + 1 < order.len() {
            Probe::Victim(k + 1)
        } else {
            Probe::Global
        },
        Probe::Global => if found {
            Probe::Found(JobSource::Global)
        } else {
            Probe::Exhausted
        },
        _ => p,
    }
}

/// Whether looking at `p` finds a job, when the high-priority queue, the own
/// deque, each victim in steal order (`has`) and the global queue have one
/// or not.
pub open spec fn probe_finds(p: Probe, high: bool, local: bool, has: Seq<bool>, global: bool) -> bool {
    match p {
        Probe::HighPriority => high,
        Probe::Local => local,
        Probe::Victim(k) => k < has.len() && has[k as int],
        Probe::Global => global,
        _ => false,
    }
}

/// How many steps at most remain after `p` with `n` victims.
pub open spec fn probe_rank(p: Probe, n: nat) -> nat {
    match p {
        Probe::HighPriority => n + 4,
        Probe::Local => n + 3,
        Probe::Victim(k) => if k < n {
            (n + 2 - k) as nat
        } else {
            2
        },
        Probe::Global => 1,
        _ => 0,
    }
}

/// Where the search started at `p` ends.
pub open spec fn probe_run(p: Probe, high: bool, local: bool, has: Seq<bool>, global: bool, order: Seq<usize>) -> Probe
    decreases probe_rank(p, order.len()),
{
    match p {
        Probe::Found(_) => p,
        Probe::Exhausted => p,
        _ => probe_run(next_probe_spec(p, probe_finds(p, high, local, has, global), order), high, local, has, global, order),
    }
}

/// The first victim from position `k` on in steal order that has a job.
pub open spec fn first_victim(has: Seq<bool>, order: Seq<usize>, k: nat) -> Option<usize>
    decreases order.len() - k,
{
    if k >= order.len() {
        None
    } else if k < has.len() && has[k as int] {
        Some(order[k as int])
    } else {
        first_victim(has, order, k + 1)
    }
}

/// From victim `k` on, the search takes the first victim with a job, or
/// goes on to the global queue.
proof fn lemma_probe_victims(high: bool, local: bool, has: Seq<bool>, global: bool, order: Seq<usize>, k: nat)
    requires
        k < order.len(),
        order.len() <= usize::MAX,
    ensures
        probe_run(Probe::Victim(k as usize), high, local, has, global, order) == match first_victim(has, order, k) {
            Some(v) => Probe::Found(JobSource::Steal(v)),
            None => probe_run(Probe::Global, high, local, has, global, order),
        },
    decreases order.len() - k,
{
    let p = Probe::Victim(k as usize);
    let found = k < has.len() && has[k as int];
    let n = next_probe_spec(p, found, order);
    assert(probe_run(p, high, local, has, global, order) == probe_run(n, high, local, has, global, order));
    if found {
        assert(n == Probe::Found(JobSource::Steal(order[k as int])));
        assert(probe_run(n, high, local, has, global, order) == n);
    } else if k + 1 < order.len() {
        assert(n == Probe::Victim((k + 1) as usize));
        lemma_probe_victims(high, local, has, global, order, k + 1);
    } else {
        assert(n == Probe::Global);
        assert(first_victim(has, order, k + 1) is None);
    }
}

/// The order in which a worker looks for work: the search that starts at
/// the high-priority queue ends with the job from the first source that has
/// one (the high-priority queue, the own deque, the first victim in steal
/// order with a job, the global queue), as `pick_source` names it, and ends
/// empty-handed only when every source is empty.
pub proof fn lemma_probe_order(high: bool, local: bool, has: Seq<bool>, global: bool, order: Seq<usize>)
    requires
        order.len() <= usize::MAX,
    ensures
        probe_run(Probe::HighPriority, high, local, has, global, order) == match pick_source_spec(
            high,
            local,
            first_victim(has, order, 0),
            global,
        ) {
            Some(s) => Probe::Found(s),
            None => Probe::Exhausted,
        },
{
    let h = Probe::HighPriority;
    let l = Probe::Local;
    let g = Probe::Global;
    assert(probe_run(g, high, local, has, global, order) == (if global {
        Probe::Found(JobSource::Global)
    } else {
        Probe::Exhausted
    })) by {
        let n = next_probe_spec(g, global, order);
        assert(probe_run(g, high, local, has, global, order) == probe_run(n, high, local, has, global, order));
        assert(probe_run(n, high, local, has, global, order) == n);
    }
    let after_local = if order.len() > 0 { Probe::Victim(0) } else { g };
    if order.len() > 0 {
        lemma_probe_victims(high, local, has, global, order, 0);
    } else {
        assert(first_victim(has, order, 0) is None);
    }
    if high {
        let n = next_probe_spec(h, true, order);
        assert(probe_run(h, high, local, has, global, order) == probe_run(n, high, local, has, global, order));
        assert(probe_run(n, high, local, has, global, order) == n);
    } else {
        assert(probe_run(h, high, local, has, global, order) == probe_run(l, high, local, has, global, order));
        if local {
            let n = next_probe_spec(l, true, order);
            assert(probe_run(l, high, local, has, global, order) == probe_run(n, high, local, has, global, order));
            assert(probe_run(n, high, local, has, global, order) == n);
        } else {
            assert(probe_run(l, high, local, has, global, order) == probe_run(after_local, high, local, has, global, order));
        }
    }
}

/// How often a worker retries the global queue under contention.
pub const MAX_INJECTOR_RETRIES: usize = 3;

/// After a contended attempt on the global queue, the new retry count and
/// whether the worker gives up (and yields its thread).
pub fn injector_retry(retry_count: usize) -> (r: (usize, bool))
    requires
        retry_count < MAX_INJECTOR_RETRIES,
    ensures
        r.0 == retry_count + 1,
        r.1 <==> r.0 >= MAX_INJECTOR_RETRIES,
{
    let n = retry_count + 1;
    (n, n >= MAX_INJECTOR_RETRIES)
}

/// The queue a worker hands to a new job for waking waiters: the global
/// queue under tiered spillover, so dormant workers see it, and the local
/// deque otherwise.
pub fn wake_target(strategy: PinningStrategy) -> (t: QueueTarget)
    ensures
        strategy == PinningStrategy::TieredSpillover ==> t == QueueTarget::Injector,
        strategy != PinningStrategy::TieredSpillover ==> t == QueueTarget::Local,
{
    match strategy {
        PinningStrategy::TieredSpillover => QueueTarget::Injector,
        _ => QueueTarget::Local,
    }
}

/// What a worker does with a fiber after resuming it.
#[derive(Clone, Copy, Debug, PartialEq, Eq, Structural)]
pub enum FiberAction {
    /// The job finished: return the fiber to the pool.
    ReturnToPool,
    /// The fiber yielded: queue a job that resumes it.
    Reschedule(QueueTarget),
    /// The fiber waits on a counter: leave it suspended; the counter
    /// reschedules it when it reaches zero.
    LeaveSuspended,
    /// The job panicked: report it and drop the fiber.
    Discard,
}

/// The worker's handling of a resumed fiber's state. A yielded fiber is
/// resumed by a high-priority job, which tiered spillover puts in the global
/// high-priority queue (so that any worker may pick it up) and other
/// strategies keep in the local deque.
pub fn after_resume(state: &crate::fiber::FiberState, strategy: PinningStrategy) -> (a: FiberAction)
    ensures
        state is Complete ==> a == FiberAction::ReturnToPool,
        state is Panic ==> a == FiberAction::Discard,
        state matches crate::fiber::FiberState::Yielded(crate::fiber::YieldType::Normal) ==> a == (if strategy == PinningStrategy::TieredSpillover {
            FiberAction::Reschedule(QueueTarget::HighPriorityInjector)
        } else {
            FiberAction::Reschedule(QueueTarget::Local)
        }),
        state matches crate::fiber::FiberState::Yielded(crate::fiber::YieldType::Wait) ==> a == FiberAction::LeaveSuspended,
        state matches crate::fiber::FiberState::Yielded(crate::fiber::YieldType::Complete) ==> a == FiberAction::LeaveSuspended,
{
    match state {
        crate::fiber::FiberState::Complete => FiberAction::ReturnToPool,
        crate::fiber::FiberState::Panic(_) => FiberAction::Discard,
        crate::fiber::FiberState::Yielded(crate::fiber::YieldType::Normal) => {
            let priority = crate::job::resume_job_priority();
            match strategy {
                PinningStrategy::TieredSpillover => {
                    match priority {
                        crate::job::JobPriority::High => FiberAction::Reschedule(QueueTarget::HighPriorityInjector),
                        _ => FiberAction::Reschedule(QueueTarget::Injector),
                    }
                },
                _ => FiberAction::Reschedule(QueueTarget::Local),
            }
        },
        crate::fiber::FiberState::Yielded(_) => FiberAction::LeaveSuspended,
    }
}

/// What an idle worker does.
#[derive(Clone, Copy, Debug, PartialEq, Eq, Structural)]
pub enum IdleAction {
    /// Spin or yield briefly and look for work again.
    Snooze,
    /// Allocate one more fiber for the pool, then look for work again.
    GrowPool,
    /// Sleep until woken or until the parking timeout.
    Park,
}

/// What a worker that found no job does: back off while its backoff has not
/// run out; then grow its fiber pool by one while it is below the target
/// size; park otherwise.
pub fn idle_action(backoff_completed: bool, pool_len: usize, target_pool_size: usize) -> (a: IdleAction)
    ensures
        !backoff_completed ==> a == IdleAction::Snooze,
        backoff_completed && pool_len < target_pool_size ==> a == IdleAction::GrowPool,
        backoff_completed && pool_len >= target_pool_size ==> a == IdleAction::Park,
{
    if !backoff_completed {
        IdleAction::Snooze
    } else if pool_len < target_pool_size {
        IdleAction::GrowPool
    } else {
        IdleAction::Park
    }
}

} // verus!

verus! {

/// Filtering keeps a sequence free of duplicates.
pub(crate) proof fn lemma_filter_no_dup(s: Seq<usize>, p: spec_fn(usize) -> bool)
    requires
        s.no_duplicates(),
    ensures
        s.filter(p).no_duplicates(),
    decreases s.len(),
{
    reveal(Seq::filter);
    if s.len() > 0 {
        let d = s.drop_last();
        let x = s.last();
        assert(d.no_duplicates());
        lemma_filter_no_dup(d, p);
        let q = d.filter(p);
        if p(x) {
            assert(!q.contains(x)) by {
                if q.contains(x) {
                    d.lemma_filter_contains_rev(p, x);
                    let j = choose|j: int| 0 <= j < d.len() && d[j] == x;
                    assert(s[j] == s[s.len() - 1]);
                }
            }
            assert(q.push(x).no_duplicates()) by {
                assert forall|i: int, j: int|
                    0 <= i < q.push(x).len() && 0 <= j < q.push(x).len() && i != j implies q.push(x)[i]
                    != q.push(x)[j] by {
                    if i == q.len() {
                        assert(q[j] != x);
                    } else if j == q.len() {
                        assert(q[i] != x);
                    }
                }
            }
        }
    }
}

/// Rotating a sequence keeps its elements and keeps it free of duplicates.
proof fn lemma_rotate_same_elements(s: Seq<usize>, k: nat)
    requires
        k < s.len(),
    ensures
        rotate_left(s, k).len() == s.len(),
        forall|x: usize| rotate_left(s, k).contains(x) <==> s.contains(x),
        s.no_duplicates() ==> rotate_left(s, k).no_duplicates(),
{
    let r = rotate_left(s, k);
    let len = s.len();
    assert forall|i: int| 0 <= i < len implies #[trigger] r[i] == s[if i < len - k { i + k } else { i - (len - k) }] by {
    }
    assert forall|x: usize| r.contains(x) <==> s.contains(x) by {
        if s.contains(x) {
            let j = choose|j: int| 0 <= j < len && s[j] == x;
            if j >= k {
                assert(r[j - k] == x);
            } else {
                assert(r[j + (len - k)] == x);
            }
        }
        if r.contains(x) {
            let i = choose|i: int| 0 <= i < len && r[i] == x;
            assert(r[i] == s[if i < len - k { i + k } else { i - (len - k) }]);
        }
    }
}

/// The steal order, turned back by the rotation it was given (`id` modulo
/// its length), lists first every sibling that names another existing
/// worker, in the order given, and then the remaining workers in increasing
/// order, none of them such a sibling.
pub proof fn lemma_steal_order_siblings_first(sibs: Seq<usize>, id: nat, n: nat)
    requires
        n <= usize::MAX,
    ensures
        ({
            let r = steal_order_spec(sibs, id, n);
            let f = sibs.filter(|s: usize| s != id && s < n);
            let len = r.len();
            let k = if len == 0 { 0 } else { id % len };
            let u = Seq::new(len, |j: int| r[(j + len - k) % (len as int)]);
            &&& f.len() <= len
            &&& u.take(f.len() as int) == f
            &&& forall|a: int, b: int| f.len() <= a < b < len ==> #[trigger] u[a] < #[trigger] u[b]
            &&& forall|j: int| f.len() <= j < len ==> !f.contains(#[trigger] u[j])
        }),
{
    broadcast use vstd::seq_lib::group_filter_ensures;

    let r = steal_order_spec(sibs, id, n);
    let f = sibs.filter(|s: usize| s != id && s < n);
    assert(sibling_pred(id, n) =~= (|s: usize| s != id && s < n));
    let ff = sibling_victims(sibs, id, n);
    assert(ff == f);
    let all = all_workers(n);
    let rest = remaining_victims(ff, id, n);
    let pre = ff + rest;
    let len = r.len();
    let k = if len == 0 { 0 } else { id % len };
    let u = Seq::new(len, |j: int| r[(j + len - k) % (len as int)]);
    assert(len == pre.len());
    assert(u =~= pre) by {
        if len > 0 {
            assert(r == rotate_left(pre, k));
            assert forall|j: int| 0 <= j < len implies u[j] == pre[j] by {
                if j >= k {
                    vstd::arithmetic::div_mod::lemma_mod_add_multiples_vanish(j - k, len as int);
                    vstd::arithmetic::div_mod::lemma_small_mod((j - k) as nat, len);
                    assert((j + len - k) % (len as int) == j - k);
                } else {
                    vstd::arithmetic::div_mod::lemma_small_mod((j + len - k) as nat, len);
                }
            }
        }
    }
    assert(u.take(f.len() as int) =~= f);
    assert forall|x: int, y: int| 0 <= x < y < all.len() implies all[x] < all[y] by {
        assert(all[x] == x as usize && all[y] == y as usize);
    }
    lemma_filter_increasing(all, remaining_pred(ff, id));
    assert forall|a: int, b: int| f.len() <= a < b < len implies #[trigger] u[a] < #[trigger] u[b] by {
        assert(u[a] == rest[a - f.len()] && u[b] == rest[b - f.len()]);
    }
    assert forall|j: int| f.len() <= j < len implies !f.contains(#[trigger] u[j]) by {
        assert(u[j] == rest[j - f.len()]);
        assert(remaining_pred(ff, id)(rest[j - f.len()]));
    }
}

/// The steal order of a worker lists every other worker exactly once and
/// never the worker itself (given a sibling list without repetitions, as
/// the topology provides).
pub proof fn lemma_steal_order_complete(sibs: Seq<usize>, id: nat, n: nat)
    requires
        sibs.no_duplicates(),
        n <= usize::MAX,
    ensures
        steal_order_spec(sibs, id, n).no_duplicates(),
        forall|j: usize| steal_order_spec(sibs, id, n).contains(j) <==> (j < n && j != id),
{
    broadcast use vstd::seq_lib::group_filter_ensures;

    let p1 = sibling_pred(id, n);
    let f = sibling_victims(sibs, id, n);
    let p2 = remaining_pred(f, id);
    let all = all_workers(n);
    let rest = remaining_victims(f, id, n);
    let pre = f + rest;
    
    lemma_filter_no_dup(sibs, p1);
    assert(all.no_duplicates()) by {
        assert forall|i: int, j: int| 0 <= i < all.len() && 0 <= j < all.len() && i != j implies all[i] != all[j] by {
            assert(all[i] == i as usize);
            assert(all[j] == j as usize);
        }
    }
    lemma_filter_no_dup(all, p2);
    assert forall|x: usize| f.contains(x) implies x < n && x != id by {
        let i = choose|i: int| 0 <= i < f.len() && f[i] == x;
        assert(p1(f[i]));
    }
    assert forall|x: usize| rest.contains(x) implies x < n && x != id && !f.contains(x) by {
        let i = choose|i: int| 0 <= i < rest.len() && rest[i] == x;
        assert(p2(rest[i]));
        all.lemma_filter_contains_rev(p2, x);
    }
    assert forall|i: int, j: int| 0 <= i < f.len() && 0 <= j < rest.len() implies f[i] != rest[j] by {
        assert(rest.contains(rest[j]));
        assert(f.contains(f[i]));
    }
    vstd::seq_lib::lemma_no_dup_in_concat(f, rest);
    assert forall|j: usize| pre.contains(j) <==> (j < n && j != id) by {
        if pre.contains(j) {
            let i = choose|i: int| 0 <= i < pre.len() && pre[i] == j;
            if i < f.len() {
                assert(f.contains(j));
            } else {
                assert(rest[i - f.len()] == j);
                assert(rest.contains(j));
            }
        }
        if j < n && j != id {
            if f.contains(j) {
                let i = choose|i: int| 0 <= i < f.len() && f[i] == j;
                assert(pre[i] == j);
            } else {
                assert(all[j as int] == j);
                assert(p2(all[j as int]));
                assert(rest.contains(j));
                let i = choose|i: int| 0 <= i < rest.len() && rest[i] == j;
                assert(pre[f.len() + i] == j);
            }
        }
    }
    if pre.len() > 0 {
        lemma_rotate_same_elements(pre, id % pre.len());
        let r = steal_order_spec(sibs, id, n);
        assert(r == rotate_left(pre, id % pre.len()));
        assert forall|j: usize| r.contains(j) <==> (j < n && j != id) by {
            assert(r.contains(j) <==> pre.contains(j));
        }
    }
}

} // verus!

verus! {

/// Calls `core_affinity::get_core_ids` and gives the ids of the processors
/// it lists, in order, or none when the call fails. They depend on the
/// machine, so nothing is stated of them.
#[verifier::external_body]
fn available_core_ids() -> (ids: Vec<usize>) {
    core_affinity::get_core_ids().unwrap_or_default().iter().map(|c| c.id).collect()
}

/// Decides where each of `num_threads` workers runs under `strategy` on the
/// processors of this machine: the plan of `plan_placement` for the
/// processors that the machine lists.
pub fn detect_placement(num_threads: usize, strategy: PinningStrategy) -> (r: Option<WorkerPlacement>)
    ensures
        exists|ids: Seq<usize>| #[trigger] plan_result(r, ids, strategy, num_threads as nat),
        strategy != PinningStrategy::TieredSpillover ==> r is Some,
{
    let ids = available_core_ids();
    let r = plan_placement(&ids, num_threads, strategy);
    assert(plan_result(r, ids@, strategy, num_threads as nat));
    r
}

} // verus!

verus! {

/// Priority scheduling: a high-priority job submitted from outside the pool
/// goes to the high-priority queue, and a worker whose high-priority queue
/// holds a job takes it before anything in its own deque, its victims' deques
/// or the global queue; a job of any other priority never enters that queue.
pub proof fn lemma_high_priority_first(
    priority: crate::job::JobPriority,
    local: bool,
    victim: Option<usize>,
    global: bool,
)
    ensures
        priority == crate::job::JobPriority::High ==> submit_target_spec(false, priority)
            == QueueTarget::HighPriorityInjector,
        priority != crate::job::JobPriority::High ==> submit_target_spec(false, priority)
            != QueueTarget::HighPriorityInjector,
        pick_source_spec(true, local, victim, global) == Some(JobSource::HighPriority),
{
}

/// A worker finds no job only when every source is empty.
pub proof fn lemma_no_job_only_when_all_empty(high: bool, local: bool, victim: Option<usize>, global: bool)
    ensures
        pick_source_spec(high, local, victim, global) is None <==> (!high && !local && victim is None && !global),
{
}

/// Tiered spillover: the workers of the first tier (and every worker under
/// the other strategies) never stay dormant, whatever the load; workers of
/// the upper tiers stay dormant only while fewer than 7 (tier 2) or 15
/// (tier 3) workers are busy and the global queue is empty.
pub proof fn lemma_tiers_wake_by_load(
    ids: Seq<usize>,
    strategy: PinningStrategy,
    i: nat,
    active: usize,
    injector_empty: bool,
)
    ensures
        planned_tier(ids, strategy, i) == 1 ==> !stay_dormant_spec(
            planned_tier(ids, strategy, i),
            active,
            planned_threshold(ids, strategy, i),
            injector_empty,
        ),
        stay_dormant_spec(planned_tier(ids, strategy, i), active, planned_threshold(ids, strategy, i), injector_empty)
            ==> injector_empty && active < planned_threshold(ids, strategy, i) <= 15,
        planned_tier(ids, strategy, i) == 2 ==> planned_threshold(ids, strategy, i) == 7,
        planned_tier(ids, strategy, i) == 3 ==> planned_threshold(ids, strategy, i) == 15,
        strategy != PinningStrategy::TieredSpillover ==> planned_tier(ids, strategy, i) == 1,
{
}

/// Where worker `i` runs, with `ids` the processors in order, the
/// even-numbered ones (`ids[0]`, `ids[2]`, ...) the `np` physical cores and
/// the odd-numbered ones their `ns` SMT siblings:
/// - unpinned, on no particular processor;
/// - linear, on processor `i` of `ids`, cyclically;
/// - avoiding SMT, on physical core `i`, cyclically;
/// - CCD isolation, on physical core `i` of the first eight, cyclically;
/// - tiered spillover, the first eight workers on the first eight physical
///   cores (tier 1, never dormant), the next eight on the next eight
///   physical cores (tier 2, dormant below 7 busy workers), and all others
///   on the SMT siblings, cyclically (tier 3, dormant below 15 busy
///   workers); on a machine with fewer physical cores the tiers shrink to
///   what there is.
/// Outside tiered spillover every worker is in tier 1 and never dormant.
pub proof fn lemma_placement_by_strategy(
    p: WorkerPlacement,
    ids: Seq<usize>,
    strategy: PinningStrategy,
    n: nat,
    i: int,
)
    requires
        placement_matches(p, ids, strategy, n),
        0 <= i < n,
    ensures
        ({
            let np = (ids.len() + 1) / 2;
            let ns = ids.len() / 2;
            let c0 = if np < 8 { np } else { 8 };
            let c01 = if np < 16 { np } else { 16 };
            &&& strategy == PinningStrategy::Unpinned ==> p.cores@[i] is None
            &&& strategy == PinningStrategy::Linear ==> p.cores@[i] == (if ids.len() == 0 {
                None
            } else {
                Some(ids[i % (ids.len() as int)])
            })
            &&& strategy == PinningStrategy::AvoidSMT ==> p.cores@[i] == (if np == 0 {
                None
            } else {
                Some(ids[2 * (i % (np as int))])
            })
            &&& strategy == PinningStrategy::CCDIsolation ==> p.cores@[i] == (if c0 == 0 {
                None
            } else {
                Some(ids[2 * (i % (c0 as int))])
            })
            &&& strategy != PinningStrategy::TieredSpillover ==> p.tiers@[i] == 1 && p.thresholds@[i] == 0
            &&& strategy == PinningStrategy::TieredSpillover && i < c0 ==> p.cores@[i] == Some(ids[2 * i])
                && p.tiers@[i] == 1 && p.thresholds@[i] == 0
            &&& strategy == PinningStrategy::TieredSpillover && c0 <= i < c01 ==> p.cores@[i] == Some(
                ids[2 * i],
            ) && p.tiers@[i] == 2 && p.thresholds@[i] == 7
            &&& strategy == PinningStrategy::TieredSpillover && c01 <= i ==> p.tiers@[i] == 3
                && p.thresholds@[i] == 15 && p.cores@[i] == (if ns == 0 {
                None
            } else {
                Some(ids[2 * ((i - c01) % (ns as int)) + 1])
            })
        }),
{
    let np = (ids.len() + 1) / 2;
    let ns = ids.len() / 2;
    let ph = physical_ids(ids);
    let sm = smt_ids(ids);
    assert(ph.len() == np);
    assert(sm.len() == ns);
    assert(p.cores@[i] == planned_core(ids, strategy, i as nat));
    assert(p.tiers@[i] == planned_tier(ids, strategy, i as nat));
    assert(p.thresholds@[i] == planned_threshold(ids, strategy, i as nat));
    let c0 = if np < 8 { np } else { 8 };
    let c01 = if np < 16 { np } else { 16 };
    assert(first_ccd(ids).len() == c0);
    assert(second_ccd(ids).len() == c01 - c0);
    if strategy == PinningStrategy::Linear && ids.len() > 0 {
        assert(((i as nat) % ids.len()) as int == i % (ids.len() as int));
    }
    if strategy == PinningStrategy::AvoidSMT && np > 0 {
        assert(((i as nat) % ph.len()) as int == i % (np as int));
        assert(ph[i % (np as int)] == ids[2 * (i % (np as int))]);
    }
    if strategy == PinningStrategy::CCDIsolation && c0 > 0 {
        let m = i % (c0 as int);
        assert(((i as nat) % first_ccd(ids).len()) as int == m);
        assert(first_ccd(ids)[m] == ph[m]);
        assert(ph[m] == ids[2 * m]);
    }
    if strategy == PinningStrategy::TieredSpillover {
        if i < c0 {
            assert(first_ccd(ids)[i] == ph[i]);
            assert(ph[i] == ids[2 * i]);
        } else if i < c01 {
            assert(second_ccd(ids)[i - c0] == ph[i]);
            assert(ph[i] == ids[2 * i]);
        } else if ns > 0 {
            let m = (i - c01) % (ns as int);
            assert((((i - c0 - (c01 - c0)) as nat) % sm.len()) as int == m);
            assert(sm[m] == ids[1 + 2 * m]);
        }
    }
}

/// Every worker pinned under a strategy other than tiered spillover runs on
/// a processor of the machine, and tiered spillover gives each tier its own
/// processors: the first CCD's physical cores, then the second CCD's, then
/// the SMT siblings.
pub proof fn lemma_planned_core_on_machine(ids: Seq<usize>, strategy: PinningStrategy, i: nat)
    requires
        strategy == PinningStrategy::TieredSpillover ==> smt_ids(ids).len() > 0 || i < first_ccd(ids).len()
            + second_ccd(ids).len(),
    ensures
        planned_core(ids, strategy, i) matches Some(c) ==> ids.contains(c),
        strategy != PinningStrategy::Unpinned && ids.len() > 0 ==> planned_core(ids, strategy, i) is Some,
        strategy == PinningStrategy::AvoidSMT || strategy == PinningStrategy::CCDIsolation ==> (
        planned_core(ids, strategy, i) matches Some(c) ==> physical_ids(ids).contains(c)),
{
    let p = physical_ids(ids);
    let s = smt_ids(ids);
    assert forall|k: int| 0 <= k < p.len() implies ids.contains(#[trigger] p[k]) by {
        assert(ids[2 * k] == p[k]);
    }
    assert forall|k: int| 0 <= k < s.len() implies ids.contains(#[trigger] s[k]) by {
        assert(ids[1 + 2 * k] == s[k]);
    }
    let c0 = first_ccd(ids);
    let c1 = second_ccd(ids);
    assert forall|k: int| 0 <= k < c0.len() implies p.contains(#[trigger] c0[k]) by {
        assert(p[k] == c0[k]);
    }
    assert forall|k: int| 0 <= k < c1.len() implies p.contains(#[trigger] c1[k]) by {
        assert(p[k + min_nat(8, p.len())] == c1[k]);
    }
    match strategy {
        PinningStrategy::Linear => {
            if ids.len() > 0 {
                assert(ids.contains(ids[(i % ids.len()) as int]));
            }
        },
        PinningStrategy::AvoidSMT => {
            if p.len() > 0 {
                assert(p.contains(p[(i % p.len()) as int]));
            }
        },
        PinningStrategy::CCDIsolation => {
            if c0.len() > 0 {
                assert(p.contains(c0[(i % c0.len()) as int]));
            }
        },
        PinningStrategy::TieredSpillover => {
            if i < c0.len() {
                assert(p.contains(c0[i as int]));
            } else if i < c0.len() + c1.len() {
                assert(p.contains(c1[i - c0.len()]));
            } else if s.len() > 0 {
                let k = ((i - c0.len() - c1.len()) as nat) % s.len();
                assert(ids.contains(s[k as int]));
            }
        },
        _ => {},
    }
}

} // verus!
