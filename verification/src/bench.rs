//! Computations used by the benchmark programs and their reports.

use vstd::prelude::*;
use crate::metrics::MetricsSnapshot;

verus! {

/// The Fibonacci numbers: 0, 1, 1, 2, 3, 5, ...
pub open spec fn fib(n: nat) -> nat
    decreases n,
{
    if n <= 1 {
        n
    } else {
        fib((n - 2) as nat) + fib((n - 1) as nat)
    }
}

/// The Fibonacci numbers never decrease.
pub proof fn lemma_fib_monotonic(i: nat, j: nat)
    requires
        i <= j,
    ensures
        fib(i) <= fib(j),
    decreases j - i,
{
    if j < 2 {
    } else if i == j {
    } else if i == j - 1 {
        assert(fib(j) == fib((j - 2) as nat) + fib((j - 1) as nat));
    } else {
        lemma_fib_monotonic(i, (j - 1) as nat);
        lemma_fib_monotonic(i, (j - 2) as nat);
    }
}

/// Computes the `n`th Fibonacci number iteratively.
pub fn fibonacci(n: u64) -> (r: u64)
    requires
        fib(n as nat) <= u64::MAX,
    ensures
        r == fib(n as nat),
{
    if n <= 1 {
        return n;
    }
    let mut a: u64 = 0;
    let mut b: u64 = 1;
    let mut i: u64 = 1;
    while i < n
        invariant
            1 <= i <= n,
            fib(n as nat) <= u64::MAX,
            a == fib((i - 1) as nat),
            b == fib(i as nat),
        decreases n - i,
    {
        proof {
            lemma_fib_monotonic((i + 1) as nat, n as nat);
            assert(fib((i + 1) as nat) == fib((i - 1) as nat) + fib(i as nat));
        }
        let temp = a + b;
        a = b;
        b = temp;
        i = i + 1;
    }
    b
}

/// `s` is in ascending order.
pub open spec fn is_sorted(s: Seq<i32>) -> bool {
    forall|i: int, j: int| 0 <= i < j < s.len() ==> s[i] <= s[j]
}

/// Calls `<[i32]>::sort`, which sorts the slice in ascending order (its
/// documentation: a stable sort that arranges the elements in order).
#[verifier::external_body]
fn sort_slice(arr: &mut [i32])
    ensures
        is_sorted(final(arr)@),
        final(arr)@.to_multiset() == old(arr)@.to_multiset(),
{
    arr.sort()
}

/// Sorts a chunk of the benchmark's array.
pub fn sequential_quicksort(arr: &mut [i32])
    ensures
        is_sorted(final(arr)@),
        final(arr)@.to_multiset() == old(arr)@.to_multiset(),
{
    if arr.len() <= 1 {
        return;
    }
    sort_slice(arr);
}

/// Internal scheduler counters reported with a benchmark's results.
#[derive(Debug, Clone, Copy)]
pub struct InternalMetrics {
    pub worker_steals_success: u64,
    pub worker_steals_failed: u64,
    pub worker_steals_retry: u64,
    pub injector_steals_success: u64,
    pub injector_steals_failed: u64,
    pub injector_steals_retry: u64,
    pub parks: u64,
    pub wakeups: u64,
}

/// The internal counters taken from a job system's metrics, if it collects
/// any; parks and wake-ups are not counted and are reported as zero.
pub fn capture_internal_metrics(metrics: Option<MetricsSnapshot>) -> (r: Option<InternalMetrics>)
    ensures
        metrics is None <==> r is None,
        metrics matches Some(m) ==> r == Some(
            InternalMetrics {
                worker_steals_success: m.worker_steals_success,
                worker_steals_failed: m.worker_steals_failed,
                worker_steals_retry: m.worker_steals_retry,
                injector_steals_success: m.injector_steals_success,
                injector_steals_failed: m.injector_steals_failed,
                injector_steals_retry: m.injector_steals_retry,
                parks: 0,
                wakeups: 0,
            },
        ),
{
    match metrics {
        Some(m) => Some(
            InternalMetrics {
                worker_steals_success: m.worker_steals_success,
                worker_steals_failed: m.worker_steals_failed,
                worker_steals_retry: m.worker_steals_retry,
                injector_steals_success: m.injector_steals_success,
                injector_steals_failed: m.injector_steals_failed,
                injector_steals_retry: m.injector_steals_retry,
                parks: 0,
                wakeups: 0,
            },
        ),
        None => None,
    }
}

} // verus!

verus! {

/// `k` to the power `e`.
pub open spec fn pow_nat(k: nat, e: nat) -> nat
    decreases e,
{
    if e == 0 {
        1
    } else {
        k * pow_nat(k, (e - 1) as nat)
    }
}

/// The number of nodes on the levels above level `l` of a tree in which
/// every node has `k` children: `1 + k + ... + k^(l-1)`. It is also the
/// index of the first node of level `l` when nodes are numbered level by
/// level.
pub open spec fn level_offset(k: nat, l: nat) -> nat
    decreases l,
{
    if l == 0 {
        0
    } else {
        level_offset(k, (l - 1) as nat) + pow_nat(k, (l - 1) as nat)
    }
}

/// The next level starts one node (the root) plus `k` times the nodes above
/// the current level further on.
proof fn lemma_level_offset_step(k: nat, l: nat)
    ensures
        level_offset(k, l + 1) == 1 + k * level_offset(k, l),
    decreases l,
{
    if l > 0 {
        lemma_level_offset_step(k, (l - 1) as nat);
        let a = level_offset(k, (l - 1) as nat);
        let p = pow_nat(k, (l - 1) as nat);
        assert(level_offset(k, l) == a + p);
        assert(pow_nat(k, l) == k * p);
        assert(level_offset(k, l + 1) == level_offset(k, l) + pow_nat(k, l));
        assert(k * (a + p) == k * a + k * p) by (nonlinear_arith);
    } else {
        assert(level_offset(k, 1) == level_offset(k, 0) + pow_nat(k, 0));
        assert(k * 0 == 0) by (nonlinear_arith);
    }
}

/// Levels grow: each level offset is at least the one before and at least
/// the size of the level before.
proof fn lemma_level_offset_monotonic(k: nat, i: nat, j: nat)
    requires
        i <= j,
    ensures
        level_offset(k, i) <= level_offset(k, j),
        i < j ==> pow_nat(k, i) <= level_offset(k, j),
    decreases j - i,
{
    if i < j {
        lemma_level_offset_monotonic(k, i, (j - 1) as nat);
        if i == j - 1 {
        }
    }
}

/// Computes `k` to the power `e`.
fn pow_u32(k: u32, e: u32) -> (r: u32)
    requires
        pow_nat(k as nat, e as nat) <= u32::MAX,
    ensures
        r == pow_nat(k as nat, e as nat),
{
    let mut r: u32 = 1;
    let mut i: u32 = 0;
    while i < e
        invariant
            i <= e,
            r == pow_nat(k as nat, i as nat),
            pow_nat(k as nat, e as nat) <= u32::MAX,
        decreases e - i,
    {
        proof {
            lemma_pow_bounded_by_later(k as nat, (i + 1) as nat, e as nat);
        }
        r = k * r;
        i = i + 1;
    }
    r
}

/// A power no greater than a later one, unless it is zero anyway.
proof fn lemma_pow_bounded_by_later(k: nat, i: nat, j: nat)
    requires
        i <= j,
    ensures
        pow_nat(k, j) <= u32::MAX ==> pow_nat(k, i) <= u32::MAX,
    decreases j - i,
{
    if i < j {
        lemma_pow_bounded_by_later(k, i, (j - 1) as nat);
        if k >= 1 {
            let p = pow_nat(k, (j - 1) as nat);
            assert(p <= k * p) by (nonlinear_arith)
                requires
                    k >= 1,
            ;
        } else {
            if i > 0 {
                assert(pow_nat(k, i) == 0);
            }
        }
    }
}

/// The total number of nodes of a tree of `depth` levels in which every node
/// has `per_level` children (the transform hierarchy of the benchmark).
pub fn hierarchy_node_count(depth: u32, per_level: u32) -> (n: usize)
    requires
        level_offset(per_level as nat, depth as nat) <= u32::MAX,
    ensures
        n == level_offset(per_level as nat, depth as nat),
{
    let mut total: u32 = 0;
    let mut level: u32 = 0;
    while level < depth
        invariant
            level <= depth,
            total == level_offset(per_level as nat, level as nat),
            level_offset(per_level as nat, depth as nat) <= u32::MAX,
        decreases depth - level,
    {
        proof {
            lemma_level_offset_monotonic(per_level as nat, (level + 1) as nat, depth as nat);
            lemma_level_offset_monotonic(per_level as nat, level as nat, depth as nat);
        }
        let p = pow_u32(per_level, level);
        total = total + p;
        level = level + 1;
    }
    total as usize
}

/// The index of the first node of each level.
pub fn hierarchy_level_starts(depth: u32, per_level: u32) -> (r: Vec<usize>)
    requires
        level_offset(per_level as nat, depth as nat) <= u32::MAX,
    ensures
        r@.len() == depth,
        forall|l: int| 0 <= l < depth ==> #[trigger] r@[l] == level_offset(per_level as nat, l as nat),
{
    let mut r: Vec<usize> = Vec::new();
    let mut current: usize = 0;
    let mut level: u32 = 0;
    while level < depth
        invariant
            level <= depth,
            r@.len() == level,
            current == level_offset(per_level as nat, level as nat),
            level_offset(per_level as nat, depth as nat) <= u32::MAX,
            forall|l: int| 0 <= l < level ==> #[trigger] r@[l] == level_offset(per_level as nat, l as nat),
        decreases depth - level,
    {
        proof {
            lemma_level_offset_monotonic(per_level as nat, (level + 1) as nat, depth as nat);
            lemma_level_offset_monotonic(per_level as nat, level as nat, depth as nat);
        }
        r.push(current);
        let p = pow_u32(per_level, level);
        current = current + p as usize;
        level = level + 1;
    }
    r
}

/// The parent of every node of the benchmark's transform hierarchy, nodes
/// numbered level by level: the root has none, and the children of each
/// parent follow one another, so node `c` has parent `(c - 1) / per_level`.
pub fn hierarchy_parents(depth: u32, per_level: u32) -> (r: Vec<Option<usize>>)
    requires
        level_offset(per_level as nat, depth as nat) <= u32::MAX,
    ensures
        r@.len() == level_offset(per_level as nat, depth as nat),
        r@.len() > 0 ==> r@[0] is None,
        forall|c: int| 1 <= c < r@.len() ==> #[trigger] r@[c] == Some(((c - 1) / (per_level as int)) as usize),
{
    let ghost k = per_level as nat;
    let total = hierarchy_node_count(depth, per_level);
    let starts = hierarchy_level_starts(depth, per_level);
    let mut parents: Vec<Option<usize>> = Vec::new();
    let mut i: usize = 0;
    while i < total
        invariant
            i <= total,
            parents@.len() == i,
            forall|c: int| 0 <= c < i ==> #[trigger] parents@[c] is None,
        decreases total - i,
    {
        parents.push(None);
        i = i + 1;
    }
    let mut current_index: usize = 1;
    let mut level: u32 = 1;
    proof {
        lemma_level_offset_step(k, 0);
    }
    while level < depth
        invariant
            1 <= level,
            level <= depth || depth == 0,
            k == per_level as nat,
            total == level_offset(k, depth as nat),
            total <= u32::MAX,
            starts@.len() == depth,
            forall|l: int| 0 <= l < depth ==> #[trigger] starts@[l] == level_offset(k, l as nat),
            parents@.len() == total,
            depth >= 1 ==> current_index == level_offset(k, level as nat),
            forall|c: int| 0 <= c < parents@.len() && c >= current_index ==> #[trigger] parents@[c] is None,
            forall|c: int| 1 <= c < current_index && c < parents@.len() ==> #[trigger] parents@[c] == Some(((c - 1) / (per_level as int)) as usize),
            parents@.len() > 0 ==> parents@[0] is None,
        decreases depth - level,
    {
        let parent_start = starts[(level - 1) as usize];
        proof {
            lemma_level_offset_monotonic(k, level as nat, depth as nat);
            lemma_level_offset_monotonic(k, (level - 1) as nat, depth as nat);
            lemma_level_offset_monotonic(k, (level + 1) as nat, depth as nat);
            lemma_level_offset_step(k, (level - 1) as nat);
            lemma_level_offset_step(k, level as nat);
        }
        let num_parents = pow_u32(per_level, level - 1) as usize;
        let ghost level_start = current_index as nat;
        let mut parent_idx: usize = 0;
        while parent_idx < num_parents
            invariant
                1 <= level < depth,
                k == per_level as nat,
                total == level_offset(k, depth as nat),
                total <= u32::MAX,
                parents@.len() == total,
                parent_start == level_offset(k, (level - 1) as nat),
                level_start == level_offset(k, level as nat),
                level_start == 1 + k * parent_start,
                num_parents == pow_nat(k, (level - 1) as nat),
                level_offset(k, (level + 1) as nat) == level_start + k * num_parents,
                level_offset(k, (level + 1) as nat) <= total,
                parent_idx <= num_parents,
                current_index == level_start + parent_idx * k,
                forall|c: int| 0 <= c < parents@.len() && c >= current_index ==> #[trigger] parents@[c] is None,
                forall|c: int| 1 <= c < current_index && c < parents@.len() ==> #[trigger] parents@[c] == Some(((c - 1) / (per_level as int)) as usize),
                parents@.len() > 0 ==> parents@[0] is None,
            decreases num_parents - parent_idx,
        {
            let parent = parent_start + parent_idx;
            let mut j: u32 = 0;
            proof {
                assert(parent_idx * k + k <= num_parents * k) by (nonlinear_arith)
                    requires
                        parent_idx < num_parents,
                ;
            }
            while j < per_level
                invariant
                    1 <= level < depth,
                    k == per_level as nat,
                    total == level_offset(k, depth as nat),
                    total <= u32::MAX,
                    parents@.len() == total,
                    parent_start == level_offset(k, (level - 1) as nat),
                    level_start == 1 + k * parent_start,
                    parent == parent_start + parent_idx,
                    parent_idx < num_parents,
                    level_start + num_parents * k <= total,
                    parent_idx * k + k <= num_parents * k,
                    j <= per_level,
                    current_index == level_start + parent_idx * k + j,
                    forall|c: int| 0 <= c < parents@.len() && c >= current_index ==> #[trigger] parents@[c] is None,
                    forall|c: int| 1 <= c < current_index && c < parents@.len() ==> #[trigger] parents@[c] == Some(((c - 1) / (per_level as int)) as usize),
                    parents@.len() > 0 ==> parents@[0] is None,
                decreases per_level - j,
            {
                if current_index < total {
                    proof {
                        let q = parent_start + parent_idx;
                        assert(current_index - 1 == q * k + j) by (nonlinear_arith)
                            requires
                                current_index == level_start + parent_idx * k + j,
                                level_start == 1 + k * parent_start,
                                q == parent_start + parent_idx,
                        ;
                        vstd::arithmetic::div_mod::lemma_fundamental_div_mod_converse(
                            (current_index - 1) as int,
                            k as int,
                            q as int,
                            j as int,
                        );
                    }
                    parents.set(current_index, Some(parent));
                    current_index = current_index + 1;
                }
                j = j + 1;
            }
            parent_idx = parent_idx + 1;
            proof {
                assert(current_index == level_start + parent_idx * k) by (nonlinear_arith)
                    requires
                        current_index == level_start + (parent_idx - 1) * k + k,
                ;
            }
        }
        proof {
            assert(num_parents * k == k * num_parents) by (nonlinear_arith);
            assert(current_index == level_offset(k, (level + 1) as nat));
        }
        level = level + 1;
    }
    proof {
        if depth >= 1 {
            assert(current_index == total);
        }
    }
    parents
}

} // verus!

verus! {

/// `a - b`, or zero when `b` is larger.
pub open spec fn sat_sub(a: u64, b: u64) -> u64 {
    if a >= b {
        (a - b) as u64
    } else {
        0
    }
}

/// How the steal counters moved during a benchmark run.
#[derive(Debug, Clone, Copy, PartialEq, Eq, Structural)]
pub struct StealDeltas {
    pub worker_steals_success: u64,
    pub worker_steals_failed: u64,
    pub worker_steals_retry: u64,
    pub injector_steals_success: u64,
    pub injector_steals_failed: u64,
    pub injector_steals_retry: u64,
    /// All six counts together.
    pub total: usize,
}

/// The six steal counters of `after` minus those of `before` (zero when a
/// counter went down); without a `before` snapshot, the counters of `after`.
pub open spec fn deltas_spec(before: Option<MetricsSnapshot>, after: MetricsSnapshot) -> (u64, u64, u64, u64, u64, u64) {
    match before {
        Some(b) => (
            sat_sub(after.worker_steals_success, b.worker_steals_success),
            sat_sub(after.worker_steals_failed, b.worker_steals_failed),
            sat_sub(after.worker_steals_retry, b.worker_steals_retry),
            sat_sub(after.injector_steals_success, b.injector_steals_success),
            sat_sub(after.injector_steals_failed, b.injector_steals_failed),
            sat_sub(after.injector_steals_retry, b.injector_steals_retry),
        ),
        None => (
            after.worker_steals_success,
            after.worker_steals_failed,
            after.worker_steals_retry,
            after.injector_steals_success,
            after.injector_steals_failed,
            after.injector_steals_retry,
        ),
    }
}

/// The sum of six counts.
pub open spec fn sum6(d: (u64, u64, u64, u64, u64, u64)) -> int {
    d.0 + d.1 + d.2 + d.3 + d.4 + d.5
}

/// The steal statistics of the work-stealing stress benchmark: how each
/// steal counter moved between the two snapshots, and their total.
pub fn steal_deltas(before: Option<MetricsSnapshot>, after: &MetricsSnapshot) -> (d: StealDeltas)
    requires
        sum6(deltas_spec(before, *after)) <= u64::MAX,
    ensures
        ({
            let e = deltas_spec(before, *after);
            &&& d.worker_steals_success == e.0
            &&& d.worker_steals_failed == e.1
            &&& d.worker_steals_retry == e.2
            &&& d.injector_steals_success == e.3
            &&& d.injector_steals_failed == e.4
            &&& d.injector_steals_retry == e.5
            &&& d.total == sum6(e) as usize
        }),
{
    let (a, b, c, x, y, z) = match before {
        Some(bf) => (
            after.worker_steals_success.saturating_sub(bf.worker_steals_success),
            after.worker_steals_failed.saturating_sub(bf.worker_steals_failed),
            after.worker_steals_retry.saturating_sub(bf.worker_steals_retry),
            after.injector_steals_success.saturating_sub(bf.injector_steals_success),
            after.injector_steals_failed.saturating_sub(bf.injector_steals_failed),
            after.injector_steals_retry.saturating_sub(bf.injector_steals_retry),
        ),
        None => (
            after.worker_steals_success,
            after.worker_steals_failed,
            after.worker_steals_retry,
            after.injector_steals_success,
            after.injector_steals_failed,
            after.injector_steals_retry,
        ),
    };
    let total = a + b + c + x + y + z;
    StealDeltas {
        worker_steals_success: a,
        worker_steals_failed: b,
        worker_steals_retry: c,
        injector_steals_success: x,
        injector_steals_failed: y,
        injector_steals_retry: z,
        total: total as usize,
    }
}

/// The average scheduling latency in nanoseconds of the latency benchmark:
/// the summed latencies over the completed jobs, or `None` when no job was
/// recorded as completed (the benchmark then skips the data point).
pub fn mean_latency_ns(total_latency_ns: u64, jobs_completed: u64) -> (m: Option<u64>)
    ensures
        jobs_completed == 0 <==> m is None,
        m matches Some(v) ==> v == total_latency_ns / jobs_completed,
{
    if jobs_completed == 0 {
        None
    } else {
        Some(total_latency_ns / jobs_completed)
    }
}

} // verus!

verus! {

/// The number of producers (and of consumers) of the producer-consumer
/// benchmark: half the threads, at least one.
pub open spec fn producer_count(threads: nat) -> nat {
    if threads / 2 < 1 {
        1
    } else {
        threads / 2
    }
}

/// The sum of a sequence of counts.
pub open spec fn seq_sum(s: Seq<usize>) -> int
    decreases s.len(),
{
    if s.len() == 0 {
        0
    } else {
        seq_sum(s.drop_last()) + s.last()
    }
}

/// How many items each producer of the producer-consumer benchmark pushes:
/// an equal share each, the last producer also taking the remainder.
pub fn producer_shares(num_items: usize, threads: usize) -> (r: Vec<usize>)
    ensures
        r@.len() == producer_count(threads as nat),
        forall|i: int|
            0 <= i < r@.len() - 1 ==> #[trigger] r@[i] == (num_items as nat) / producer_count(threads as nat),
        r@[r@.len() - 1] == (num_items as nat) / producer_count(threads as nat) + (num_items as nat)
            % producer_count(threads as nat),
        seq_sum(r@) == num_items,
{
    let num_producers = if threads / 2 < 1 { 1 } else { threads / 2 };
    let per = num_items / num_producers;
    let remainder = num_items % num_producers;
    proof {
        vstd::arithmetic::div_mod::lemma_fundamental_div_mod(num_items as int, num_producers as int);
        assert(per + remainder <= num_items) by (nonlinear_arith)
            requires
                num_items == num_producers * per + remainder,
                remainder >= 0,
                num_producers >= 1,
        ;
    }
    let mut r: Vec<usize> = Vec::new();
    let mut i: usize = 0;
    while i < num_producers
        invariant
            i <= num_producers,
            num_producers >= 1,
            num_producers == producer_count(threads as nat),
            per == num_items / num_producers,
            remainder == num_items % num_producers,
            num_items == num_producers * per + remainder,
            per + remainder <= num_items,
            r@.len() == i,
            forall|k: int| 0 <= k < i && k < num_producers - 1 ==> #[trigger] r@[k] == per,
            i == num_producers ==> r@[i - 1] == per + remainder,
            seq_sum(r@) == i * per + (if i == num_producers { remainder as int } else { 0 }),
        decreases num_producers - i,
    {
        let share = if i == num_producers - 1 { per + remainder } else { per };
        let ghost before = r@;
        r.push(share);
        proof {
            assert(r@.drop_last() =~= before);
            assert((i + 1) * per == i * per + per) by (nonlinear_arith);
        }
        i = i + 1;
    }
    proof {
        assert(num_producers * per == per * num_producers) by (nonlinear_arith);
    }
    r
}

} // verus!
