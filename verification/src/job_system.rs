//! Configuration of the job system and the splitting of parallel loops into
//! batches of work.

use vstd::prelude::*;

verus! {

/// Configuration for the fiber system.
#[derive(Clone, Debug)]
pub struct FiberConfig {
    /// Stack size for each fiber in bytes. Default: 512 KiB.
    pub stack_size: usize,
    /// Initial number of fibers to pre-allocate per worker. Default: 16.
    pub initial_pool_size: usize,
    /// Target number of fibers to keep in the pool. Default: 128.
    /// Workers allocate fibers one at a time up to this limit while idle.
    pub target_pool_size: usize,
    /// Size of the per-worker frame allocator in bytes. Default: 1 MiB.
    pub frame_stack_size: usize,
}

impl Default for FiberConfig {
    fn default() -> (c: Self)
        ensures
            c.stack_size == 512 * 1024,
            c.initial_pool_size == 16,
            c.target_pool_size == 128,
            c.frame_stack_size == 1024 * 1024,
    {
        FiberConfig {
            stack_size: 512 * 1024,
            initial_pool_size: 16,
            target_pool_size: 128,
            frame_stack_size: 1024 * 1024,
        }
    }
}

/// `a` divided by `b`, rounded up.
pub open spec fn ceil_div(a: nat, b: nat) -> nat
    recommends
        b > 0,
{
    ((a + b - 1) as nat) / b
}

/// The batch size actually used: at least one.
pub open spec fn effective_batch(batch_size: nat) -> nat {
    if batch_size == 0 {
        1
    } else {
        batch_size
    }
}

/// The number of batches a range of `len` indices is split into.
pub open spec fn batch_count(len: nat, batch_size: nat) -> nat {
    ceil_div(len, effective_batch(batch_size))
}

/// Batch `i` of the range `[start, end)` cut into batches of `b` indices:
/// `[start + i * b, min(start + (i + 1) * b, end))`.
pub open spec fn batch_bounds(start: nat, end: nat, b: nat, i: nat) -> (nat, nat) {
    let lo = start + i * b;
    let hi = lo + b;
    (lo, if hi < end { hi } else { end })
}

/// Running the loop over `[start, end)` in batches of `batch_size` does not
/// overflow: the end of the last batch before clamping fits in a `usize`.
pub open spec fn batches_fit(start: nat, end: nat, batch_size: nat) -> bool {
    start + batch_count((end - start) as nat, batch_size) * effective_batch(batch_size) <= usize::MAX
}

/// The batches that a parallel loop over `[start, end)` with `batch_size`
/// indices per job is split into, in order; empty for an empty range.
///
/// A batch size of zero counts as one.
pub fn batch_ranges(start: usize, end: usize, batch_size: usize) -> (r: Vec<(usize, usize)>)
    requires
        start < end ==> batches_fit(start as nat, end as nat, batch_size as nat),
    ensures
        start >= end ==> r@.len() == 0,
        start < end ==> r@.len() == batch_count((end - start) as nat, batch_size as nat),
        forall|i: int|
            0 <= i < r@.len() ==> (#[trigger] r@[i]).0 == batch_bounds(
                start as nat,
                end as nat,
                effective_batch(batch_size as nat),
                i as nat,
            ).0 && r@[i].1 == batch_bounds(start as nat, end as nat, effective_batch(batch_size as nat), i as nat).1,
{
    let mut out: Vec<(usize, usize)> = Vec::new();
    if start >= end {
        return out;
    }
    let len = end - start;
    let b = if batch_size == 0 { 1 } else { batch_size };
    proof {
        if len % b != 0 {
            assert(b >= 2);
            assert(len / b < len) by (nonlinear_arith)
                requires
                    b >= 2,
                    len >= 1,
            ;
        }
    }
    let n = len / b + if len % b == 0 { 0 } else { 1 };
    proof {
        lemma_ceil_div_rewrite(len as nat, b as nat);
    }
    let mut i: usize = 0;
    while i < n
        invariant
            0 <= i <= n,
            b >= 1,
            b == effective_batch(batch_size as nat),
            n == ceil_div(len as nat, b as nat),
            len == end - start,
            start < end,
            start + n * b <= usize::MAX,
            out@.len() == i,
            forall|k: int|
                0 <= k < i ==> (#[trigger] out@[k]).0 == batch_bounds(start as nat, end as nat, b as nat, k as nat).0
                    && out@[k].1 == batch_bounds(start as nat, end as nat, b as nat, k as nat).1,
        decreases n - i,
    {
        proof {
            assert(i * b + b <= n * b) by (nonlinear_arith)
                requires
                    i < n,
                    b >= 1,
            ;
        }
        let lo = start + i * b;
        let hi0 = lo + b;
        let hi = if hi0 < end { hi0 } else { end };
        out.push((lo, hi));
        i = i + 1;
    }
    out
}

/// Division rounded up, written as the loop code computes it.
proof fn lemma_ceil_div_rewrite(len: nat, b: nat)
    requires
        b >= 1,
    ensures
        ceil_div(len, b) == len / b + if len % b == 0 { 0nat } else { 1nat },
{
    vstd::arithmetic::div_mod::lemma_fundamental_div_mod(len as int, b as int);
    let q = len / b;
    let r = len % b;
    if r == 0 {
        assert((len + b - 1) as int == q * b + (b - 1)) by (nonlinear_arith)
            requires
                len == b * q + r,
                r == 0,
                b >= 1,
        ;
        assert((len + b - 1) / (b as int) == q) by {
            vstd::arithmetic::div_mod::lemma_fundamental_div_mod_converse(
                (len + b - 1) as int,
                b as int,
                q as int,
                (b - 1) as int,
            );
        }
    } else {
        assert((len + b - 1) as int == (q + 1) * b + (r - 1)) by (nonlinear_arith)
            requires
                len == b * q + r,
                b >= 1,
        ;
        assert((len + b - 1) / (b as int) == q + 1) by {
            vstd::arithmetic::div_mod::lemma_fundamental_div_mod_converse(
                (len + b - 1) as int,
                b as int,
                (q + 1) as int,
                (r - 1) as int,
            );
        }
    }
}

/// The batch size that `parallel_for_auto` picks: about four batches per
/// worker, and at least one index per batch.
pub open spec fn auto_batch_spec(len: nat, num_workers: nat) -> nat {
    let q = len / (num_workers * 4);
    if q < 1 {
        1
    } else {
        q
    }
}

/// Chooses the batch size of an automatically batched parallel loop over
/// `len` indices on `num_workers` workers.
pub fn auto_batch_size(len: usize, num_workers: usize) -> (b: usize)
    requires
        num_workers >= 1,
        num_workers * 4 <= usize::MAX,
    ensures
        b == auto_batch_spec(len as nat, num_workers as nat),
        b >= 1,
{
    let target_batches = num_workers * 4;
    let q = len / target_batches;
    if q < 1 {
        1
    } else {
        q
    }
}

/// Every index of a non-empty range lies in exactly one batch: the batches
/// cut the range into disjoint pieces that together cover it, so a parallel
/// loop runs its body once for each index.
pub proof fn lemma_batches_partition(start: nat, end: nat, batch_size: nat, x: nat)
    requires
        start <= x < end,
    ensures
        ({
            let b = effective_batch(batch_size);
            let n = batch_count((end - start) as nat, batch_size);
            let i = ((x - start) as nat) / b;
            &&& i < n
            &&& batch_bounds(start, end, b, i).0 <= x < batch_bounds(start, end, b, i).1
            &&& forall|j: nat|
                j < n && j != i ==> !(batch_bounds(start, end, b, j).0 <= x < #[trigger] batch_bounds(
                    start,
                    end,
                    b,
                    j,
                ).1)
        }),
{
    let b = effective_batch(batch_size);
    let len = (end - start) as nat;
    let n = batch_count(len, batch_size);
    let d = (x - start) as nat;
    let i = d / b;
    vstd::arithmetic::div_mod::lemma_fundamental_div_mod(d as int, b as int);
    lemma_ceil_div_rewrite(len, b);
    vstd::arithmetic::div_mod::lemma_fundamental_div_mod(len as int, b as int);
    assert(i < n) by {
        vstd::arithmetic::div_mod::lemma_div_is_ordered(d as int, len as int, b as int);
        if len % b == 0 {
            assert(i < len / b) by (nonlinear_arith)
                requires
                    d < len,
                    d == b * i + d % b,
                    len == b * (len / b) + len % b,
                    len % b == 0,
                    d % b >= 0,
                    b >= 1,
            ;
        }
    }
    assert(i * b <= d < i * b + b) by (nonlinear_arith)
        requires
            d == b * i + d % b,
            0 <= d % b < b,
    ;
    assert forall|j: nat| j < n && j != i implies !(batch_bounds(start, end, b, j).0 <= x
        < #[trigger] batch_bounds(start, end, b, j).1) by {
        if j < i {
            assert(j * b + b <= i * b) by (nonlinear_arith)
                requires
                    j < i,
                    b >= 1,
            ;
        } else {
            assert(i * b + b <= j * b) by (nonlinear_arith)
                requires
                    j > i,
                    b >= 1,
            ;
        }
    }
}

/// Every batch is non-empty and holds at most the batch size; all batches
/// but the last hold exactly the batch size.
pub proof fn lemma_batch_sizes(start: nat, end: nat, batch_size: nat, i: nat)
    requires
        start < end,
        i < batch_count((end - start) as nat, batch_size),
    ensures
        ({
            let b = effective_batch(batch_size);
            let (lo, hi) = batch_bounds(start, end, b, i);
            &&& lo < hi
            &&& hi - lo <= b
            &&& (i + 1 < batch_count((end - start) as nat, batch_size) ==> hi - lo == b)
        }),
{
    let b = effective_batch(batch_size);
    let len = (end - start) as nat;
    let n = batch_count(len, batch_size);
    lemma_ceil_div_rewrite(len, b);
    vstd::arithmetic::div_mod::lemma_fundamental_div_mod(len as int, b as int);
    let q = len / b;
    let r = len % b;
    assert(i * b < len) by (nonlinear_arith)
        requires
            i < n,
            n == q + (if r == 0 { 0nat } else { 1nat }),
            len == b * q + r,
            0 <= r < b,
            b >= 1,
    ;
    if i + 1 < n {
        assert(i * b + b <= len) by (nonlinear_arith)
            requires
                i + 1 < n,
                n == q + (if r == 0 { 0nat } else { 1nat }),
                len == b * q + r,
                0 <= r < b,
                b >= 1,
        ;
    }
}

} // verus!

verus! {

/// Automatic batching aims at four batches per worker: a range of at least
/// four indices per worker is cut into between four and eight batches per
/// worker, so that idle workers can steal; a shorter range gets one batch
/// per index.
pub proof fn lemma_auto_batches_per_worker(len: nat, num_workers: nat)
    requires
        num_workers >= 1,
    ensures
        ({
            let n = batch_count(len, auto_batch_spec(len, num_workers));
            &&& len >= 4 * num_workers ==> 4 * num_workers <= n <= 8 * num_workers
            &&& len < 4 * num_workers ==> n == len
        }),
{
    let t = num_workers * 4;
    let q = len / t;
    vstd::arithmetic::div_mod::lemma_fundamental_div_mod(len as int, t as int);
    if len < t {
        assert(q == 0) by {
            vstd::arithmetic::div_mod::lemma_basic_div(len as int, t as int);
        }
        lemma_ceil_div_rewrite(len, 1);
        assert(len / 1 == len);
        assert(len % 1 == 0);
    } else {
        assert(q >= 1) by {
            vstd::arithmetic::div_mod::lemma_div_is_ordered(t as int, len as int, t as int);
            vstd::arithmetic::div_mod::lemma_div_by_self(t as int);
        }
        let b = auto_batch_spec(len, num_workers);
        assert(b == q);
        lemma_ceil_div_rewrite(len, q);
        vstd::arithmetic::div_mod::lemma_fundamental_div_mod(len as int, q as int);
        let d = len / q;
        let m = len % q;
        let r = len % t;
        assert(t <= d && d < 2 * t) by (nonlinear_arith)
            requires
                len == t * q + r,
                0 <= r < t,
                len == q * d + m,
                0 <= m < q,
                q >= 1,
                t >= 4,
        ;
    }
}

} // verus!
