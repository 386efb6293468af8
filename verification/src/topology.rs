//! NUMA topology of the machine, as estimated from its number of CPUs.

use vstd::prelude::*;
use std::collections::HashMap;
use crate::worker::all_workers;

verus! {

#[verifier::external_type_specification]
#[verifier::external_body]
pub struct ExSystem(sysinfo::System);

/// Calls `sysinfo::System::new`: a system handle with nothing loaded yet.
/// Nothing is stated of it.
#[verifier::external_body]
fn new_system() -> (s: sysinfo::System) {
    sysinfo::System::new()
}

/// Calls `sysinfo::System::refresh_cpu_specifics` with every kind of CPU
/// information (`CpuRefreshKind::everything()`). Nothing is stated of the
/// result.
#[verifier::external_body]
fn refresh_cpus(system: &mut sysinfo::System) {
    system.refresh_cpu_specifics(sysinfo::CpuRefreshKind::everything())
}

/// Calls `sysinfo::System::cpus` and gives the number of CPUs it lists. That
/// number depends on the machine, so nothing is stated of it.
#[verifier::external_body]
fn cpu_count(system: &sysinfo::System) -> (n: usize) {
    system.cpus().len()
}

/// The number of NUMA nodes assumed for a machine with `num_cores` CPUs: one
/// up to 32 CPUs; above that one per 16 CPUs, at most four.
pub open spec fn estimated_nodes(num_cores: nat) -> nat {
    if num_cores > 32 {
        let q = num_cores / 16;
        if q < 1 {
            1
        } else if q > 4 {
            4
        } else {
            q
        }
    } else {
        1
    }
}

/// The node of CPU `i`: CPUs are dealt round-robin over the nodes.
pub open spec fn node_of(i: nat, nodes: nat) -> nat {
    if nodes == 1 {
        0
    } else {
        i % nodes
    }
}

/// The predicate "CPU belongs to node `k`".
pub open spec fn on_node(nodes: nat, k: nat) -> spec_fn(usize) -> bool {
    |i: usize| node_of(i as nat, nodes) == k
}

/// The CPUs of node `k`, in increasing order.
pub open spec fn cores_of_node(num_cores: nat, nodes: nat, k: nat) -> Seq<usize> {
    all_workers(num_cores).filter(on_node(nodes, k))
}

/// Estimated NUMA layout of the machine.
#[derive(Debug, Clone)]
pub struct Topology {
    /// The node of each CPU.
    pub core_to_node: HashMap<usize, usize>,
    /// The CPUs of each node that has any.
    pub node_cores: HashMap<usize, Vec<usize>>,
    /// The number of nodes.
    pub num_nodes: usize,
}

/// `t` is the layout estimated for `num_cores` CPUs.
pub open spec fn topology_matches(t: Topology, num_cores: nat) -> bool {
    let nodes = estimated_nodes(num_cores);
    &&& t.num_nodes == nodes
    &&& forall|i: usize| #[trigger] t.core_to_node@.contains_key(i) <==> i < num_cores
    &&& forall|i: usize| i < num_cores ==> #[trigger] t.core_to_node@[i] == node_of(i as nat, nodes)
    &&& forall|k: usize| #[trigger] t.node_cores@.contains_key(k) <==> (k < nodes && k < num_cores)
    &&& forall|k: usize| #[trigger] t.node_cores@.contains_key(k) ==> t.node_cores@[k]@ == cores_of_node(num_cores, nodes, k as nat)
}

impl Topology {
    /// Detects the topology of this machine. The estimate depends only on the
    /// number of CPUs, which is read from the system.
    pub fn detect() -> (t: Self)
        ensures
            exists|n: nat| n <= usize::MAX && topology_matches(t, n),
    {
        Self::detect_conservative()
    }

    /// Conservative detection: assumes a single NUMA node unless the machine
    /// has many CPUs.
    fn detect_conservative() -> (t: Self)
        ensures
            exists|n: nat| n <= usize::MAX && topology_matches(t, n),
    {
        let mut system = new_system();
        refresh_cpus(&mut system);
        let num_cores = cpu_count(&system);
        let t = Self::from_core_count(num_cores);
        assert(topology_matches(t, num_cores as nat));
        t
    }

    /// The topology estimated for a machine with `num_cores` CPUs.
    pub fn from_core_count(num_cores: usize) -> (t: Self)
        ensures
            topology_matches(t, num_cores as nat),
    {
        let nodes: usize = if num_cores > 32 {
            let q = num_cores / 16;
            if q < 1 {
                1
            } else if q > 4 {
                4
            } else {
                q
            }
        } else {
            1
        };
        let mut core_to_node: HashMap<usize, usize> = HashMap::new();
        let mut i: usize = 0;
        while i < num_cores
            invariant
                i <= num_cores,
                nodes == estimated_nodes(num_cores as nat),
                nodes >= 1,
                forall|c: usize| #[trigger] core_to_node@.contains_key(c) <==> c < i,
                forall|c: usize| c < i ==> #[trigger] core_to_node@[c] == node_of(c as nat, nodes as nat),
            decreases num_cores - i,
        {
            let node = if nodes == 1 { 0 } else { i % nodes };
            core_to_node.insert(i, node);
            i = i + 1;
        }
        let mut node_cores: HashMap<usize, Vec<usize>> = HashMap::new();
        let mut k: usize = 0;
        while k < nodes
            invariant
                k <= nodes,
                nodes == estimated_nodes(num_cores as nat),
                nodes >= 1,
                forall|c: usize| #[trigger] node_cores@.contains_key(c) <==> (c < k && c < num_cores),
                forall|c: usize| #[trigger] node_cores@.contains_key(c) ==> node_cores@[c]@ == cores_of_node(
                    num_cores as nat,
                    nodes as nat,
                    c as nat,
                ),
            decreases nodes - k,
        {
            let list = Self::cores_on_node(num_cores, nodes, k);
            if k < num_cores {
                node_cores.insert(k, list);
            }
            k = k + 1;
        }
        Topology { core_to_node, node_cores, num_nodes: nodes }
    }

    /// The CPUs among `num_cores` that lie on node `k` of `nodes`.
    fn cores_on_node(num_cores: usize, nodes: usize, k: usize) -> (r: Vec<usize>)
        requires
            nodes >= 1,
        ensures
            r@ == cores_of_node(num_cores as nat, nodes as nat, k as nat),
    {
        let ghost all = all_workers(num_cores as nat);
        let ghost p = on_node(nodes as nat, k as nat);
        let mut r: Vec<usize> = Vec::new();
        let mut i: usize = 0;
        while i < num_cores
            invariant
                i <= num_cores,
                nodes >= 1,
                all == all_workers(num_cores as nat),
                p == on_node(nodes as nat, k as nat),
                r@ == all.take(i as int).filter(p),
            decreases num_cores - i,
        {
            proof {
                crate::worker::lemma_filter_take_step(all, p, i as int);
            }
            let node = if nodes == 1 { 0 } else { i % nodes };
            if node == k {
                r.push(i);
            }
            i = i + 1;
        }
        proof {
            assert(all.take(num_cores as int) =~= all);
        }
        r
    }

    /// The CPUs on the same node as `worker_id`, or `None` when that CPU is
    /// unknown.
    pub fn get_siblings(&self, worker_id: usize) -> (r: Option<&Vec<usize>>)
        ensures
            r is Some <==> (self.core_to_node@.contains_key(worker_id) && self.node_cores@.contains_key(
                self.core_to_node@[worker_id],
            )),
            r matches Some(v) ==> *v == self.node_cores@[self.core_to_node@[worker_id]],
    {
        let node = match self.core_to_node.get(&worker_id) {
            Some(n) => n,
            None => return None,
        };
        self.node_cores.get(node)
    }
}

/// In an estimated topology every CPU lies on exactly one node, that node's
/// list holds it, and so the siblings of a known worker include the worker.
pub proof fn lemma_topology_partition(t: Topology, num_cores: nat, c: usize)
    requires
        topology_matches(t, num_cores),
        c < num_cores,
        num_cores <= usize::MAX,
    ensures
        t.core_to_node@.contains_key(c),
        t.node_cores@.contains_key(t.core_to_node@[c]),
        t.node_cores@[t.core_to_node@[c]]@.contains(c),
        forall|k: usize| #[trigger] t.node_cores@.contains_key(k) && t.node_cores@[k]@.contains(c) ==> k == t.core_to_node@[c],
        1 <= t.num_nodes <= 4,
        num_cores <= 32 ==> t.num_nodes == 1,
{
    broadcast use vstd::seq_lib::group_filter_ensures;

    let nodes = estimated_nodes(num_cores);
    let k0 = t.core_to_node@[c];
    let all = all_workers(num_cores);
    assert(k0 == node_of(c as nat, nodes));
    assert(k0 < nodes) by {
        if nodes != 1 {
            assert(node_of(c as nat, nodes) == (c as nat) % nodes);
        }
    }
    assert(k0 <= c) by {
        if nodes != 1 {
            vstd::arithmetic::div_mod::lemma_mod_bound(c as int, nodes as int);
            vstd::arithmetic::div_mod::lemma_mod_decreases(c as nat, nodes);
        }
    }
    assert(t.node_cores@.contains_key(k0 as usize));
    assert(all[c as int] == c);
    assert(on_node(nodes, k0 as nat)(all[c as int]));
    assert forall|k: usize| #[trigger] t.node_cores@.contains_key(k) && t.node_cores@[k]@.contains(c) implies k == k0 by {
        let s = cores_of_node(num_cores, nodes, k as nat);
        let j = choose|j: int| 0 <= j < s.len() && s[j] == c;
        assert(on_node(nodes, k as nat)(s[j]));
    }
}

/// The CPUs of a node are listed once each.
pub proof fn lemma_node_lists_distinct(t: Topology, num_cores: nat, k: usize)
    requires
        topology_matches(t, num_cores),
        num_cores <= usize::MAX,
        t.node_cores@.contains_key(k),
    ensures
        t.node_cores@[k]@.no_duplicates(),
{
    let all = all_workers(num_cores);
    assert(all.no_duplicates()) by {
        assert forall|i: int, j: int| 0 <= i < all.len() && 0 <= j < all.len() && i != j implies all[i] != all[j] by {
            assert(all[i] == i as usize);
            assert(all[j] == j as usize);
        }
    }
    crate::worker::lemma_filter_no_dup(all, on_node(estimated_nodes(num_cores), k as nat));
}

/// With the siblings the topology gives (or none), the steal order of
/// worker `id` among `n` workers lists every other worker exactly once and
/// never the worker itself.
pub proof fn lemma_topology_steal_order(t: Topology, num_cores: nat, id: usize, n: nat)
    requires
        topology_matches(t, num_cores),
        num_cores <= usize::MAX,
        n <= usize::MAX,
    ensures
        ({
            let sibs = if t.core_to_node@.contains_key(id) && t.node_cores@.contains_key(t.core_to_node@[id]) {
                t.node_cores@[t.core_to_node@[id]]@
            } else {
                Seq::<usize>::empty()
            };
            &&& crate::worker::steal_order_spec(sibs, id as nat, n).no_duplicates()
            &&& forall|j: usize| crate::worker::steal_order_spec(sibs, id as nat, n).contains(j) <==> (j < n && j != id)
        }),
{
    if t.core_to_node@.contains_key(id) && t.node_cores@.contains_key(t.core_to_node@[id]) {
        lemma_node_lists_distinct(t, num_cores, t.core_to_node@[id]);
        crate::worker::lemma_steal_order_complete(t.node_cores@[t.core_to_node@[id]]@, id as nat, n);
    } else {
        crate::worker::lemma_steal_order_complete(Seq::<usize>::empty(), id as nat, n);
    }
}

/// The estimated layout for `num_cores` CPUs: one node up to 32 CPUs, above
/// that one node per 16 CPUs but at most four; CPU `c` lies on node
/// `c % num_nodes`, and each node lists exactly its CPUs, in increasing
/// order.
pub proof fn lemma_topology_layout(t: Topology, num_cores: nat)
    requires
        topology_matches(t, num_cores),
        num_cores <= usize::MAX,
    ensures
        num_cores <= 32 ==> t.num_nodes == 1,
        num_cores > 32 ==> t.num_nodes == (if num_cores / 16 > 4 { 4 } else { num_cores / 16 }),
        t.num_nodes >= 1,
        forall|c: usize| c < num_cores ==> #[trigger] t.core_to_node@[c] == c % t.num_nodes,
        forall|k: usize, c: usize|
            #[trigger] t.node_cores@.contains_key(k) ==> (#[trigger] t.node_cores@[k]@.contains(c) <==> (c
                < num_cores && c % t.num_nodes == k)),
        forall|k: usize, a: int, b: int|
            #[trigger] t.node_cores@.contains_key(k) && 0 <= a < b < t.node_cores@[k]@.len() ==> #[trigger] t.node_cores@[k]@[a]
                < #[trigger] t.node_cores@[k]@[b],
{
    broadcast use vstd::seq_lib::group_filter_ensures;

    let nodes = estimated_nodes(num_cores);
    let all = all_workers(num_cores);
    assert forall|c: usize| c < num_cores implies #[trigger] t.core_to_node@[c] == c % t.num_nodes by {
        assert(t.core_to_node@[c] == node_of(c as nat, nodes));
    }
    assert forall|k: usize, c: usize| #[trigger] t.node_cores@.contains_key(k) implies (#[trigger] t.node_cores@[
        k
    ]@.contains(c) <==> (c < num_cores && c % t.num_nodes == k)) by {
        let s = cores_of_node(num_cores, nodes, k as nat);
        assert(t.node_cores@[k]@ == s);
        if s.contains(c) {
            let j = choose|j: int| 0 <= j < s.len() && s[j] == c;
            assert(on_node(nodes, k as nat)(s[j]));
            all.lemma_filter_contains_rev(on_node(nodes, k as nat), c);
            let m = choose|m: int| 0 <= m < all.len() && all[m] == c;
            assert(all[m] == m as usize);
        }
        if c < num_cores && c % t.num_nodes == k {
            assert(all[c as int] == c);
            assert(on_node(nodes, k as nat)(all[c as int]));
        }
    }
    assert forall|k: usize, a: int, b: int|
        #[trigger] t.node_cores@.contains_key(k) && 0 <= a < b < t.node_cores@[k]@.len() implies #[trigger] t.node_cores@[
        k
    ]@[a] < #[trigger] t.node_cores@[k]@[b] by {
        assert forall|x: int, y: int| 0 <= x < y < all.len() implies all[x] < all[y] by {
            assert(all[x] == x as usize && all[y] == y as usize);
        }
        crate::worker::lemma_filter_increasing(all, on_node(nodes, k as nat));
    }
}

} // verus!
