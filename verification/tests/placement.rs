use rustfiber::topology::Topology;
use rustfiber::worker::{detect_placement, plan_placement, steal_order};
use rustfiber::PinningStrategy;

fn ids(n: usize) -> Vec<usize> {
    (0..n).collect()
}

#[test]
fn unpinned_workers_have_no_core() {
    let p = plan_placement(&ids(8), 3, PinningStrategy::Unpinned).unwrap();
    assert_eq!(p.cores, vec![None, None, None]);
    assert_eq!(p.tiers, vec![1, 1, 1]);
    assert_eq!(p.thresholds, vec![0, 0, 0]);
}

#[test]
fn linear_pinning_wraps_around() {
    let p = plan_placement(&ids(4), 6, PinningStrategy::Linear).unwrap();
    assert_eq!(p.cores, vec![Some(0), Some(1), Some(2), Some(3), Some(0), Some(1)]);
    let none = plan_placement(&Vec::new(), 2, PinningStrategy::Linear).unwrap();
    assert_eq!(none.cores, vec![None, None]);
}

#[test]
fn avoid_smt_uses_even_processors() {
    let p = plan_placement(&ids(8), 5, PinningStrategy::AvoidSMT).unwrap();
    assert_eq!(p.cores, vec![Some(0), Some(2), Some(4), Some(6), Some(0)]);
}

#[test]
fn ccd_isolation_uses_first_eight_physical_cores() {
    let p = plan_placement(&ids(32), 10, PinningStrategy::CCDIsolation).unwrap();
    let expected: Vec<Option<usize>> =
        vec![0, 2, 4, 6, 8, 10, 12, 14, 0, 2].into_iter().map(Some).collect();
    assert_eq!(p.cores, expected);
}

#[test]
fn tiered_spillover_tiers() {
    let p = plan_placement(&ids(32), 20, PinningStrategy::TieredSpillover).unwrap();
    assert_eq!(p.cores[0], Some(0));
    assert_eq!(p.cores[7], Some(14));
    assert_eq!(p.cores[8], Some(16));
    assert_eq!(p.cores[15], Some(30));
    assert_eq!(p.cores[16], Some(1));
    assert_eq!(p.cores[19], Some(7));
    assert_eq!(&p.tiers[..], &[1, 1, 1, 1, 1, 1, 1, 1, 2, 2, 2, 2, 2, 2, 2, 2, 3, 3, 3, 3][..]);
    assert_eq!(p.thresholds[0], 0);
    assert_eq!(p.thresholds[8], 7);
    assert_eq!(p.thresholds[16], 15);
}

#[test]
fn tiered_spillover_small_machine_wraps_over_smt() {
    // 4 processors: physical 0, 2 on the first CCD; SMT 1, 3.
    let p = plan_placement(&ids(4), 5, PinningStrategy::TieredSpillover).unwrap();
    assert_eq!(p.cores, vec![Some(0), Some(2), Some(1), Some(3), Some(1)]);
    assert_eq!(p.tiers, vec![1, 1, 3, 3, 3]);
}

#[test]
fn tiered_spillover_without_smt_processors_is_refused() {
    // One processor: one physical core and no SMT sibling for the second worker.
    assert!(plan_placement(&ids(1), 2, PinningStrategy::TieredSpillover).is_none());
    assert!(plan_placement(&ids(1), 1, PinningStrategy::TieredSpillover).is_some());
    assert!(plan_placement(&ids(1), 2, PinningStrategy::Linear).is_some());
}

#[test]
fn detected_placement_has_one_entry_per_worker() {
    let p = detect_placement(3, PinningStrategy::Linear).unwrap();
    assert_eq!(p.cores.len(), 3);
    assert_eq!(p.tiers.len(), 3);
    let q = detect_placement(2, PinningStrategy::Unpinned).unwrap();
    assert_eq!(q.cores, vec![None, None]);
}

#[test]
fn steal_order_siblings_first_then_rotated() {
    let sibs = vec![0, 2, 4];
    // Before rotation: siblings 2, 4, then 1, 3, 5; rotated by 0 % 5 = 0.
    assert_eq!(steal_order(0, 6, Some(&sibs)), vec![2, 4, 1, 3, 5]);
    // Worker 2: siblings 0, 4, then 1, 3, 5; rotated left by 2.
    assert_eq!(steal_order(2, 6, Some(&sibs)), vec![1, 3, 5, 0, 4]);
}

#[test]
fn steal_order_without_siblings() {
    assert_eq!(steal_order(1, 4, None), vec![2, 3, 0]);
    assert_eq!(steal_order(0, 1, None), Vec::<usize>::new());
}

#[test]
fn steal_order_ignores_unknown_siblings() {
    let sibs = vec![9, 1, 3];
    // Sibling 1 only; then 0 and 2; rotated by 3 % 3 = 0.
    assert_eq!(steal_order(3, 4, Some(&sibs)), vec![1, 0, 2]);
}

#[test]
fn topology_single_node_for_small_machines() {
    let t = Topology::from_core_count(8);
    assert_eq!(t.num_nodes, 1);
    assert_eq!(t.core_to_node.len(), 8);
    assert_eq!(t.node_cores.get(&0), Some(&ids(8)));
    assert_eq!(t.get_siblings(3), Some(&ids(8)));
    assert_eq!(t.get_siblings(8), None);
}

#[test]
fn topology_round_robin_for_large_machines() {
    let t = Topology::from_core_count(64);
    assert_eq!(t.num_nodes, 4);
    assert_eq!(t.core_to_node[&5], 1);
    let node1: Vec<usize> = (0..64).filter(|i| i % 4 == 1).collect();
    assert_eq!(t.get_siblings(5), Some(&node1));
    let t2 = Topology::from_core_count(40);
    assert_eq!(t2.num_nodes, 2);
    let t3 = Topology::from_core_count(256);
    assert_eq!(t3.num_nodes, 4);
}

#[test]
fn topology_without_cores() {
    let t = Topology::from_core_count(0);
    assert_eq!(t.num_nodes, 1);
    assert!(t.core_to_node.is_empty());
    assert!(t.node_cores.is_empty());
    assert_eq!(t.get_siblings(0), None);
}

#[test]
fn detected_topology_is_consistent() {
    let t = Topology::detect();
    assert!(t.num_nodes >= 1 && t.num_nodes <= 4);
    for (core, node) in t.core_to_node.iter() {
        assert!(t.node_cores[node].contains(core));
    }
}
