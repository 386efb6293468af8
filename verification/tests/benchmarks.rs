use rustfiber::bench::{
    producer_shares, hierarchy_level_starts, hierarchy_node_count, hierarchy_parents, mean_latency_ns,
    steal_deltas, StealDeltas,
};
use rustfiber::metrics::MetricsSnapshot;

#[test]
fn transform_hierarchy_sizes() {
    // 8 levels of a 4-ary tree: 1 + 4 + ... + 4^7.
    assert_eq!(hierarchy_node_count(8, 4), 21845);
    assert_eq!(hierarchy_level_starts(8, 4), vec![0, 1, 5, 21, 85, 341, 1365, 5461]);
    assert_eq!(hierarchy_node_count(0, 4), 0);
    assert_eq!(hierarchy_node_count(3, 1), 3);
}

#[test]
fn transform_hierarchy_parents() {
    let p = hierarchy_parents(3, 2);
    assert_eq!(p, vec![None, Some(0), Some(0), Some(1), Some(1), Some(2), Some(2)]);
    let big = hierarchy_parents(8, 4);
    assert_eq!(big.len(), 21845);
    assert_eq!(big[0], None);
    for c in 1..big.len() {
        assert_eq!(big[c], Some((c - 1) / 4));
    }
}

#[test]
fn transform_hierarchy_degenerate_trees() {
    assert_eq!(hierarchy_parents(4, 1), vec![None, Some(0), Some(1), Some(2)]);
    assert_eq!(hierarchy_parents(3, 0), vec![None]);
    assert!(hierarchy_parents(0, 4).is_empty());
}

fn snap(w: (u64, u64, u64), i: (u64, u64, u64)) -> MetricsSnapshot {
    MetricsSnapshot {
        jobs_completed: 0,
        local_queue_pushes: 0,
        local_queue_pops: 0,
        global_injector_pushes: 0,
        global_injector_pops: 0,
        worker_steals_success: w.0,
        worker_steals_failed: w.1,
        worker_steals_retry: w.2,
        injector_steals_success: i.0,
        injector_steals_failed: i.1,
        injector_steals_retry: i.2,
        elapsed_nanos: 0,
    }
}

#[test]
fn stress_steal_deltas() {
    let before = snap((10, 5, 1), (3, 3, 3));
    let after = snap((25, 4, 2), (3, 10, 4));
    assert_eq!(
        steal_deltas(Some(before), &after),
        StealDeltas {
            worker_steals_success: 15,
            worker_steals_failed: 0,
            worker_steals_retry: 1,
            injector_steals_success: 0,
            injector_steals_failed: 7,
            injector_steals_retry: 1,
            total: 24,
        }
    );
    let d = steal_deltas(None, &after);
    assert_eq!(d.total, 25 + 4 + 2 + 3 + 10 + 4);
}

#[test]
fn latency_average() {
    assert_eq!(mean_latency_ns(1000, 4), Some(250));
    assert_eq!(mean_latency_ns(1001, 4), Some(250));
    assert_eq!(mean_latency_ns(1000, 0), None);
}

#[test]
fn producer_shares_sum_to_items() {
    assert_eq!(producer_shares(10, 8), vec![2, 2, 2, 4]);
    assert_eq!(producer_shares(10, 1), vec![10]);
    assert_eq!(producer_shares(3, 8), vec![0, 0, 0, 3]);
    let s = producer_shares(500_000, 12);
    assert_eq!(s.len(), 6);
    assert_eq!(s.iter().sum::<usize>(), 500_000);
}
