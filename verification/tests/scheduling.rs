//! Scheduling passes over worker snapshots.

use micro_hermes::policy::Policy;
use micro_hermes::policy_pass;
use micro_hermes::policy_pass::{
    bitmap_to_candidates, schedule_hermes, schedule_lifo, schedule_reuseport_hash, Offset, THETA,
};
use micro_hermes::scheduler::{
    filter_below_baseline, schedule, schedule_from_snapshots, HANG_THRESHOLD_NS,
};
use micro_hermes::wst::{timespec_ns, WorkerSlot, WorkerSnapshot, Wst, NUM_WORKERS};
use std::time::{SystemTime, UNIX_EPOCH};

fn now_monotonic_ns() -> i64 {
    let since = SystemTime::now().duration_since(UNIX_EPOCH).unwrap();
    timespec_ns(since.as_secs() as i64, since.subsec_nanos() as i64)
}

fn make_snapshots(entries: [(i64, i64, i64); NUM_WORKERS]) -> [WorkerSnapshot; NUM_WORKERS] {
    std::array::from_fn(|i| WorkerSnapshot {
        last_loop_entry: entries[i].0,
        pending_events: entries[i].1,
        accumulated_conns: entries[i].2,
    })
}

fn theta() -> Offset {
    Offset::whole(THETA)
}

#[test]
fn test_all_idle_all_survive() {
    let now = now_monotonic_ns();
    let snaps = make_snapshots([(now, 0, 0), (now, 0, 0), (now, 0, 0), (now, 0, 0)]);
    let res = schedule_hermes(&snaps, now, HANG_THRESHOLD_NS, theta());
    assert_eq!(res.after_stage1, 4);
    assert_eq!(res.after_stage3, 4, "all idle workers should survive");
}

#[test]
fn test_hung_worker_filtered_stage1() {
    let now = now_monotonic_ns();
    let old = now - HANG_THRESHOLD_NS - 1;
    let snaps = make_snapshots([
        (old, 0, 0), // worker 0 is hung
        (now, 0, 0),
        (now, 0, 0),
        (now, 0, 0),
    ]);
    let res = schedule_hermes(&snaps, now, HANG_THRESHOLD_NS, theta());
    assert_eq!(res.after_stage1, 3, "hung worker must be dropped at stage 1");
    assert!(res.bitmap & 1 == 0, "worker 0 bit must be clear");
}

#[test]
fn test_cold_start_zero_timestamp_treated_as_alive() {
    let now = now_monotonic_ns();
    // Worker 0 has not started yet
    let snaps = make_snapshots([(0, 0, 0), (now, 0, 0), (now, 0, 0), (now, 0, 0)]);
    let res = schedule_hermes(&snaps, now, HANG_THRESHOLD_NS, theta());
    assert_eq!(res.after_stage1, 4, "cold-start worker must not be marked hung");
}

#[test]
fn test_high_conn_worker_filtered_stage2() {
    let now = now_monotonic_ns();
    // Worker 3 has 100 connections, the others one; the baseline is 27.75
    let snaps = make_snapshots([(now, 0, 1), (now, 0, 1), (now, 0, 1), (now, 0, 100)]);
    let res = schedule_hermes(&snaps, now, HANG_THRESHOLD_NS, theta());
    assert!(res.bitmap & (1 << 3) == 0, "overloaded worker 3 must be filtered");
}

#[test]
fn test_high_events_worker_filtered_stage3() {
    let now = now_monotonic_ns();
    // Worker 2 has 50 pending events, the others none
    let snaps = make_snapshots([(now, 0, 0), (now, 0, 0), (now, 50, 0), (now, 0, 0)]);
    let res = schedule_hermes(&snaps, now, HANG_THRESHOLD_NS, theta());
    assert!(res.bitmap & (1 << 2) == 0, "busy worker 2 must be filtered at stage 3");
}

#[test]
fn test_filter_below_baseline_additive_offset() {
    // All values equal, the baseline is the average plus 2
    let candidates: Vec<usize> = (0..4).collect();
    let result = policy_pass::filter_below_baseline(&candidates, Offset::whole(2), &[0, 0, 0, 0]);
    assert_eq!(result.len(), 4, "all zero-load workers should pass with additive θ");
}

#[test]
fn test_bitmap_to_candidates_roundtrip() {
    let bitmap: u64 = 0b1010;
    let candidates = bitmap_to_candidates(bitmap);
    assert_eq!(candidates, vec![1, 3]);
}

#[test]
fn scheduler_test_all_idle_all_survive() {
    let now = now_monotonic_ns();
    let snaps = make_snapshots([(now, 0, 0), (now, 0, 0), (now, 0, 0), (now, 0, 0)]);
    let res = schedule_from_snapshots(&snaps, now, HANG_THRESHOLD_NS);
    assert_eq!(res.after_stage1, 4);
    assert_eq!(res.after_stage3, 4, "all idle workers should survive");
    assert_eq!(res.bitmap, 0b1111);
}

#[test]
fn scheduler_test_hung_worker_filtered_stage1() {
    let now = now_monotonic_ns();
    let old = now - HANG_THRESHOLD_NS - 1;
    let snaps = make_snapshots([(old, 0, 0), (now, 0, 0), (now, 0, 0), (now, 0, 0)]);
    let res = schedule_from_snapshots(&snaps, now, HANG_THRESHOLD_NS);
    assert_eq!(res.after_stage1, 3, "hung worker must be dropped at stage 1");
    assert!(res.bitmap & 1 == 0, "worker 0 bit must be clear");
}

#[test]
fn scheduler_test_cold_start_zero_timestamp_treated_as_alive() {
    let now = now_monotonic_ns();
    let snaps = make_snapshots([(0, 0, 0), (now, 0, 0), (now, 0, 0), (now, 0, 0)]);
    let res = schedule_from_snapshots(&snaps, now, HANG_THRESHOLD_NS);
    assert_eq!(res.after_stage1, 4, "cold-start worker must not be marked hung");
}

#[test]
fn scheduler_test_high_conn_worker_filtered_stage2() {
    let now = now_monotonic_ns();
    // worker 3 has 100 conns, avg = 25.75, θ = 12.875, baseline ~ 38.6
    let snaps = make_snapshots([(now, 0, 1), (now, 0, 1), (now, 0, 1), (now, 0, 100)]);
    let res = schedule_from_snapshots(&snaps, now, HANG_THRESHOLD_NS);
    assert!(res.bitmap & (1 << 3) == 0, "overloaded worker 3 must be filtered");
    assert_eq!(res.after_stage2, 3);
}

#[test]
fn scheduler_test_high_events_worker_filtered_stage3() {
    let now = now_monotonic_ns();
    let snaps = make_snapshots([(now, 0, 0), (now, 0, 0), (now, 50, 0), (now, 0, 0)]);
    let res = schedule_from_snapshots(&snaps, now, HANG_THRESHOLD_NS);
    assert!(res.bitmap & (1 << 2) == 0, "busy worker 2 must be filtered at stage 3");
}

#[test]
fn test_theta_floor_keeps_equal_zero_loads() {
    // all metrics zero, the margin has a floor so everyone passes
    let candidates: Vec<usize> = (0..4).collect();
    let result = filter_below_baseline(&candidates, &[0, 0, 0, 0]);
    assert_eq!(result.len(), 4, "zero-load workers must all pass");
}

#[test]
fn test_theta_scales_with_average() {
    // loads [10, 10, 10, 14] give avg = 11, θ = 5.5, baseline = 16.5,
    // so all pass despite worker 3 being above average
    let loads = [10i64, 10, 10, 14];
    let candidates: Vec<usize> = (0..4).collect();
    let result = filter_below_baseline(&candidates, &loads);
    assert_eq!(result.len(), 4, "mildly above-average worker must survive θ margin");
}

/// The relative margin in floating point.
fn passes_in_floats(load: i64, loads: &[i64]) -> bool {
    let avg = loads.iter().sum::<i64>() as f64 / loads.len() as f64;
    (load as f64) < avg + (0.5 * avg).max(1.0)
}

#[test]
fn exact_filter_agrees_with_floating_point() {
    let values = [0i64, 1, 2, 3, 4, 5, 6, 7, 11, 16, 23, 50, 100, 1000, 99_999];
    let mut kept = 0;
    for &a in &values {
        for &b in &values {
            for &c in &values {
                let loads = [a, b, c];
                let exact = filter_below_baseline(&vec![0, 1, 2], &loads);
                let floats: Vec<usize> =
                    (0..3).filter(|&i| passes_in_floats(loads[i], &loads)).collect();
                assert_eq!(exact, floats, "loads {loads:?}");
                kept += exact.len();
            }
        }
    }
    assert!(kept > 0);
}

#[test]
fn filter_boundary_is_strict() {
    // avg 2, margin 1: 3 is not below the baseline
    assert_eq!(filter_below_baseline(&vec![0, 1], &[1, 3]), vec![0]);
    // avg 4, margin 2: 6 is not below the baseline
    assert_eq!(filter_below_baseline(&vec![0, 1], &[2, 6]), vec![0]);
    assert_eq!(filter_below_baseline(&vec![0, 1], &[3, 5]), vec![0, 1]);
    // negative counts do not upset the floor
    assert_eq!(filter_below_baseline(&vec![0, 1], &[-3, 1]), vec![0]);
    assert_eq!(filter_below_baseline(&Vec::new(), &[1, 2]), Vec::<usize>::new());
    assert_eq!(
        policy_pass::filter_below_baseline(&vec![0, 1], Offset { num: 1, den: 2 }, &[0, 1]),
        vec![0]
    );
    assert_eq!(
        policy_pass::filter_below_baseline(&vec![0, 1], Offset { num: 3, den: 4 }, &[0, 1]),
        vec![0, 1]
    );
}

#[test]
fn hang_threshold_is_exclusive() {
    let at = |age: i64| {
        let now = 1_000_000_000_000;
        let snaps = make_snapshots([(now - age, 0, 0), (now, 0, 0), (now, 0, 0), (now, 0, 0)]);
        schedule_from_snapshots(&snaps, now, HANG_THRESHOLD_NS).bitmap
    };
    assert_eq!(at(HANG_THRESHOLD_NS - 1), 0b1111);
    assert_eq!(at(HANG_THRESHOLD_NS), 0b1110);
    assert_eq!(at(-5), 0b1111);
}

#[test]
fn stages_cascade_over_what_is_left() {
    let now = 5_000_000_000;
    // Worker 0 hangs with many connections and does not count for the average of the others
    let snaps = make_snapshots([(1, 0, 1000), (now, 0, 10), (now, 9, 10), (now, 0, 40)]);
    let res = schedule_from_snapshots(&snaps, now, HANG_THRESHOLD_NS);
    assert_eq!(res.after_stage1, 3);
    assert_eq!(res.after_stage2, 2);
    assert_eq!(res.after_stage3, 1);
    assert_eq!(res.bitmap, 0b0010);
    assert_eq!(res.bitmap.count_ones() as usize, res.after_stage3);
}

#[test]
fn all_hung_leaves_nobody() {
    let now = 5_000_000_000;
    let snaps = make_snapshots([(1, 0, 0), (1, 0, 0), (1, 0, 0), (1, 0, 0)]);
    let res = schedule_from_snapshots(&snaps, now, HANG_THRESHOLD_NS);
    assert_eq!(res.bitmap, 0);
    assert_eq!(res.after_stage1, 0);
}

#[test]
fn pass_over_the_table_reads_its_slots() {
    let mut wst = Wst::new();
    assert_eq!(schedule(&wst, 77, HANG_THRESHOLD_NS).bitmap, 0b1111);
    wst.slots[2] = WorkerSlot { last_loop_entry: 1, pending_events: 0, accumulated_conns: 0 };
    let now = 1 + HANG_THRESHOLD_NS;
    assert_eq!(schedule(&wst, now, HANG_THRESHOLD_NS).bitmap, 0b1011);
    assert_eq!(wst.snapshot_all()[2].last_loop_entry, 1);
    assert_eq!(wst.slot(2).snapshot().last_loop_entry, 1);
}

#[test]
fn baselines_publish_sets_of_their_own() {
    let now = 5_000_000_000;
    let snaps = make_snapshots([(now, 9, 9), (now, 0, 0), (0, 0, 0), (0, 0, 0)]);
    let lifo = schedule_lifo(&snaps);
    assert_eq!((lifo.bitmap, lifo.after_stage1, lifo.after_stage3), (0b0010, 1, 1));
    let none = schedule_lifo(&make_snapshots([(0, 0, 0); NUM_WORKERS]));
    assert_eq!(none.bitmap, 0b1000);
    let all = schedule_reuseport_hash(&snaps);
    assert_eq!((all.bitmap, all.after_stage1, all.after_stage3), (0b1111, 4, 4));
    assert_eq!(all.snapshots, snaps);
}

#[test]
fn policy_selects_the_pass() {
    let mut wst = Wst::new();
    wst.slots[1].last_loop_entry = 4_000_000_000;
    wst.slots[3].accumulated_conns = 100;
    let pass = |p: Policy| {
        policy_pass::schedule(&wst, 4_100_000_000, HANG_THRESHOLD_NS, theta(), p).bitmap
    };
    assert_eq!(pass(Policy::Hermes), 0b0111);
    assert_eq!(pass(Policy::Lifo), 0b0010);
    assert_eq!(pass(Policy::ReuseportHash), 0b1111);
}

#[test]
fn bitmaps_and_candidate_lists_round_trip() {
    for bitmap in 0u64..16 {
        let candidates = bitmap_to_candidates(bitmap);
        let back = candidates.iter().fold(0u64, |b, &i| b | (1 << i));
        assert_eq!(back, bitmap);
    }
    assert_eq!(bitmap_to_candidates(0xff00), Vec::<usize>::new());
}
