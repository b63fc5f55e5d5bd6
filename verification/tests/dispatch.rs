//! Dispatching over bitmaps, hashes and backlogs.

use micro_hermes::dispatcher::{
    backlog_of, dispatch, dispatch_hermes, dispatch_lifo, find_nth_set_bit, pick_worker,
    reciprocal_scale, reuseport_hash, Backlog,
};
use micro_hermes::kernel;
use micro_hermes::policy::Policy;
use micro_hermes::shm::{ConnDesc, SharedState};
use micro_hermes::wst::NUM_WORKERS;
use std::collections::HashSet;

fn test_state() -> SharedState {
    SharedState::new()
}

#[test]
fn test_reciprocal_scale_stays_in_range() {
    for hash in [0u64, 1, 0xffff_ffff, 0x1234_5678_9abc_def0, u64::MAX] {
        let scaled = reciprocal_scale(hash, NUM_WORKERS as u32);
        assert!((scaled as usize) < NUM_WORKERS);
    }
}

#[test]
fn test_find_nth_set_bit() {
    // bitmap 0b1101 -> set bits at positions 0, 2, 3
    assert_eq!(find_nth_set_bit(0b1101, 0), 0);
    assert_eq!(find_nth_set_bit(0b1101, 1), 2);
    assert_eq!(find_nth_set_bit(0b1101, 2), 3);
}

#[test]
fn test_hermes_dispatch_stays_within_candidates() {
    // Workers 0 and 2 available (bitmap = 0101)
    let bitmap: u64 = 0b0101;
    let workers: HashSet<usize> = (0..1000)
        .map(|h| dispatch_hermes(bitmap, (h as u64).wrapping_mul(0x9e3779b97f4a7c15)))
        .collect();
    assert!(workers.contains(&0));
    assert!(workers.contains(&2));
    assert!(!workers.contains(&1));
    assert!(!workers.contains(&3));
}

#[test]
fn test_hermes_single_candidate_falls_back_to_hash() {
    // With one candidate every connection between two scheduler updates would hit one worker
    let bitmap: u64 = 0b0100;
    let workers: HashSet<usize> = (0..1000)
        .map(|h| dispatch_hermes(bitmap, (h as u64).wrapping_mul(0x9e3779b97f4a7c15)))
        .collect();
    assert!(workers.len() > 1, "single-candidate bitmap must fall back to full hash");
}

#[test]
fn test_empty_bitmap_falls_back_to_hash() {
    let worker = dispatch_hermes(0, 42);
    assert!(worker < NUM_WORKERS);
}

#[test]
fn test_lifo_prefers_last_registered_idle_worker() {
    let mut state = test_state();
    // All idle: the last-registered worker is the head of the wait queue
    assert_eq!(dispatch_lifo(&backlog_of(&state)), NUM_WORKERS - 1);
    // Head worker busy: the traversal continues to the next registration
    state.wst.slots[NUM_WORKERS - 1].pending_events = 3;
    assert_eq!(dispatch_lifo(&backlog_of(&state)), NUM_WORKERS - 2);
}

#[test]
fn test_lifo_all_busy_picks_shortest_backlog() {
    let mut state = test_state();
    let desc = ConnDesc { conn_id: 0, hash: 0, arrival_ns: 0, service_us: 0, lifetime_ms: 0 };
    // Every worker has a non-empty queue
    for i in 0..NUM_WORKERS {
        for _ in 0..(i + 2) {
            state.queues[i].push(desc);
        }
    }
    // Worker 0 has the shortest backlog (2 entries)
    assert_eq!(dispatch_lifo(&backlog_of(&state)), 0);
}

#[test]
fn lifo_ties_go_to_the_highest_worker() {
    let backlog = Backlog { queue_lens: [2, 1, 1, 5], pending_events: [0, 0, 0, 0] };
    assert_eq!(dispatch_lifo(&backlog), 2);
    let busy = Backlog { queue_lens: [0, 0, 0, 0], pending_events: [1, 1, 1, 1] };
    assert_eq!(dispatch_lifo(&busy), 3);
}

#[test]
fn scaling_is_one_multiplication_and_one_shift() {
    assert_eq!(reciprocal_scale(0, 3), 0);
    assert_eq!(reciprocal_scale(0x5555_5555, 3), 0);
    assert_eq!(reciprocal_scale(0x5555_5556, 3), 1);
    assert_eq!(reciprocal_scale(0xaaaa_aaab, 3), 2);
    assert_eq!(reciprocal_scale(0xffff_ffff, 3), 2);
    // Only the low half counts
    assert_eq!(reciprocal_scale(0xdead_beef_4000_0000, 4), 1);
    assert_eq!(reciprocal_scale(u64::MAX, 0), 0);
}

#[test]
fn missing_bit_falls_back_to_the_last_worker() {
    assert_eq!(find_nth_set_bit(0b0001, 1), 3);
    assert_eq!(find_nth_set_bit(0, 0), 3);
    // Bits that stand for no worker are counted but never picked
    assert_eq!(dispatch_hermes(0b1111_0000, 0), 3);
    assert_eq!(dispatch_hermes(0b1111_0000, 0xffff_ffff), 3);
}

#[test]
fn two_candidates_split_the_hashes_in_half() {
    assert_eq!(dispatch_hermes(0b1010, 0), 1);
    assert_eq!(dispatch_hermes(0b1010, 0x7fff_ffff), 1);
    assert_eq!(dispatch_hermes(0b1010, 0x8000_0000), 3);
    assert_eq!(dispatch_hermes(0b1010, 0xffff_ffff), 3);
}

#[test]
fn policies_pick_by_their_own_rule() {
    let mut state = test_state();
    state.msel.store(0b0011);
    let hash = 0xffff_ffffu64;
    assert_eq!(dispatch(&state, Policy::Hermes, hash), 1);
    assert_eq!(dispatch(&state, Policy::ReuseportHash, hash), 3);
    assert_eq!(dispatch(&state, Policy::Lifo, hash), 3);
    state.wst.slots[3].pending_events = 1;
    assert_eq!(dispatch(&state, Policy::Lifo, hash), 2);
    let backlog = backlog_of(&state);
    assert_eq!(pick_worker(Policy::Hermes, 0b0011, &backlog, hash), 1);
    assert_eq!(reuseport_hash(0x4000_0000), 1);
}

#[test]
fn kernel_selects_as_the_dispatcher_picks() {
    for bitmap in 0u64..16 {
        for step in 0u64..64 {
            let hash = step * 0x0410_4104;
            let selected = kernel::try_select(kernel::IPPROTO_TCP, Some(bitmap), hash as u32);
            if bitmap.count_ones() <= 1 {
                assert_eq!(selected, None);
            } else {
                assert_eq!(selected.unwrap() as usize, dispatch_hermes(bitmap, hash));
            }
        }
    }
}

#[test]
fn kernel_leaves_other_traffic_alone() {
    assert_eq!(kernel::try_select(17, Some(0b1111), 7), None);
    assert_eq!(kernel::try_select(kernel::IPPROTO_TCP, None, 7), None);
    assert_eq!(kernel::find_nth_set_bit(0b0001, 1), None);
    assert_eq!(kernel::find_nth_set_bit(0b1000, 0), Some(3));
    assert_eq!(kernel::reciprocal_scale(0x8000_0000, 2), 1);
}
