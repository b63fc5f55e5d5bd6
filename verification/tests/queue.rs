//! The accept queues and the shared state.

use micro_hermes::shm::{depth, pop_at, push_at, ConnDesc, ConnQueue, SharedState, QUEUE_CAP};

fn test_state() -> SharedState {
    SharedState::new()
}

#[test]
fn test_queue_push_pop_roundtrip() {
    let mut state = test_state();
    let q = &mut state.queues[0];
    assert!(q.is_empty());
    let desc = ConnDesc { conn_id: 7, hash: 42, arrival_ns: 1, service_us: 100, lifetime_ms: 5 };
    assert!(q.push(desc));
    assert_eq!(q.len(), 1);
    let popped = q.pop().expect("queue should have one entry");
    assert_eq!(popped.conn_id, 7);
    assert_eq!(popped.hash, 42);
    assert!(q.pop().is_none());
}

#[test]
fn test_queue_full_rejects() {
    let mut state = test_state();
    let q = &mut state.queues[1];
    let desc = ConnDesc { conn_id: 0, hash: 0, arrival_ns: 0, service_us: 0, lifetime_ms: 0 };
    for _ in 0..QUEUE_CAP {
        assert!(q.push(desc));
    }
    assert!(!q.push(desc), "push into a full queue must fail (dropped conn)");
    assert_eq!(q.len(), QUEUE_CAP);
}

#[test]
fn test_queue_wraps_indices() {
    let mut state = test_state();
    let q = &mut state.queues[2];
    let desc = ConnDesc { conn_id: 1, hash: 0, arrival_ns: 0, service_us: 0, lifetime_ms: 0 };
    // Cycle more entries than the capacity to exercise index wrapping.
    for i in 0..(QUEUE_CAP * 3) {
        assert!(q.push(ConnDesc { conn_id: i as u64, ..desc }));
        assert_eq!(q.pop().unwrap().conn_id, i as u64);
    }
    assert!(q.is_empty());
}

#[test]
fn shm_test_queue_push_pop_roundtrip() {
    let mut q = ConnQueue::new();
    assert!(q.is_empty());
    let desc = ConnDesc { conn_id: 7, hash: 42, arrival_ns: 1, service_us: 100, lifetime_ms: 5 };
    assert!(q.push(desc));
    assert_eq!(q.len(), 1);
    let popped = q.pop().expect("queue should have one entry");
    assert_eq!(popped.conn_id, 7);
    assert_eq!(popped.hash, 42);
    assert!(q.pop().is_none());
}

#[test]
fn shm_test_queue_full_rejects() {
    let mut q = ConnQueue::new();
    let desc = ConnDesc { conn_id: 0, hash: 0, arrival_ns: 0, service_us: 0, lifetime_ms: 0 };
    for _ in 0..QUEUE_CAP {
        assert!(q.push(desc));
    }
    assert!(!q.push(desc), "push into a full queue must fail (dropped conn)");
    assert_eq!(q.len(), QUEUE_CAP);
}

#[test]
fn shm_test_queue_wraps_indices() {
    let mut q = ConnQueue::new();
    let desc = ConnDesc { conn_id: 1, hash: 0, arrival_ns: 0, service_us: 0, lifetime_ms: 0 };
    for i in 0..(QUEUE_CAP * 3) {
        assert!(q.push(ConnDesc { conn_id: i as u64, ..desc }));
        assert_eq!(q.pop().unwrap().conn_id, i as u64);
    }
    assert!(q.is_empty());
}

#[test]
fn queue_is_first_in_first_out() {
    let mut q = ConnQueue::new();
    let desc = ConnDesc { conn_id: 0, hash: 0, arrival_ns: 0, service_us: 0, lifetime_ms: 0 };
    let mut expected = std::collections::VecDeque::new();
    for i in 0..2000u64 {
        if i % 3 != 2 {
            let accepted = q.push(ConnDesc { conn_id: i, ..desc });
            assert_eq!(accepted, expected.len() < QUEUE_CAP);
            if accepted {
                expected.push_back(i);
            }
        } else {
            assert_eq!(q.pop().map(|d| d.conn_id), expected.pop_front());
        }
        assert_eq!(q.len(), expected.len());
    }
}

#[test]
fn indices_wrap_around_their_range() {
    assert_eq!(depth(3, u32::MAX), 4);
    assert_eq!(push_at(u32::MAX, u32::MAX), Some((511, 0)));
    assert_eq!(pop_at(u32::MAX, 0), Some((511, 0)));
    assert_eq!(push_at(100, 100u32.wrapping_sub(512)), None);
    assert_eq!(push_at(100, 100u32.wrapping_sub(511)), Some((100, 101)));
    assert_eq!(pop_at(9, 9), None);
}

#[test]
fn shutdown_is_requested_once_and_for_all() {
    let mut state = test_state();
    assert!(!state.shutdown_requested());
    state.request_shutdown();
    assert!(state.shutdown_requested());
    state.shutdown = 2;
    assert!(!state.shutdown_requested());
    state.msel.store(9);
    assert_eq!(state.msel.load(), 9);
}
