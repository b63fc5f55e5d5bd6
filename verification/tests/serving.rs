//! Workers that serve sockets, and their setup.

use micro_hermes::lb_worker::{
    read_outcome, wait_outcome, HangSpec, LbAction, LbEvent, LbWorker, ReadEnd, ReadOutcome, Ready,
    WriteProgress, WriteStep, MAX_EVENTS, WRITE_SPINS,
};
use micro_hermes::loader::{
    fds_to_close, hang_for, parse_hang_inject, setup, socket_plan, HangError,
};
use micro_hermes::policy::Policy;
use micro_hermes::wire::{decode_response, encode_request, REQUEST_HEADER_LEN};
use micro_hermes::wst::{WorkerSnapshot, NUM_WORKERS};

const LISTEN: i32 = 3;

fn clock(now_ns: i64) -> LbEvent {
    LbEvent::Clock { now_ns, elapsed: now_ns as u128 }
}

fn quiet() -> [WorkerSnapshot; NUM_WORKERS] {
    [WorkerSnapshot { last_loop_entry: 0, pending_events: 0, accumulated_conns: 0 }; NUM_WORKERS]
}

fn request(seq: u32, service_us: u32, send_ns: i64) -> Vec<u8> {
    let mut buf = [0u8; REQUEST_HEADER_LEN];
    encode_request(seq, service_us, send_ns, &mut buf);
    buf.to_vec()
}

fn ready(fd: i32) -> Ready {
    Ready { fd, hangup: false }
}

/// A worker that waits for events.
fn waiting(policy: Policy) -> LbWorker {
    let mut w = LbWorker::new(2, LISTEN, policy, None);
    enter(&mut w, 50);
    w
}

fn enter(w: &mut LbWorker, now_ns: i64) {
    assert!(matches!(w.wants(), LbAction::ReadFlag));
    assert!(matches!(w.step(LbEvent::Flag { shutdown: false }), LbAction::ReadClock));
    assert!(matches!(w.step(clock(now_ns)), LbAction::Wait));
    assert_eq!(w.slot().last_loop_entry, now_ns);
}

/// Accepts `fds` in one event of the listener.
fn accept(w: &mut LbWorker, fds: &[i32]) {
    assert!(matches!(w.step(LbEvent::Waited { ready: vec![ready(LISTEN)] }), LbAction::Accept));
    for &fd in fds {
        let a = w.step(LbEvent::Accepted { fd });
        assert!(matches!(a, LbAction::Register { fd: f } if f == fd));
        assert!(matches!(w.step(LbEvent::Registered { ok: true }), LbAction::Accept));
    }
    w.step(LbEvent::NotAccepted);
}

/// Takes a baseline worker from the end of its events to the next wait.
fn next_iteration(w: &mut LbWorker) {
    assert!(matches!(w.wants(), LbAction::Sample));
    w.step(LbEvent::Sampled { now_ns: 60, snapshots: quiet() });
    assert!(matches!(w.step(LbEvent::Recorded), LbAction::ReadFlag));
    enter(w, 70);
}

#[test]
fn listener_is_drained() {
    let mut w = waiting(Policy::Lifo);
    accept(&mut w, &[10, 11, 12]);
    assert_eq!(w.slot().accumulated_conns, 3);
    assert_eq!(w.slot().pending_events, 0);
    let mut fds = w.open_fds();
    fds.sort();
    assert_eq!(fds, vec![10, 11, 12]);
}

#[test]
fn failed_registration_is_undone() {
    let mut w = waiting(Policy::Lifo);
    w.step(LbEvent::Waited { ready: vec![ready(LISTEN)] });
    w.step(LbEvent::Accepted { fd: 9 });
    assert_eq!(w.slot().accumulated_conns, 1);
    let a = w.step(LbEvent::Registered { ok: false });
    assert!(matches!(a, LbAction::Discard { fd: 9 }));
    assert!(matches!(w.step(LbEvent::Discarded), LbAction::Accept));
    assert_eq!(w.slot().accumulated_conns, 0);
    assert!(w.open_fds().is_empty());
}

#[test]
fn requests_are_answered_in_order() {
    let mut w = waiting(Policy::ReuseportHash);
    accept(&mut w, &[10]);
    next_iteration(&mut w);
    assert!(matches!(w.step(LbEvent::Waited { ready: vec![ready(10)] }), LbAction::Read { fd: 10 }));
    assert_eq!(w.slot().pending_events, 1);
    // One request and a half in the first read, the rest in the second.
    let mut stream = request(5, 30, -7);
    stream.extend(request(6, 0, 8));
    w.step(LbEvent::Bytes { data: stream[..36].to_vec() });
    w.step(LbEvent::Bytes { data: stream[36..].to_vec() });
    let a = w.step(LbEvent::ReadEnded { end: ReadEnd::Drained });
    assert!(matches!(a, LbAction::Sleep { ns: 30_000 }));
    let LbAction::Write { fd, bytes } = w.step(LbEvent::Slept) else { panic!("no answer") };
    assert_eq!((fd, decode_response(&bytes)), (10, (5, 2, -7)));
    let a = w.step(LbEvent::Written { ok: true });
    assert!(matches!(a, LbAction::Sleep { ns: 0 }));
    let LbAction::Write { bytes, .. } = w.step(LbEvent::Slept) else { panic!("no answer") };
    assert_eq!(decode_response(&bytes), (6, 2, 8));
    assert!(matches!(w.step(LbEvent::Written { ok: true }), LbAction::Sample));
    assert_eq!(w.slot().pending_events, 0);
    assert_eq!(w.slot().accumulated_conns, 1);
}

#[test]
fn partial_request_waits_for_the_rest() {
    let mut w = waiting(Policy::Lifo);
    accept(&mut w, &[10]);
    let bytes = request(1, 2, 3);
    next_iteration(&mut w);
    w.step(LbEvent::Waited { ready: vec![ready(10)] });
    w.step(LbEvent::Bytes { data: bytes[..23].to_vec() });
    assert!(matches!(w.step(LbEvent::ReadEnded { end: ReadEnd::Drained }), LbAction::Sample));
    next_iteration(&mut w);
    w.step(LbEvent::Waited { ready: vec![ready(10)] });
    w.step(LbEvent::Bytes { data: bytes[23..].to_vec() });
    let a = w.step(LbEvent::ReadEnded { end: ReadEnd::Drained });
    assert!(matches!(a, LbAction::Sleep { ns: 2_000 }));
}

#[test]
fn ended_connections_are_answered_first() {
    for end in [ReadEnd::Eof, ReadEnd::Failed] {
        let mut w = waiting(Policy::Lifo);
        accept(&mut w, &[10, 11]);
        next_iteration(&mut w);
        w.step(LbEvent::Waited { ready: vec![ready(10), ready(11)] });
        let mut data = request(9, 0, 77);
        data.extend(request(10, 4, 78));
        data.extend([1, 2, 3]);
        w.step(LbEvent::Bytes { data });
        for (seq, ns, send_ns) in [(9, 0, 77), (10, 4_000, 78)] {
            let a = if seq == 9 {
                w.step(LbEvent::ReadEnded { end })
            } else {
                w.step(LbEvent::Written { ok: true })
            };
            assert!(matches!(a, LbAction::Sleep { ns: n } if n == ns), "{a:?}");
            let LbAction::Write { fd, bytes } = w.step(LbEvent::Slept) else { panic!("no answer") };
            assert_eq!((fd, decode_response(&bytes)), (10, (seq, 2, send_ns)));
            assert_eq!(w.slot().accumulated_conns, 2);
        }
        assert!(matches!(w.step(LbEvent::Written { ok: true }), LbAction::Close { fd: 10 }));
        // The next connection has not ended.
        assert!(matches!(w.step(LbEvent::Closed), LbAction::Read { fd: 11 }));
        assert_eq!(w.open_fds(), vec![11]);
        assert_eq!(w.slot().accumulated_conns, 1);
        assert!(matches!(w.step(LbEvent::ReadEnded { end: ReadEnd::Drained }), LbAction::Sample));
        assert_eq!(w.slot().pending_events, 0);
    }
}

#[test]
fn requests_behind_a_bad_one_are_not_answered() {
    let mut w = waiting(Policy::Lifo);
    accept(&mut w, &[10]);
    next_iteration(&mut w);
    w.step(LbEvent::Waited { ready: vec![ready(10)] });
    let mut data = request(1, 1, 1);
    data.extend([0; REQUEST_HEADER_LEN]);
    data.extend(request(2, 2, 2));
    w.step(LbEvent::Bytes { data });
    let a = w.step(LbEvent::ReadEnded { end: ReadEnd::Drained });
    assert!(matches!(a, LbAction::Sleep { ns: 1_000 }));
    assert!(matches!(w.step(LbEvent::Slept), LbAction::Write { fd: 10, .. }));
    assert!(matches!(w.step(LbEvent::Written { ok: true }), LbAction::Close { fd: 10 }));
}

#[test]
fn connections_end_on_error_hangup_and_bad_magic() {
    let endings: [fn(&mut LbWorker) -> LbAction; 5] = [
        |w| {
            w.step(LbEvent::Waited { ready: vec![ready(10)] });
            w.step(LbEvent::Bytes { data: request(1, 1, 1) });
            let a = w.step(LbEvent::ReadEnded { end: ReadEnd::Eof });
            assert!(matches!(a, LbAction::Sleep { ns: 1_000 }));
            assert!(matches!(w.step(LbEvent::Slept), LbAction::Write { fd: 10, .. }));
            w.step(LbEvent::Written { ok: true })
        },
        |w| {
            w.step(LbEvent::Waited { ready: vec![ready(10)] });
            w.step(LbEvent::ReadEnded { end: ReadEnd::Failed })
        },
        |w| w.step(LbEvent::Waited { ready: vec![Ready { fd: 10, hangup: true }] }),
        |w| {
            w.step(LbEvent::Waited { ready: vec![ready(10)] });
            w.step(LbEvent::Bytes { data: vec![0; 24] });
            w.step(LbEvent::ReadEnded { end: ReadEnd::Drained })
        },
        |w| {
            w.step(LbEvent::Waited { ready: vec![ready(10)] });
            w.step(LbEvent::Bytes { data: request(1, 1, 1) });
            w.step(LbEvent::ReadEnded { end: ReadEnd::Drained });
            w.step(LbEvent::Slept);
            w.step(LbEvent::Written { ok: false })
        },
    ];
    for ending in endings {
        let mut w = waiting(Policy::Lifo);
        accept(&mut w, &[10, 11]);
        next_iteration(&mut w);
        let a = ending(&mut w);
        assert!(matches!(a, LbAction::Close { fd: 10 }), "{a:?}");
        assert!(matches!(w.step(LbEvent::Closed), LbAction::Sample));
        assert_eq!(w.open_fds(), vec![11]);
        assert_eq!(w.slot().accumulated_conns, 1);
        assert_eq!(w.slot().pending_events, 0);
    }
}

#[test]
fn pending_events_count_down_through_a_batch() {
    let mut w = waiting(Policy::Lifo);
    accept(&mut w, &[10, 11]);
    next_iteration(&mut w);
    w.step(LbEvent::Waited { ready: vec![ready(10), ready(LISTEN), ready(11)] });
    assert_eq!(w.slot().pending_events, 3);
    let a = w.step(LbEvent::ReadEnded { end: ReadEnd::Drained });
    assert!(matches!(a, LbAction::Accept));
    assert_eq!(w.slot().pending_events, 2);
    assert!(matches!(w.step(LbEvent::NotAccepted), LbAction::Read { fd: 11 }));
    assert_eq!(w.slot().pending_events, 1);
    w.step(LbEvent::ReadEnded { end: ReadEnd::Drained });
    assert_eq!(w.slot().pending_events, 0);
    // A full batch is fine too.
    next_iteration(&mut w);
    let many: Vec<Ready> = (0..MAX_EVENTS as i32).map(|i| ready(100 + i)).collect();
    w.step(LbEvent::Waited { ready: many });
    assert_eq!(w.slot().pending_events, 64);
}

#[test]
fn hermes_publishes_and_records_every_iteration() {
    let mut w = waiting(Policy::Hermes);
    assert!(matches!(w.step(LbEvent::Waited { ready: Vec::new() }), LbAction::Survey));
    let mut snapshots = quiet();
    snapshots[0].last_loop_entry = 1;
    let a = w.step(LbEvent::Surveyed { now_ns: 900_000_000, snapshots });
    assert!(matches!(a, LbAction::Publish { bitmap: 0b1110 }));
    assert!(matches!(w.step(LbEvent::Published), LbAction::Sample));
    assert!(w.row().is_none());
    assert!(matches!(w.step(LbEvent::Sampled { now_ns: 7, snapshots }), LbAction::Record));
    let row = w.row().unwrap();
    assert_eq!((row.timestamp_ns, row.worker_id, row.iter, row.open_conns), (7, 2, 0, 0));
    assert_eq!(row.result.unwrap().after_stage1, 3);
    w.step(LbEvent::Recorded);
    w.step(LbEvent::Flag { shutdown: false });
    w.step(clock(8));
    w.step(LbEvent::Waited { ready: Vec::new() });
    w.step(LbEvent::Surveyed { now_ns: 9, snapshots });
    w.step(LbEvent::Published);
    w.step(LbEvent::Sampled { now_ns: 9, snapshots });
    assert_eq!(w.row().unwrap().iter, 1);
}

#[test]
fn worker_stops_at_the_top_of_its_loop() {
    let mut w = waiting(Policy::Lifo);
    accept(&mut w, &[10]);
    w.step(LbEvent::Sampled { now_ns: 1, snapshots: quiet() });
    assert!(matches!(w.step(LbEvent::Flag { shutdown: true }), LbAction::Record));
    w.step(LbEvent::Recorded);
    assert!(matches!(w.step(LbEvent::Flag { shutdown: true }), LbAction::Drain));
    assert_eq!(w.open_fds(), vec![10]);
    assert!(matches!(w.step(LbEvent::Drained), LbAction::Stop));
}

#[test]
fn injected_hang_blocks_once_without_a_stamp() {
    let hang = HangSpec { at: 100, duration: 400 };
    let mut w = LbWorker::new(0, LISTEN, Policy::Lifo, Some(hang));
    w.step(LbEvent::Flag { shutdown: false });
    w.step(clock(120));
    assert!(matches!(w.step(clock(130)), LbAction::Sleep { ns: 400 }));
    assert!(w.hanging());
    assert_eq!(w.slot().last_loop_entry, 120);
    assert!(matches!(w.step(LbEvent::Slept), LbAction::ReadFlag));
    assert!(!w.hanging());
    enter(&mut w, 530);
    let mut early = LbWorker::new(0, LISTEN, Policy::Lifo, Some(hang));
    early.step(LbEvent::Flag { shutdown: false });
    early.step(clock(10));
    assert!(matches!(early.step(clock(99)), LbAction::Wait));
}

#[test]
fn system_call_results_are_told_apart() {
    assert_eq!(read_outcome(12, false), ReadOutcome::Bytes(12));
    assert_eq!(read_outcome(0, true), ReadOutcome::End(ReadEnd::Eof));
    assert_eq!(read_outcome(-1, true), ReadOutcome::End(ReadEnd::Drained));
    assert_eq!(read_outcome(-1, false), ReadOutcome::End(ReadEnd::Failed));
    assert_eq!(wait_outcome(3, false), Some(3));
    assert_eq!(wait_outcome(0, true), Some(0));
    assert_eq!(wait_outcome(-1, true), Some(0));
    assert_eq!(wait_outcome(-1, false), None);
}

#[test]
fn writes_go_on_until_all_is_written() {
    let (mut p, first) = WriteProgress::start(16);
    assert_eq!(first, WriteStep::Write { from: 0 });
    assert_eq!(p.advance(10, false), WriteStep::Write { from: 10 });
    assert_eq!(p.advance(-1, true), WriteStep::Yield { from: 10 });
    assert_eq!(p.advance(6, false), WriteStep::Done);
    assert_eq!(WriteProgress::start(0).1, WriteStep::Done);

    let (mut p, _) = WriteProgress::start(16);
    assert_eq!(p.advance(-1, false), WriteStep::Failed);
    for _ in 0..WRITE_SPINS {
        assert_eq!(p.advance(-1, true), WriteStep::Yield { from: 0 });
    }
    assert_eq!(p.advance(-1, true), WriteStep::Failed);
    assert_eq!(p.advance(0, false), WriteStep::Failed);
}

#[test]
fn policies_need_different_sockets() {
    let hermes = socket_plan(Policy::Hermes);
    assert_eq!((hermes.listeners, hermes.reuseport, hermes.attach_program), (4, true, true));
    let hash = socket_plan(Policy::ReuseportHash);
    assert_eq!((hash.listeners, hash.reuseport, hash.attach_program), (4, true, false));
    let lifo = socket_plan(Policy::Lifo);
    assert_eq!((lifo.listeners, lifo.reuseport, lifo.attach_program), (1, false, false));
    assert_eq!((hermes.exclusive, hash.exclusive, lifo.exclusive), (false, false, true));
}

#[test]
fn workers_keep_their_own_listener() {
    let own = setup(Policy::Hermes, &vec![5, 6, 7, 8]);
    assert_eq!(own.listen_fds, vec![5, 6, 7, 8]);
    assert_eq!(fds_to_close(&own.listen_fds, 2), vec![5, 6, 8]);
    let shared = setup(Policy::Lifo, &vec![5]);
    assert_eq!(shared.listen_fds, vec![5, 5, 5, 5]);
    assert_eq!(fds_to_close(&shared.listen_fds, 2), Vec::<i32>::new());
}

#[test]
fn hang_settings() {
    let spec = HangSpec { at: 1_500_000_000, duration: 400_000_000 };
    assert_eq!(parse_hang_inject("0:1500:400"), Ok((0, spec)));
    assert_eq!(parse_hang_inject("0:1500"), Err(HangError::Malformed));
    assert_eq!(parse_hang_inject("0:1500:400:1"), Err(HangError::Malformed));
    assert_eq!(parse_hang_inject(""), Err(HangError::Malformed));
    assert_eq!(parse_hang_inject("a:1500:400"), Err(HangError::NotANumber));
    assert_eq!(parse_hang_inject("0::400"), Err(HangError::NotANumber));
    assert_eq!(parse_hang_inject("0:1500:-4"), Err(HangError::NotANumber));
    let far = parse_hang_inject("1:18446744073709551615:0").unwrap().1;
    assert_eq!(far.at, u64::MAX as u128 * 1_000_000);
    assert_eq!(hang_for(Some((0, spec)), 0), Some(spec));
    assert_eq!(hang_for(Some((0, spec)), 1), None);
    assert_eq!(hang_for(None, 0), None);
}
