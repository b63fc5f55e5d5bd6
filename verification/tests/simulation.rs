//! Simulated workers: the event loop, polling, and a whole run on one clock.

use micro_hermes::dispatcher::backlog_of;
use micro_hermes::generator::{GenAction, GenEvent, Generator};
use micro_hermes::policy::Policy;
use micro_hermes::poll::{Poll, PollAction, PollEvent};
use micro_hermes::scheduler::HANG_THRESHOLD_NS;
use micro_hermes::shm::{ConnDesc, SharedState};
use micro_hermes::worker::{
    Action, Event, WorkerLoop, EPOLL_TIMEOUT, MAX_EVENTS, POLL_SLEEP,
};
use micro_hermes::workload::{BurstSpec, HangSpec, WorkloadCase, WorkloadConfig, MILLI};
use micro_hermes::wst::{WorkerSnapshot, NUM_WORKERS};

fn desc(conn_id: u64, service_us: u32, lifetime_ms: u32) -> ConnDesc {
    ConnDesc { conn_id, hash: 0, arrival_ns: 5, service_us, lifetime_ms }
}

fn clock(now_ns: i64) -> Event {
    Event::Clock { now_ns, elapsed: now_ns as u128 }
}

fn quiet() -> [WorkerSnapshot; NUM_WORKERS] {
    [WorkerSnapshot { last_loop_entry: 0, pending_events: 0, accumulated_conns: 0 }; NUM_WORKERS]
}

/// Takes a worker without work from the end of its batch to the next loop entry.
fn end_iteration(w: &mut WorkerLoop, now_ns: i64, stop: bool) -> Action {
    if w.wants() == Action::Survey {
        let Action::Publish { bitmap } = w.step(Event::Surveyed { now_ns, snapshots: quiet() })
        else {
            panic!("a pass is published")
        };
        assert_eq!(bitmap, 0b1111);
        w.step(Event::Published);
    }
    assert_eq!(w.wants(), Action::Sample);
    assert_eq!(
        w.step(Event::Sampled { now_ns, snapshots: quiet(), queue_len: 2 }),
        Action::Ask
    );
    w.step(Event::Asked { shutdown: stop, queue_empty: true })
}

#[test]
fn worker_serves_a_batch_and_records_it() {
    let mut w = WorkerLoop::new(1, None, None, Policy::Hermes);
    assert_eq!(w.wants(), Action::ReadClock);
    assert_eq!(w.step(clock(100)), Action::ReadClock);
    assert_eq!(w.slot().last_loop_entry, 100);
    assert_eq!(w.step(clock(110)), Action::Poll);
    let batch = vec![desc(7, 3, 1), desc(8, 4, 0)];
    assert_eq!(w.step(Event::Polled { batch }), Action::ReadClock);
    assert_eq!((w.slot().pending_events, w.slot().accumulated_conns), (2, 1));
    assert_eq!(w.step(clock(200)), Action::Sleep { ns: 3_000 });
    assert_eq!(w.step(Event::Slept), Action::ReadClock);
    assert_eq!(w.step(clock(3_300)), Action::ReadClock);
    assert_eq!((w.slot().pending_events, w.slot().accumulated_conns), (1, 2));
    w.step(clock(3_400));
    w.step(Event::Slept);
    assert_eq!(w.step(clock(7_500)), Action::Survey);
    assert_eq!((w.slot().pending_events, w.slot().accumulated_conns), (0, 2));
    // The loop entry keeps its stamp while the worker works.
    assert_eq!(w.slot().last_loop_entry, 100);
    assert_eq!(end_iteration(&mut w, 7_600, false), Action::ReadClock);

    let shards = w.shards();
    assert_eq!(shards.conns.len(), 2);
    let row = shards.conns[0];
    assert_eq!((row.conn_id, row.worker_id, row.kind), (7, 1, "accept"));
    assert_eq!((row.arrival_ns, row.dequeue_ns, row.done_ns, row.service_us), (5, 200, 3_300, 3));
    assert_eq!(shards.ticks.len(), 1);
    assert_eq!((shards.ticks[0].iter, shards.ticks[0].queue_len), (0, 2));
    assert_eq!(shards.ticks[0].result.unwrap().bitmap, 0b1111);

    // The second connection has no lifetime: it closes at the next entry; the first stays open.
    w.step(clock(8_000));
    assert_eq!(w.step(clock(8_100)), Action::Poll);
    assert_eq!(w.slot().accumulated_conns, 1);
    assert_eq!(w.step(Event::Polled { batch: Vec::new() }), Action::Survey);
    end_iteration(&mut w, 9_000, false);
    // Its deadline is one millisecond after it was done.
    w.step(clock(1_003_300));
    assert_eq!(w.step(clock(1_003_300)), Action::Poll);
    assert_eq!(w.slot().accumulated_conns, 0);
    assert_eq!(w.shards().ticks.len(), 2);
    assert_eq!(w.shards().ticks[1].iter, 1);
}

#[test]
fn baselines_do_not_schedule() {
    for policy in [Policy::Lifo, Policy::ReuseportHash] {
        let mut w = WorkerLoop::new(0, None, None, policy);
        w.step(clock(1));
        w.step(clock(2));
        assert_eq!(w.step(Event::Polled { batch: Vec::new() }), Action::Sample);
        assert_eq!(end_iteration(&mut w, 3, true), Action::Stop);
        assert!(w.shards().ticks[0].result.is_none());
        assert_eq!(w.step(clock(9)), Action::Stop);
    }
}

#[test]
fn hang_happens_once_on_the_named_worker() {
    let hang = HangSpec { worker_id: 2, at: 1_000, duration: 400 * MILLI };
    let mut other = WorkerLoop::new(1, Some(hang), None, Policy::Hermes);
    other.step(clock(5_000));
    assert_eq!(other.step(clock(5_000)), Action::Poll);

    let mut w = WorkerLoop::new(2, Some(hang), None, Policy::Hermes);
    // Not due yet.
    w.step(clock(10));
    w.step(clock(999));
    assert_eq!(w.step(clock(999)), Action::Poll);
    w.step(Event::Polled { batch: Vec::new() });
    end_iteration(&mut w, 999, false);
    // Due: the worker sleeps with its old stamp, then enters the loop again.
    w.step(clock(1_500));
    assert_eq!(w.step(clock(1_600)), Action::Sleep { ns: 400 * MILLI });
    assert!(w.hanging());
    assert_eq!(w.slot().last_loop_entry, 1_500);
    assert_eq!(w.step(Event::Slept), Action::ReadClock);
    assert!(!w.hanging());
    w.step(clock(400_001_600));
    assert_eq!(w.slot().last_loop_entry, 400_001_600);
    assert_eq!(w.step(clock(400_001_700)), Action::Poll);
    // The hang does not count as an iteration.
    assert_eq!(w.shards().ticks.len(), 1);
}

#[test]
fn burst_serves_every_open_connection_before_the_queue() {
    let burst = BurstSpec { at: 1_000_000, service: 5 * MILLI };
    let mut w = WorkerLoop::new(0, None, Some(burst), Policy::Lifo);
    // Two batches of new connections, six in all.
    let mut now = 0;
    for ids in [vec![1, 2, 3, 4], vec![5, 6]] {
        w.step(clock(now));
        w.step(clock(now));
        assert_eq!(w.step(clock(now)), Action::Poll);
        let batch = ids.iter().map(|&id| desc(id, 0, 60_000)).collect();
        w.step(Event::Polled { batch });
        while w.wants() != Action::Sample {
            match w.wants() {
                Action::ReadClock => w.step(clock(now)),
                Action::Sleep { .. } => w.step(Event::Slept),
                other => panic!("{other:?}"),
            };
            now += 10;
        }
        end_iteration(&mut w, now, false);
    }
    assert_eq!(w.slot().accumulated_conns, 6);
    // The burst is due.
    now = 2_000_000;
    w.step(clock(now));
    w.step(clock(now));
    w.step(clock(now));
    assert_eq!(w.backlog_len(), 6);
    assert_eq!(w.step(clock(now + 1)), Action::ReadClock);
    assert_eq!((w.backlog_len(), w.slot().pending_events), (2, MAX_EVENTS as i64));
    let mut rows = Vec::new();
    for batch in [4, 2] {
        for _ in 0..batch {
            w.step(clock(now));
            assert_eq!(w.wants(), Action::Sleep { ns: 5 * MILLI });
            w.step(Event::Slept);
            w.step(clock(now + 5_000_000));
        }
        assert_eq!(w.slot().pending_events, 0);
        // While the backlog lasts the worker does not stop.
        let next = end_iteration(&mut w, now, true);
        rows.push(w.shards().conns.len());
        if batch == 4 {
            assert_eq!(next, Action::ReadClock);
            w.step(clock(now));
            w.step(clock(now));
        } else {
            assert_eq!(next, Action::Stop);
        }
    }
    assert_eq!(rows, vec![10, 12]);
    let burst_rows: Vec<_> =
        w.shards().conns.iter().filter(|r| r.kind == "burst").map(|r| r.conn_id).collect();
    assert_eq!(burst_rows, vec![1, 2, 3, 4, 5, 6]);
    let row = w.shards().conns[6];
    assert_eq!((row.arrival_ns, row.service_us), (now + 1, 5_000));
    assert_eq!(w.slot().accumulated_conns, 6);
}

#[test]
fn worker_stops_only_when_asked_and_done() {
    let mut w = WorkerLoop::new(3, None, None, Policy::ReuseportHash);
    w.step(clock(1));
    w.step(clock(1));
    w.step(Event::Polled { batch: Vec::new() });
    w.step(Event::Sampled { now_ns: 1, snapshots: quiet(), queue_len: 1 });
    assert_eq!(w.step(Event::Asked { shutdown: true, queue_empty: false }), Action::ReadClock);
    // An event that is not awaited changes nothing.
    assert_eq!(w.step(Event::Published), Action::ReadClock);
    assert_eq!(w.step(Event::Asked { shutdown: true, queue_empty: true }), Action::ReadClock);
}

#[test]
fn poll_returns_as_soon_as_something_is_queued() {
    let mut p = Poll::new();
    assert_eq!(p.wants(), PollAction::Pop);
    for i in 0..MAX_EVENTS as u64 {
        let a = p.step(PollEvent::Popped { desc: Some(desc(i, 0, 0)) });
        let full = i + 1 == MAX_EVENTS as u64;
        assert_eq!(a, if full { PollAction::Return } else { PollAction::Pop });
    }
    let ids: Vec<u64> = p.into_batch().iter().map(|d| d.conn_id).collect();
    assert_eq!(ids, vec![0, 1, 2, 3]);

    let mut p = Poll::new();
    p.step(PollEvent::Popped { desc: Some(desc(9, 0, 0)) });
    assert_eq!(p.step(PollEvent::Popped { desc: None }), PollAction::Return);
    assert_eq!(p.into_batch().len(), 1);
}

#[test]
fn poll_rests_until_timeout_or_stop() {
    let mut p = Poll::new();
    assert_eq!(p.step(PollEvent::Popped { desc: None }), PollAction::Check);
    let check = PollEvent::Checked { elapsed: EPOLL_TIMEOUT - 1, shutdown: false };
    assert_eq!(p.step(check), PollAction::Sleep { ns: POLL_SLEEP });
    assert_eq!(p.step(PollEvent::Slept), PollAction::Pop);
    p.step(PollEvent::Popped { desc: None });
    let check = PollEvent::Checked { elapsed: EPOLL_TIMEOUT, shutdown: false };
    assert_eq!(p.step(check), PollAction::Return);
    assert!(p.into_batch().is_empty());

    let mut p = Poll::new();
    p.step(PollEvent::Popped { desc: None });
    let stop = PollEvent::Checked { elapsed: 0, shutdown: true };
    assert_eq!(p.step(stop), PollAction::Return);
}

/// A worker with a clock of its own.
struct Sim {
    worker: WorkerLoop,
    poll: Option<(Poll, u128)>,
    now: u128,
}

impl Sim {
    /// Lets the worker run until its clock has reached `until`.
    fn run(&mut self, id: usize, shared: &mut SharedState, until: u128) {
        while self.now < until && self.worker.wants() != Action::Stop {
            self.now += 100;
            let now_ns = self.now as i64;
            let event = match self.worker.wants() {
                Action::ReadClock => Event::Clock { now_ns, elapsed: self.now },
                Action::Sleep { ns } => {
                    self.now += ns;
                    Event::Slept
                }
                Action::Poll => {
                    let (mut poll, start) =
                        self.poll.take().unwrap_or_else(|| (Poll::new(), self.now));
                    match poll.wants() {
                        PollAction::Pop => {
                            let desc = shared.queues[id].pop();
                            poll.step(PollEvent::Popped { desc });
                        }
                        PollAction::Check => {
                            let elapsed = self.now - start;
                            let shutdown = shared.shutdown_requested();
                            poll.step(PollEvent::Checked { elapsed, shutdown });
                        }
                        PollAction::Sleep { ns } => {
                            self.now += ns;
                            poll.step(PollEvent::Slept);
                        }
                        PollAction::Return => {
                            self.worker.step(Event::Polled { batch: poll.into_batch() });
                            shared.wst.slots[id] = self.worker.slot();
                            continue;
                        }
                    }
                    self.poll = Some((poll, start));
                    continue;
                }
                Action::Survey => {
                    Event::Surveyed { now_ns, snapshots: shared.wst.snapshot_all() }
                }
                Action::Publish { bitmap } => {
                    shared.msel.store(bitmap);
                    Event::Published
                }
                Action::Sample => Event::Sampled {
                    now_ns,
                    snapshots: shared.wst.snapshot_all(),
                    queue_len: shared.queues[id].len(),
                },
                Action::Ask => Event::Asked {
                    shutdown: shared.shutdown_requested(),
                    queue_empty: shared.queues[id].is_empty(),
                },
                Action::Stop => unreachable!(),
            };
            self.worker.step(event);
            shared.wst.slots[id] = self.worker.slot();
        }
    }
}

/// Runs a profile on simulated clocks. Returns the workers, and what each was handed.
fn simulate(cfg: WorkloadConfig, policy: Policy) -> (Vec<Sim>, Vec<Vec<u64>>, u64) {
    let mut shared = SharedState::new();
    let mut sims: Vec<Sim> = (0..NUM_WORKERS)
        .map(|id| Sim {
            worker: WorkerLoop::new(id, cfg.hang, cfg.burst, policy),
            poll: None,
            now: 0,
        })
        .collect();
    let mut g = Generator::new(cfg, policy, 0);
    let mut handed: Vec<Vec<u64>> = vec![Vec::new(); NUM_WORKERS];
    let mut now = 0;
    loop {
        let event = match g.wants() {
            GenAction::ReadClock => GenEvent::Clock { elapsed: now },
            GenAction::Sleep { ns } => {
                now += ns;
                GenEvent::Slept
            }
            GenAction::Observe => {
                for (id, sim) in sims.iter_mut().enumerate() {
                    sim.run(id, &mut shared, now);
                }
                GenEvent::Observed {
                    bitmap: shared.msel.load(),
                    backlog: backlog_of(&shared),
                    now_ns: now as i64,
                }
            }
            GenAction::Offer { target, desc } => {
                let accepted = shared.queues[target].push(desc);
                if accepted {
                    handed[target].push(desc.conn_id);
                }
                GenEvent::Offered { accepted }
            }
            GenAction::Finish => break,
        };
        g.step(event);
    }
    shared.request_shutdown();
    for (id, sim) in sims.iter_mut().enumerate() {
        sim.run(id, &mut shared, u128::MAX);
    }
    (sims, handed, g.stats().generated)
}

#[test]
fn every_connection_is_served_once_by_its_worker() {
    for policy in [Policy::Hermes, Policy::Lifo, Policy::ReuseportHash] {
        let cfg = WorkloadConfig {
            duration: 500 * MILLI,
            ..WorkloadConfig::for_case(WorkloadCase::Case1)
        };
        let (sims, handed, generated) = simulate(cfg, policy);
        assert_eq!(generated, 200);
        assert_eq!(handed.iter().map(Vec::len).sum::<usize>(), 200);
        for (sim, ids) in sims.iter().zip(&handed) {
            assert_eq!(sim.worker.wants(), Action::Stop);
            let served: Vec<u64> = sim.worker.shards().conns.iter().map(|r| r.conn_id).collect();
            assert_eq!(&served, ids);
            assert_eq!(sim.worker.slot().pending_events, 0);
        }
    }
}

#[test]
fn hermes_keeps_connections_from_a_hung_worker() {
    let cfg = WorkloadConfig::for_case(WorkloadCase::Case2);
    let hang = cfg.hang.unwrap();
    let (sims, _, _) = simulate(cfg, Policy::Hermes);
    // While worker 0 hangs, the others' passes leave it out once the threshold is over.
    let seen_out = sims[1].worker.shards().ticks.iter().any(|t| {
        let at = t.timestamp_ns as u128;
        at > hang.at + HANG_THRESHOLD_NS as u128
            && at < hang.at + hang.duration
            && t.result.unwrap().bitmap & 1 == 0
    });
    assert!(seen_out);
}

#[test]
fn long_lived_connections_concentrate_under_lifo_and_spread_under_hermes() {
    let cfg = WorkloadConfig::for_case(WorkloadCase::Case3);
    let open = |policy| -> Vec<i64> {
        let (sims, _, _) = simulate(cfg, policy);
        sims.iter().map(|s| s.worker.slot().accumulated_conns).collect()
    };
    let lifo = open(Policy::Lifo);
    let hermes = open(Policy::Hermes);
    assert_eq!(lifo.iter().sum::<i64>(), 240);
    assert_eq!(hermes.iter().sum::<i64>(), 240);
    assert!(lifo[3] > 200, "{lifo:?}");
    assert!(*hermes.iter().max().unwrap() < 120, "{hermes:?}");
}
