//! The event loop of a simulated worker.
//!
//! The loop alternates between decisions and outside work: reading the clock, sleeping, popping the
//! accept queue, reading the other workers' status. `WorkerLoop::step` takes the outcome of the last
//! piece of outside work and says what to do next. After each step the worker's slot is published.

use crate::metrics::{ConnRow, MetricsShards, TickRow};
use crate::policy::Policy;
use crate::scheduler::{pass, schedule_from_snapshots, ScheduleResult, HANG_THRESHOLD_NS};
use crate::shm::ConnDesc;
use crate::workload::{as_micros32, micros32, BurstSpec, HangSpec};
use crate::wst::{blank_slot, WorkerSlot, WorkerSnapshot, NUM_WORKERS};
use vstd::prelude::*;

verus! {

/// How long a worker waits for connections, in nanoseconds.
pub const EPOLL_TIMEOUT: u128 = 5_000_000;

/// How many events a worker takes up at once.
pub const MAX_EVENTS: usize = 4;

/// How long a worker rests between two looks at its queue, in nanoseconds.
pub const POLL_SLEEP: u128 = 200_000;

/// A number cut to 64 bits, as a signed one.
pub open spec fn wrap64(n: int) -> i64 {
    ((n + 0x8000_0000_0000_0000) % 0x1_0000_0000_0000_0000 - 0x8000_0000_0000_0000) as i64
}

/// One more, wrapping.
pub fn wrapping_inc(x: i64) -> (r: i64)
    ensures
        r == wrap64(x + 1),
{
    x.wrapping_add(1)
}

/// One less, wrapping.
pub fn wrapping_dec(x: i64) -> (r: i64)
    ensures
        r == wrap64(x - 1),
{
    x.wrapping_sub(1)
}

/// What an event of a batch is.
#[derive(Debug, Clone, Copy, PartialEq, Eq, Structural)]
pub enum JobKind {
    /// A new connection, to be kept open for so many milliseconds.
    Accept { lifetime_ms: u32 },
    /// One more request on an open connection.
    Burst,
}

/// An event that a worker has taken up.
#[derive(Debug, Clone, Copy, PartialEq, Eq, Structural)]
pub struct Job {
    pub conn_id: u64,
    pub arrival_ns: i64,
    /// Processing time in nanoseconds.
    pub service: u128,
    pub service_us: u32,
    pub kind: JobKind,
}

/// A connection held open until a deadline.
#[derive(Debug, Clone, Copy, PartialEq, Eq, Structural)]
pub struct OpenConn {
    pub conn_id: u64,
    pub deadline_ns: i128,
}

/// What a worker waits for.
#[derive(Debug, Clone, Copy, PartialEq, Eq, Structural)]
pub enum Phase {
    /// The time, to stamp the loop entry with.
    Stamping,
    /// The time, to see whether the injected hang is due.
    HangCheck,
    /// The end of the injected hang.
    Hanging { ns: u128 },
    /// The time, to close connections whose lifetime is over.
    Closing,
    /// The time, to see whether the burst is due.
    BurstCheck,
    /// The time, to stamp the burst with.
    BurstStamp,
    /// A batch of connections.
    Polling,
    /// The time at which an event is taken up.
    ServeStart,
    /// The end of its processing.
    Serving { dequeue_ns: i64 },
    /// The time at which it is done.
    ServeDone { dequeue_ns: i64 },
    /// All workers' status, to schedule by.
    Surveying,
    /// The publication of the bitmap.
    Publishing { bitmap: u64 },
    /// All workers' status, to record.
    Sampling,
    /// Whether to stop.
    Asking,
    Stopped,
}

/// What a worker asks for.
#[derive(Debug, Clone, Copy, PartialEq, Eq, Structural)]
pub enum Action {
    ReadClock,
    Sleep { ns: u128 },
    /// Wait for connections in the accept queue.
    Poll,
    /// Read all workers' status and the clock.
    Survey,
    /// Publish the candidate bitmap.
    Publish { bitmap: u64 },
    /// Read the clock, all workers' status and the length of the accept queue.
    Sample,
    /// Read whether the workers are asked to stop and whether the accept queue is empty.
    Ask,
    Stop,
}

/// The outcome of what a worker asked for.
#[derive(Debug)]
pub enum Event {
    /// The monotonic time, and the time since the worker's start.
    Clock { now_ns: i64, elapsed: u128 },
    Slept,
    Polled { batch: Vec<ConnDesc> },
    Surveyed { now_ns: i64, snapshots: [WorkerSnapshot; NUM_WORKERS] },
    Published,
    Sampled { now_ns: i64, snapshots: [WorkerSnapshot; NUM_WORKERS], queue_len: usize },
    Asked { shutdown: bool, queue_empty: bool },
}

/// The state of a worker.
#[verifier::ext_equal]
pub struct WorkerState {
    pub worker_id: usize,
    pub policy: Policy,
    /// The injected hang that is still to come.
    pub hang: Option<HangSpec>,
    pub burst: Option<BurstSpec>,
    /// Whether the burst is still to come.
    pub burst_pending: bool,
    /// Connections whose request in the burst has not been taken up.
    pub backlog: Seq<u64>,
    /// When the burst fired.
    pub trigger_ns: i64,
    pub open: Seq<OpenConn>,
    pub slot: WorkerSlot,
    /// The events taken up and not yet handled, the current one first.
    pub jobs: Seq<Job>,
    pub iter: u32,
    /// The scheduling pass of this iteration.
    pub result: Option<ScheduleResult>,
    pub phase: Phase,
    pub ticks: Seq<TickRow>,
    pub conns: Seq<ConnRow>,
}

/// The state of a worker before its first iteration.
pub open spec fn start_of(
    worker_id: usize,
    hang: Option<HangSpec>,
    burst: Option<BurstSpec>,
    policy: Policy,
) -> WorkerState {
    WorkerState {
        worker_id,
        policy,
        hang: match hang {
            Some(h) => if h.worker_id == worker_id {
                Some(h)
            } else {
                None
            },
            None => None,
        },
        burst,
        burst_pending: burst.is_some(),
        backlog: Seq::empty(),
        trigger_ns: 0,
        open: Seq::empty(),
        slot: blank_slot(),
        jobs: Seq::empty(),
        iter: 0,
        result: None,
        phase: Phase::Stamping,
        ticks: Seq::empty(),
        conns: Seq::empty(),
    }
}

/// What a state asks for.
pub open spec fn wants_of(s: WorkerState) -> Action {
    match s.phase {
        Phase::Stamping | Phase::HangCheck | Phase::Closing | Phase::BurstCheck => Action::ReadClock,
        Phase::BurstStamp | Phase::ServeStart | Phase::ServeDone { .. } => Action::ReadClock,
        Phase::Hanging { ns } => Action::Sleep { ns },
        Phase::Polling => Action::Poll,
        Phase::Serving { .. } => Action::Sleep { ns: s.jobs[0].service },
        Phase::Surveying => Action::Survey,
        Phase::Publishing { bitmap } => Action::Publish { bitmap },
        Phase::Sampling => Action::Sample,
        Phase::Asking => Action::Ask,
        Phase::Stopped => Action::Stop,
    }
}

/// The connections whose lifetime is not over.
pub open spec fn still_open(open: Seq<OpenConn>, now_ns: i64) -> Seq<OpenConn> {
    open.filter(|c: OpenConn| c.deadline_ns > now_ns)
}

/// The event that a connection of a batch is.
pub open spec fn accept_job(desc: ConnDesc) -> Job {
    Job {
        conn_id: desc.conn_id,
        arrival_ns: desc.arrival_ns,
        service: (desc.service_us * 1_000) as u128,
        service_us: desc.service_us,
        kind: JobKind::Accept { lifetime_ms: desc.lifetime_ms },
    }
}

/// The event that a connection's request in a burst is.
pub open spec fn burst_job(conn_id: u64, trigger_ns: i64, service: u128) -> Job {
    Job {
        conn_id,
        arrival_ns: trigger_ns,
        service,
        service_us: micros32(service),
        kind: JobKind::Burst,
    }
}

/// A worker's slot with other counts.
pub open spec fn slot_with(slot: WorkerSlot, pending: int, conns: int) -> WorkerSlot {
    WorkerSlot {
        pending_events: wrap64(pending),
        accumulated_conns: wrap64(conns),
        ..slot
    }
}

/// The state once the current event is to be taken up, or the batch is done.
pub open spec fn next_job(s: WorkerState) -> WorkerState {
    if s.jobs.len() == 0 {
        match s.policy {
            Policy::Hermes => WorkerState { phase: Phase::Surveying, ..s },
            _ => WorkerState { phase: Phase::Sampling, result: None, ..s },
        }
    } else {
        WorkerState {
            phase: Phase::ServeStart,
            slot: match s.jobs[0].kind {
                JobKind::Accept { .. } => slot_with(
                    s.slot,
                    s.slot.pending_events as int,
                    s.slot.accumulated_conns + 1,
                ),
                JobKind::Burst => s.slot,
            },
            ..s
        }
    }
}

/// The state once a batch has been taken up.
pub open spec fn with_batch(s: WorkerState, jobs: Seq<Job>) -> WorkerState {
    next_job(
        WorkerState {
            jobs,
            slot: slot_with(
                s.slot,
                s.slot.pending_events + jobs.len(),
                s.slot.accumulated_conns as int,
            ),
            ..s
        },
    )
}

/// How many requests of a burst are taken up at once.
pub open spec fn batch_of(backlog: Seq<u64>) -> int {
    if backlog.len() < MAX_EVENTS {
        backlog.len() as int
    } else {
        MAX_EVENTS as int
    }
}

/// The state once a batch is to be taken up: from the burst's backlog while that lasts, else from
/// the accept queue.
pub open spec fn take_work(s: WorkerState) -> WorkerState {
    match s.burst {
        Some(b) => if s.backlog.len() > 0 {
            let n = batch_of(s.backlog);
            with_batch(
                WorkerState { backlog: s.backlog.skip(n), ..s },
                s.backlog.take(n).map_values(
                    |id: u64| burst_job(id, s.trigger_ns, b.service),
                ),
            )
        } else {
            WorkerState { phase: Phase::Polling, ..s }
        },
        None => WorkerState { phase: Phase::Polling, ..s },
    }
}

/// The row of an event that is done.
pub open spec fn row_of(s: WorkerState, dequeue_ns: i64, done_ns: i64) -> ConnRow {
    let job = s.jobs[0];
    ConnRow {
        conn_id: job.conn_id,
        worker_id: s.worker_id,
        arrival_ns: job.arrival_ns,
        dequeue_ns,
        done_ns,
        service_us: job.service_us,
        policy: s.policy,
        kind: match job.kind {
            JobKind::Accept { .. } => "accept",
            JobKind::Burst => "burst",
        },
    }
}

/// The open connections once the current event is done.
pub open spec fn open_after(s: WorkerState, done_ns: i64) -> Seq<OpenConn> {
    match s.jobs[0].kind {
        JobKind::Accept { lifetime_ms } => s.open.push(
            OpenConn {
                conn_id: s.jobs[0].conn_id,
                deadline_ns: (done_ns + lifetime_ms * 1_000_000) as i128,
            },
        ),
        JobKind::Burst => s.open,
    }
}

/// The state after an event. An event that the state does not wait for changes nothing.
pub open spec fn after(s: WorkerState, e: Event) -> WorkerState {
    match (s.phase, e) {
        (Phase::Stamping, Event::Clock { now_ns, .. }) => WorkerState {
            slot: WorkerSlot { last_loop_entry: now_ns, ..s.slot },
            phase: if s.hang.is_some() {
                Phase::HangCheck
            } else {
                Phase::Closing
            },
            ..s
        },
        (Phase::HangCheck, Event::Clock { elapsed, .. }) => match s.hang {
            Some(h) => if elapsed >= h.at {
                WorkerState { hang: None, phase: Phase::Hanging { ns: h.duration }, ..s }
            } else {
                WorkerState { phase: Phase::Closing, ..s }
            },
            None => WorkerState { phase: Phase::Closing, ..s },
        },
        (Phase::Hanging { .. }, Event::Slept) => WorkerState { phase: Phase::Stamping, ..s },
        (Phase::Closing, Event::Clock { now_ns, .. }) => {
            let open = still_open(s.open, now_ns);
            let t = WorkerState {
                open,
                slot: slot_with(
                    s.slot,
                    s.slot.pending_events as int,
                    s.slot.accumulated_conns - (s.open.len() - open.len()),
                ),
                ..s
            };
            if s.burst_pending {
                WorkerState { phase: Phase::BurstCheck, ..t }
            } else {
                take_work(t)
            }
        },
        (Phase::BurstCheck, Event::Clock { elapsed, .. }) => match s.burst {
            Some(b) => if elapsed >= b.at {
                WorkerState {
                    burst_pending: false,
                    backlog: s.open.map_values(|c: OpenConn| c.conn_id),
                    phase: Phase::BurstStamp,
                    ..s
                }
            } else {
                take_work(s)
            },
            None => take_work(s),
        },
        (Phase::BurstStamp, Event::Clock { now_ns, .. }) => take_work(
            WorkerState { trigger_ns: now_ns, ..s },
        ),
        (Phase::Polling, Event::Polled { batch }) => with_batch(
            s,
            batch@.map_values(|d: ConnDesc| accept_job(d)),
        ),
        (Phase::ServeStart, Event::Clock { now_ns, .. }) => WorkerState {
            phase: Phase::Serving { dequeue_ns: now_ns },
            ..s
        },
        (Phase::Serving { dequeue_ns }, Event::Slept) => WorkerState {
            phase: Phase::ServeDone { dequeue_ns },
            ..s
        },
        (Phase::ServeDone { dequeue_ns }, Event::Clock { now_ns, .. }) => next_job(
            WorkerState {
                slot: slot_with(
                    s.slot,
                    s.slot.pending_events - 1,
                    s.slot.accumulated_conns as int,
                ),
                open: open_after(s, now_ns),
                conns: s.conns.push(row_of(s, dequeue_ns, now_ns)),
                jobs: s.jobs.skip(1),
                ..s
            },
        ),
        (Phase::Surveying, Event::Surveyed { now_ns, snapshots }) => {
            let r = pass(snapshots@, now_ns as int, HANG_THRESHOLD_NS as int);
            WorkerState { result: Some(r), phase: Phase::Publishing { bitmap: r.bitmap }, ..s }
        },
        (Phase::Publishing { .. }, Event::Published) => WorkerState { phase: Phase::Sampling, ..s },
        (Phase::Sampling, Event::Sampled { now_ns, snapshots, queue_len }) => WorkerState {
            ticks: s.ticks.push(
                TickRow {
                    timestamp_ns: now_ns,
                    worker_id: s.worker_id,
                    iter: s.iter,
                    snapshots,
                    queue_len,
                    result: s.result,
                    policy: s.policy,
                },
            ),
            phase: Phase::Asking,
            ..s
        },
        (Phase::Asking, Event::Asked { shutdown, queue_empty }) => if shutdown && queue_empty
            && s.backlog.len() == 0 {
            WorkerState { phase: Phase::Stopped, ..s }
        } else {
            WorkerState {
                iter: ((s.iter + 1) % 0x1_0000_0000) as u32,
                phase: Phase::Stamping,
                ..s
            }
        },
        _ => s,
    }
}

/// Whether an event of a batch is in work.
pub open spec fn in_service(s: WorkerState) -> bool {
    match s.phase {
        Phase::ServeStart | Phase::Serving { .. } | Phase::ServeDone { .. } => true,
        _ => false,
    }
}

/// How many connections the worker holds: the open ones, and a new one in work.
pub open spec fn held(s: WorkerState) -> int {
    s.open.len() + if in_service(s) && s.jobs[0].kind != JobKind::Burst {
        1int
    } else {
        0int
    }
}

/// What holds of a worker at any time: the published counts are the events taken up and not yet
/// handled, and the connections held.
pub open spec fn worker_inv(s: WorkerState) -> bool {
    &&& s.slot.pending_events == s.jobs.len()
    &&& s.jobs.len() <= MAX_EVENTS
    &&& s.slot.accumulated_conns == wrap64(held(s))
    &&& in_service(s) <==> s.jobs.len() > 0
    &&& s.phase == Phase::HangCheck ==> s.hang.is_some()
    &&& s.phase == Phase::BurstCheck ==> s.burst_pending
    &&& s.burst_pending ==> s.burst.is_some() && s.backlog.len() == 0
    &&& s.backlog.len() > 0 ==> s.burst.is_some()
}

/// The event loop of one worker.
#[derive(Debug)]
pub struct WorkerLoop {
    worker_id: usize,
    policy: Policy,
    hang: Option<HangSpec>,
    burst: Option<BurstSpec>,
    burst_pending: bool,
    backlog: Vec<u64>,
    trigger_ns: i64,
    open: Vec<OpenConn>,
    slot: WorkerSlot,
    jobs: Vec<Job>,
    iter: u32,
    result: Option<ScheduleResult>,
    phase: Phase,
    shards: MetricsShards,
}

impl View for WorkerLoop {
    type V = WorkerState;

    closed spec fn view(&self) -> WorkerState {
        WorkerState {
            worker_id: self.worker_id,
            policy: self.policy,
            hang: self.hang,
            burst: self.burst,
            burst_pending: self.burst_pending,
            backlog: self.backlog@,
            trigger_ns: self.trigger_ns,
            open: self.open@,
            slot: self.slot,
            jobs: self.jobs@,
            iter: self.iter,
            result: self.result,
            phase: self.phase,
            ticks: self.shards.ticks@,
            conns: self.shards.conns@,
        }
    }
}

impl WorkerLoop {
    /// A worker before its first iteration. The hang concerns it only where it names it.
    pub fn new(
        worker_id: usize,
        hang: Option<HangSpec>,
        burst: Option<BurstSpec>,
        policy: Policy,
    ) -> (w: WorkerLoop)
        ensures
            w@ == start_of(worker_id, hang, burst, policy),
            worker_inv(w@),
    {
        let hang: Option<HangSpec> = match hang {
            Some(h) => if h.worker_id == worker_id {
                Some(h)
            } else {
                None
            },
            None => None,
        };
        let w: WorkerLoop = WorkerLoop {
            worker_id,
            policy,
            hang,
            burst,
            burst_pending: burst.is_some(),
            backlog: Vec::new(),
            trigger_ns: 0,
            open: Vec::new(),
            slot: WorkerSlot::new(),
            jobs: Vec::new(),
            iter: 0,
            result: None,
            phase: Phase::Stamping,
            shards: MetricsShards::new(),
        };
        assert(w@ =~= start_of(worker_id, w@.hang, burst, policy));
        w
    }

    /// What the worker asks for now.
    pub fn wants(&self) -> (a: Action)
        requires
            worker_inv(self@),
        ensures
            a == wants_of(self@),
    {
        match self.phase {
            Phase::Stamping | Phase::HangCheck | Phase::Closing | Phase::BurstCheck => {
                Action::ReadClock
            },
            Phase::BurstStamp | Phase::ServeStart | Phase::ServeDone { .. } => Action::ReadClock,
            Phase::Hanging { ns } => Action::Sleep { ns },
            Phase::Polling => Action::Poll,
            Phase::Serving { .. } => Action::Sleep { ns: self.jobs[0].service },
            Phase::Surveying => Action::Survey,
            Phase::Publishing { bitmap } => Action::Publish { bitmap },
            Phase::Sampling => Action::Sample,
            Phase::Asking => Action::Ask,
            Phase::Stopped => Action::Stop,
        }
    }

    /// Whether the injected hang is under way.
    pub fn hanging(&self) -> (r: bool)
        ensures
            r == (self@.phase is Hanging),
    {
        match self.phase {
            Phase::Hanging { .. } => true,
            _ => false,
        }
    }

    /// The status to publish.
    pub fn slot(&self) -> (slot: WorkerSlot)
        ensures
            slot == self@.slot,
    {
        self.slot
    }

    /// How many requests of the burst have not been taken up.
    pub fn backlog_len(&self) -> (n: usize)
        ensures
            n == self@.backlog.len(),
    {
        self.backlog.len()
    }

    /// The rows recorded so far.
    pub fn shards(&self) -> (s: &MetricsShards)
        ensures
            s.ticks@ == self@.ticks,
            s.conns@ == self@.conns,
    {
        &self.shards
    }

    /// Takes the outcome of what was asked for and says what is next.
    pub fn step(&mut self, event: Event) -> (a: Action)
        requires
            worker_inv(old(self)@),
            event_ok(event),
        ensures
            final(self)@ == after(old(self)@, event),
            worker_inv(final(self)@),
            a == wants_of(final(self)@),
    {
        proof {
            law_worker_counts(self@, event);
        }
        self.apply(event);
        self.wants()
    }

    /// Takes the outcome of what was asked for.
    #[verifier::rlimit(50)]
    #[verifier::spinoff_prover]
    fn apply(&mut self, event: Event)
        requires
            worker_inv(old(self)@),
            event_ok(event),
        ensures
            final(self)@ == after(old(self)@, event),
    {
        let ghost before = self@;
        match (self.phase, event) {
            (Phase::Stamping, Event::Clock { now_ns, .. }) => {
                self.slot.last_loop_entry = now_ns;
                self.phase = if self.hang.is_some() {
                    Phase::HangCheck
                } else {
                    Phase::Closing
                };
            },
            (Phase::HangCheck, Event::Clock { elapsed, .. }) => match self.hang {
                Some(h) => {
                    if elapsed >= h.at {
                        self.hang = None;
                        self.phase = Phase::Hanging { ns: h.duration };
                    } else {
                        self.phase = Phase::Closing;
                    }
                },
                None => {
                    self.phase = Phase::Closing;
                },
            },
            (Phase::Hanging { .. }, Event::Slept) => {
                self.phase = Phase::Stamping;
            },
            (Phase::Closing, Event::Clock { now_ns, .. }) => {
                self.close_expired(now_ns);
                if self.burst_pending {
                    self.phase = Phase::BurstCheck;
                } else {
                    self.take_work();
                }
            },
            (Phase::BurstCheck, Event::Clock { elapsed, .. }) => match self.burst {
                Some(b) => {
                    if elapsed >= b.at {
                        self.burst_pending = false;
                        self.backlog = ids_of(&self.open);
                        self.phase = Phase::BurstStamp;
                    } else {
                        self.take_work();
                    }
                },
                None => {
                    self.take_work();
                },
            },
            (Phase::BurstStamp, Event::Clock { now_ns, .. }) => {
                self.trigger_ns = now_ns;
                self.take_work();
            },
            (Phase::Polling, Event::Polled { batch }) => {
                let jobs: Vec<Job> = accept_jobs(&batch);
                self.with_batch(jobs);
            },
            (Phase::ServeStart, Event::Clock { now_ns, .. }) => {
                self.phase = Phase::Serving { dequeue_ns: now_ns };
            },
            (Phase::Serving { dequeue_ns }, Event::Slept) => {
                self.phase = Phase::ServeDone { dequeue_ns };
            },
            (Phase::ServeDone { dequeue_ns }, Event::Clock { now_ns, .. }) => {
                self.finish_job(dequeue_ns, now_ns);
            },
            (Phase::Surveying, Event::Surveyed { now_ns, snapshots }) => {
                let r: ScheduleResult = schedule_from_snapshots(
                    &snapshots,
                    now_ns,
                    HANG_THRESHOLD_NS,
                );
                self.result = Some(r);
                self.phase = Phase::Publishing { bitmap: r.bitmap };
            },
            (Phase::Publishing { .. }, Event::Published) => {
                self.phase = Phase::Sampling;
            },
            (Phase::Sampling, Event::Sampled { now_ns, snapshots, queue_len }) => {
                self.shards.ticks.push(
                    TickRow {
                        timestamp_ns: now_ns,
                        worker_id: self.worker_id,
                        iter: self.iter,
                        snapshots,
                        queue_len,
                        result: self.result,
                        policy: self.policy,
                    },
                );
                self.phase = Phase::Asking;
            },
            (Phase::Asking, Event::Asked { shutdown, queue_empty }) => {
                if shutdown && queue_empty && self.backlog.len() == 0 {
                    self.phase = Phase::Stopped;
                } else {
                    self.iter = self.iter.wrapping_add(1);
                    self.phase = Phase::Stamping;
                }
            },
            _ => {},
        }
        assert(self@ =~= after(before, event));
    }

    /// Closes the connections whose lifetime is over.
    fn close_expired(&mut self, now_ns: i64)
        ensures
            final(self)@ == (WorkerState {
                open: still_open(old(self)@.open, now_ns),
                slot: slot_with(
                    old(self)@.slot,
                    old(self)@.slot.pending_events as int,
                    old(self)@.slot.accumulated_conns - (old(self)@.open.len() - still_open(
                        old(self)@.open,
                        now_ns,
                    ).len()),
                ),
                ..old(self)@
            }),
    {
        let ghost before = self@;
        let ghost keep = |c: OpenConn| c.deadline_ns > now_ns;
        let mut kept: Vec<OpenConn> = Vec::new();
        let mut i: usize = 0;
        proof {
            reveal(Seq::filter);
            assert(before.open.take(0) =~= Seq::empty());
            lemma_wrap_same(before.slot.accumulated_conns);
            lemma_wrap_same(before.slot.pending_events);
        }
        while i < self.open.len()
            invariant
                i <= before.open.len(),
                keep == (|c: OpenConn| c.deadline_ns > now_ns),
                kept@ == before.open.take(i as int).filter(keep),
                kept@.len() <= i,
                self@ == (WorkerState {
                    slot: WorkerSlot {
                        accumulated_conns: wrap64(
                            before.slot.accumulated_conns - (i - kept@.len()),
                        ),
                        ..before.slot
                    },
                    ..before
                }),
            decreases before.open.len() - i,
        {
            let c: OpenConn = self.open[i];
            proof {
                reveal(Seq::filter);
                assert(before.open.take(i + 1).drop_last() =~= before.open.take(i as int));
                assert(before.open.take(i + 1).last() == c);
            }
            if c.deadline_ns > now_ns as i128 {
                kept.push(c);
            } else {
                proof {
                    lemma_wrap_step(before.slot.accumulated_conns - (i - kept@.len()), -1);
                }
                self.slot.accumulated_conns = wrapping_dec(self.slot.accumulated_conns);
            }
            i = i + 1;
        }
        assert(before.open.take(i as int) =~= before.open);
        self.open = kept;
    }

    /// Takes up a batch: from the burst's backlog while that lasts, else from the accept queue.
    fn take_work(&mut self)
        requires
            old(self)@.slot.pending_events == 0,
        ensures
            final(self)@ == take_work(old(self)@),
    {
        let ghost before = self@;
        match self.burst {
            Some(b) => {
                if self.backlog.len() > 0 {
                    let n: usize = if self.backlog.len() < MAX_EVENTS {
                        self.backlog.len()
                    } else {
                        MAX_EVENTS
                    };
                    let rest: Vec<u64> = self.backlog.split_off(n);
                    let jobs: Vec<Job> = burst_jobs(&self.backlog, self.trigger_ns, b.service);
                    self.backlog = rest;
                    assert(before.backlog.take(n as int) =~= before.backlog.subrange(0, n as int));
                    assert(self.backlog@ =~= before.backlog.skip(n as int));
                    assert(jobs@ =~= before.backlog.take(n as int).map_values(
                        |id: u64| burst_job(id, before.trigger_ns, b.service),
                    ));
                    assert(self@ =~= (WorkerState { backlog: before.backlog.skip(n as int), ..before }));
                    self.with_batch(jobs);
                } else {
                    self.phase = Phase::Polling;
                }
            },
            None => {
                self.phase = Phase::Polling;
            },
        }
    }

    /// Takes up a batch.
    fn with_batch(&mut self, jobs: Vec<Job>)
        requires
            old(self)@.slot.pending_events == 0,
            jobs@.len() <= MAX_EVENTS,
        ensures
            final(self)@ == with_batch(old(self)@, jobs@),
    {
        let ghost before = self@;
        proof {
            lemma_wrap_same(before.slot.accumulated_conns);
            lemma_wrap_same(jobs@.len() as i64);
        }
        self.slot.pending_events = self.slot.pending_events + jobs.len() as i64;
        self.jobs = jobs;
        self.next_job();
    }

    /// Takes up the next event of the batch, or ends the iteration.
    fn next_job(&mut self)
        ensures
            final(self)@ == next_job(old(self)@),
    {
        if self.jobs.len() == 0 {
            match self.policy {
                Policy::Hermes => {
                    self.phase = Phase::Surveying;
                },
                _ => {
                    self.result = None;
                    self.phase = Phase::Sampling;
                },
            }
        } else {
            proof {
                lemma_wrap_same(self.slot.pending_events);
            }
            match self.jobs[0].kind {
                JobKind::Accept { .. } => {
                    self.slot.accumulated_conns = wrapping_inc(self.slot.accumulated_conns);
                },
                JobKind::Burst => {},
            }
            self.phase = Phase::ServeStart;
        }
    }

    /// Records the current event as done and takes up the next.
    fn finish_job(&mut self, dequeue_ns: i64, now_ns: i64)
        requires
            worker_inv(old(self)@),
            old(self)@.phase == (Phase::ServeDone { dequeue_ns }),
        ensures
            final(self)@ == after(old(self)@, Event::Clock { now_ns, elapsed: 0 }),
    {
        let ghost before = self@;
        proof {
            lemma_wrap_same(before.slot.accumulated_conns);
            lemma_wrap_same((before.slot.pending_events - 1) as i64);
        }
        let job: Job = self.jobs.remove(0);
        assert(self.jobs@ =~= before.jobs.skip(1));
        self.slot.pending_events = self.slot.pending_events - 1;
        let kind: &'static str = match job.kind {
            JobKind::Accept { lifetime_ms } => {
                self.open.push(
                    OpenConn {
                        conn_id: job.conn_id,
                        deadline_ns: now_ns as i128 + lifetime_ms as i128 * 1_000_000,
                    },
                );
                "accept"
            },
            JobKind::Burst => "burst",
        };
        self.shards.conns.push(
            ConnRow {
                conn_id: job.conn_id,
                worker_id: self.worker_id,
                arrival_ns: job.arrival_ns,
                dequeue_ns,
                done_ns: now_ns,
                service_us: job.service_us,
                policy: self.policy,
                kind,
            },
        );
        self.next_job();
    }
}

/// The ids of a list of connections.
fn ids_of(open: &Vec<OpenConn>) -> (ids: Vec<u64>)
    ensures
        ids@ == open@.map_values(|c: OpenConn| c.conn_id),
{
    let mut ids: Vec<u64> = Vec::new();
    let mut i: usize = 0;
    while i < open.len()
        invariant
            i <= open@.len(),
            ids@ == open@.map_values(|c: OpenConn| c.conn_id).take(i as int),
        decreases open@.len() - i,
    {
        ids.push(open[i].conn_id);
        i = i + 1;
        assert(ids@ =~= open@.map_values(|c: OpenConn| c.conn_id).take(i as int));
    }
    assert(ids@ =~= open@.map_values(|c: OpenConn| c.conn_id));
    ids
}

/// The events that the connections of a batch are.
fn accept_jobs(batch: &Vec<ConnDesc>) -> (jobs: Vec<Job>)
    ensures
        jobs@ == batch@.map_values(|d: ConnDesc| accept_job(d)),
{
    let mut jobs: Vec<Job> = Vec::new();
    let mut i: usize = 0;
    while i < batch.len()
        invariant
            i <= batch@.len(),
            jobs@ == batch@.map_values(|d: ConnDesc| accept_job(d)).take(i as int),
        decreases batch@.len() - i,
    {
        let d: ConnDesc = batch[i];
        jobs.push(
            Job {
                conn_id: d.conn_id,
                arrival_ns: d.arrival_ns,
                service: d.service_us as u128 * 1_000,
                service_us: d.service_us,
                kind: JobKind::Accept { lifetime_ms: d.lifetime_ms },
            },
        );
        i = i + 1;
        assert(jobs@ =~= batch@.map_values(|d: ConnDesc| accept_job(d)).take(i as int));
    }
    assert(jobs@ =~= batch@.map_values(|d: ConnDesc| accept_job(d)));
    jobs
}

/// The events that the requests of a burst are.
fn burst_jobs(ids: &Vec<u64>, trigger_ns: i64, service: u128) -> (jobs: Vec<Job>)
    ensures
        jobs@ == ids@.map_values(|id: u64| burst_job(id, trigger_ns, service)),
{
    let mut jobs: Vec<Job> = Vec::new();
    let mut i: usize = 0;
    while i < ids.len()
        invariant
            i <= ids@.len(),
            jobs@ == ids@.map_values(|id: u64| burst_job(id, trigger_ns, service)).take(i as int),
        decreases ids@.len() - i,
    {
        jobs.push(
            Job {
                conn_id: ids[i],
                arrival_ns: trigger_ns,
                service,
                service_us: as_micros32(service),
                kind: JobKind::Burst,
            },
        );
        i = i + 1;
        assert(jobs@ =~= ids@.map_values(|id: u64| burst_job(id, trigger_ns, service)).take(
            i as int,
        ));
    }
    assert(jobs@ =~= ids@.map_values(|id: u64| burst_job(id, trigger_ns, service)));
    jobs
}

/// A number that fits stays as it is.
pub proof fn lemma_wrap_same(x: i64)
    ensures
        wrap64(x as int) == x,
{
}

/// Wrapping in between changes nothing.
pub proof fn lemma_wrap_step(n: int, d: int)
    ensures
        wrap64(wrap64(n) + d) == wrap64(n + d),
{
}

/// What is asked of an event: a batch has at most the agreed number of connections.
pub open spec fn event_ok(e: Event) -> bool {
    e matches Event::Polled { batch } ==> batch@.len() <= MAX_EVENTS
}

/// Whatever happens, the published counts stay true: pending events are those taken up and not yet
/// handled, and the connection count is the number of connections held.
pub proof fn law_worker_counts(s: WorkerState, e: Event)
    requires
        worker_inv(s),
        event_ok(e),
    ensures
        worker_inv(after(s, e)),
{
    lemma_wrap_same(s.slot.pending_events);
    lemma_wrap_same(s.slot.accumulated_conns);
    match (s.phase, e) {
        (Phase::Closing, Event::Clock { now_ns, .. }) => {
            s.open.lemma_filter_len(|c: OpenConn| c.deadline_ns > now_ns);
            let open = still_open(s.open, now_ns);
            lemma_wrap_step(s.open.len() as int, open.len() - s.open.len());
            let t = WorkerState {
                open,
                slot: slot_with(
                    s.slot,
                    s.slot.pending_events as int,
                    s.slot.accumulated_conns - (s.open.len() - open.len()),
                ),
                ..s
            };
            if !s.burst_pending {
                lemma_take_work(t);
            }
        },
        (Phase::BurstCheck, Event::Clock { .. }) => {
            lemma_take_work(s);
        },
        (Phase::BurstStamp, Event::Clock { now_ns, .. }) => {
            lemma_take_work(WorkerState { trigger_ns: now_ns, ..s });
        },
        (Phase::Polling, Event::Polled { batch }) => {
            lemma_with_batch(s, batch@.map_values(|d: ConnDesc| accept_job(d)));
        },
        (Phase::ServeDone { dequeue_ns }, Event::Clock { now_ns, .. }) => {
            let t = WorkerState {
                slot: slot_with(
                    s.slot,
                    s.slot.pending_events - 1,
                    s.slot.accumulated_conns as int,
                ),
                open: open_after(s, now_ns),
                conns: s.conns.push(row_of(s, dequeue_ns, now_ns)),
                jobs: s.jobs.skip(1),
                ..s
            };
            lemma_wrap_same((s.slot.pending_events - 1) as i64);
            assert(t.open.len() == held(s));
            lemma_wrap_step(t.open.len() as int, 1);
        },
        _ => {},
    }
}

proof fn lemma_with_batch(s: WorkerState, jobs: Seq<Job>)
    requires
        s.slot.pending_events == 0,
        s.slot.accumulated_conns == wrap64(s.open.len() as int),
        jobs.len() <= MAX_EVENTS,
        s.burst_pending ==> s.burst.is_some() && s.backlog.len() == 0,
        s.backlog.len() > 0 ==> s.burst.is_some(),
    ensures
        worker_inv(with_batch(s, jobs)),
{
    lemma_wrap_same(s.slot.accumulated_conns);
    lemma_wrap_same(jobs.len() as i64);
    lemma_wrap_step(s.open.len() as int, 1);
}

proof fn lemma_take_work(s: WorkerState)
    requires
        s.slot.pending_events == 0,
        s.jobs.len() == 0,
        s.slot.accumulated_conns == wrap64(s.open.len() as int),
        s.burst_pending ==> s.burst.is_some() && s.backlog.len() == 0,
        s.backlog.len() > 0 ==> s.burst.is_some(),
    ensures
        worker_inv(take_work(s)),
{
    match s.burst {
        Some(b) => {
            if s.backlog.len() > 0 {
                let n = batch_of(s.backlog);
                lemma_with_batch(
                    WorkerState { backlog: s.backlog.skip(n), ..s },
                    s.backlog.take(n).map_values(|id: u64| burst_job(id, s.trigger_ns, b.service)),
                );
            }
        },
        None => {},
    }
}

/// The connections of the rows of new connections, in order.
pub open spec fn accepted_rows(rows: Seq<ConnRow>) -> Seq<u64>
    decreases rows.len(),
{
    if rows.len() == 0 {
        Seq::empty()
    } else if rows.last().kind@ == "accept"@ {
        accepted_rows(rows.drop_last()).push(rows.last().conn_id)
    } else {
        accepted_rows(rows.drop_last())
    }
}

/// The connections of the rows of a burst, in order.
pub open spec fn burst_rows(rows: Seq<ConnRow>) -> Seq<u64>
    decreases rows.len(),
{
    if rows.len() == 0 {
        Seq::empty()
    } else if rows.last().kind@ == "burst"@ {
        burst_rows(rows.drop_last()).push(rows.last().conn_id)
    } else {
        burst_rows(rows.drop_last())
    }
}

/// The connections of the new connections among the events, in order.
pub open spec fn accepted_jobs(jobs: Seq<Job>) -> Seq<u64>
    decreases jobs.len(),
{
    if jobs.len() == 0 {
        Seq::empty()
    } else if jobs[0].kind != JobKind::Burst {
        seq![jobs[0].conn_id] + accepted_jobs(jobs.skip(1))
    } else {
        accepted_jobs(jobs.skip(1))
    }
}

/// The connections of the burst's requests among the events, in order.
pub open spec fn bursting_jobs(jobs: Seq<Job>) -> Seq<u64>
    decreases jobs.len(),
{
    if jobs.len() == 0 {
        Seq::empty()
    } else if jobs[0].kind == JobKind::Burst {
        seq![jobs[0].conn_id] + bursting_jobs(jobs.skip(1))
    } else {
        bursting_jobs(jobs.skip(1))
    }
}

/// The new connections that a worker has recorded or has in work.
pub open spec fn accepted_so_far(s: WorkerState) -> Seq<u64> {
    accepted_rows(s.conns) + accepted_jobs(s.jobs)
}

/// The burst's requests that a worker has recorded, has in work, or still has to take up.
pub open spec fn burst_so_far(s: WorkerState) -> Seq<u64> {
    burst_rows(s.conns) + bursting_jobs(s.jobs) + s.backlog
}

/// The connections that an event hands to a worker.
pub open spec fn handed_over(s: WorkerState, e: Event) -> Seq<u64> {
    match (s.phase, e) {
        (Phase::Polling, Event::Polled { batch }) => batch@.map_values(|d: ConnDesc| d.conn_id),
        _ => Seq::empty(),
    }
}

/// The requests that a burst makes with an event.
pub open spec fn burst_fired(s: WorkerState, e: Event) -> Seq<u64> {
    match (s.phase, e) {
        (Phase::BurstCheck, Event::Clock { elapsed, .. }) => if s.burst.is_some() && elapsed
            >= s.burst.unwrap().at {
            s.open.map_values(|c: OpenConn| c.conn_id)
        } else {
            Seq::empty()
        },
        _ => Seq::empty(),
    }
}

/// A worker works on exactly what it is handed: each connection is recorded once, in the order of
/// the queue, and none is lost in between.
pub proof fn law_accepted_work_is_conserved(s: WorkerState, e: Event)
    requires
        worker_inv(s),
        event_ok(e),
    ensures
        accepted_so_far(after(s, e)) == accepted_so_far(s) + handed_over(s, e),
{
    let t = after(s, e);
    match (s.phase, e) {
        (Phase::Polling, Event::Polled { batch }) => {
            lemma_accept_batch(batch@);
            assert(s.jobs =~= Seq::empty());
            assert(accepted_so_far(t) =~= accepted_so_far(s) + handed_over(s, e));
        },
        (Phase::ServeDone { dequeue_ns }, Event::Clock { now_ns, .. }) => {
            lemma_served_row(s.conns, row_of(s, dequeue_ns, now_ns));
            assert(t.conns == s.conns.push(row_of(s, dequeue_ns, now_ns)));
            assert(t.jobs == s.jobs.skip(1));
            assert(accepted_so_far(t) =~= accepted_so_far(s) + handed_over(s, e));
        },
        (Phase::Closing, Event::Clock { .. }) | (Phase::BurstCheck, Event::Clock { .. }) | (
            Phase::BurstStamp,
            Event::Clock { .. },
        ) => {
            assert(s.jobs =~= Seq::empty());
            lemma_taken_work_is_burst(s, e);
            assert(accepted_so_far(t) =~= accepted_so_far(s) + handed_over(s, e));
        },
        _ => {
            assert(t.jobs == s.jobs && t.conns == s.conns);
            assert(accepted_so_far(t) =~= accepted_so_far(s) + handed_over(s, e));
        },
    }
}

/// A burst makes one request on each connection that is open when it fires, and each of them is
/// recorded once.
pub proof fn law_burst_work_is_conserved(s: WorkerState, e: Event)
    requires
        worker_inv(s),
        event_ok(e),
    ensures
        burst_so_far(after(s, e)) == burst_so_far(s) + burst_fired(s, e),
{
    let t = after(s, e);
    match (s.phase, e) {
        (Phase::Polling, Event::Polled { batch }) => {
            lemma_accept_batch(batch@);
            assert(s.jobs =~= Seq::empty());
            assert(burst_so_far(t) =~= burst_so_far(s) + burst_fired(s, e));
        },
        (Phase::ServeDone { dequeue_ns }, Event::Clock { now_ns, .. }) => {
            lemma_served_row(s.conns, row_of(s, dequeue_ns, now_ns));
            assert(t.conns == s.conns.push(row_of(s, dequeue_ns, now_ns)));
            assert(t.jobs == s.jobs.skip(1));
            assert(burst_so_far(t) =~= burst_so_far(s) + burst_fired(s, e));
        },
        (Phase::Closing, Event::Clock { .. }) | (Phase::BurstCheck, Event::Clock { .. }) | (
            Phase::BurstStamp,
            Event::Clock { .. },
        ) => {
            assert(s.jobs =~= Seq::empty());
            lemma_taken_work_is_burst(s, e);
            assert(burst_so_far(t) =~= burst_so_far(s) + burst_fired(s, e));
        },
        _ => {
            assert(t.jobs == s.jobs && t.conns == s.conns && t.backlog == s.backlog);
            assert(burst_so_far(t) =~= burst_so_far(s) + burst_fired(s, e));
        },
    }
}

/// A row goes to the rows of its kind.
proof fn lemma_served_row(rows: Seq<ConnRow>, row: ConnRow)
    requires
        row.kind@ == "accept"@ || row.kind@ == "burst"@,
    ensures
        accepted_rows(rows.push(row)) == (if row.kind@ == "accept"@ {
            accepted_rows(rows).push(row.conn_id)
        } else {
            accepted_rows(rows)
        }),
        burst_rows(rows.push(row)) == (if row.kind@ == "burst"@ {
            burst_rows(rows).push(row.conn_id)
        } else {
            burst_rows(rows)
        }),
        "accept"@ != "burst"@,
{
    reveal_strlit("accept");
    reveal_strlit("burst");
    assert("accept"@.len() == 6 && "burst"@.len() == 5);
    assert(rows.push(row).drop_last() =~= rows);
}

proof fn lemma_accept_batch(batch: Seq<ConnDesc>)
    ensures
        accepted_jobs(batch.map_values(|d: ConnDesc| accept_job(d))) == batch.map_values(
            |d: ConnDesc| d.conn_id,
        ),
        bursting_jobs(batch.map_values(|d: ConnDesc| accept_job(d))) == Seq::<u64>::empty(),
    decreases batch.len(),
{
    let jobs = batch.map_values(|d: ConnDesc| accept_job(d));
    if batch.len() > 0 {
        lemma_accept_batch(batch.skip(1));
        assert(jobs.skip(1) =~= batch.skip(1).map_values(|d: ConnDesc| accept_job(d)));
        assert(batch.map_values(|d: ConnDesc| d.conn_id) =~= seq![batch[0].conn_id] + batch.skip(
            1,
        ).map_values(|d: ConnDesc| d.conn_id));
    } else {
        assert(batch.map_values(|d: ConnDesc| d.conn_id) =~= Seq::empty());
    }
}

proof fn lemma_burst_batch(ids: Seq<u64>, trigger_ns: i64, service: u128)
    ensures
        bursting_jobs(ids.map_values(|id: u64| burst_job(id, trigger_ns, service))) == ids,
        accepted_jobs(ids.map_values(|id: u64| burst_job(id, trigger_ns, service))) == Seq::<
            u64,
        >::empty(),
    decreases ids.len(),
{
    let jobs = ids.map_values(|id: u64| burst_job(id, trigger_ns, service));
    if ids.len() > 0 {
        lemma_burst_batch(ids.skip(1), trigger_ns, service);
        assert(jobs.skip(1) =~= ids.skip(1).map_values(
            |id: u64| burst_job(id, trigger_ns, service),
        ));
        assert(ids =~= seq![ids[0]] + ids.skip(1));
    } else {
        assert(ids =~= Seq::empty());
    }
}

/// What a worker takes up by itself is a part of the burst's backlog.
proof fn lemma_taken_work_is_burst(s: WorkerState, e: Event)
    requires
        worker_inv(s),
        s.jobs.len() == 0,
        s.phase == Phase::Closing || s.phase == Phase::BurstCheck || s.phase == Phase::BurstStamp,
        e is Clock,
    ensures
        after(s, e).conns == s.conns,
        accepted_jobs(after(s, e).jobs) == Seq::<u64>::empty(),
        bursting_jobs(after(s, e).jobs) + after(s, e).backlog == s.backlog + burst_fired(s, e),
{
    let t = after(s, e);
    let all = s.backlog + burst_fired(s, e);
    assert(s.jobs =~= Seq::empty());
    if t.jobs.len() > 0 {
        let b = s.burst.unwrap();
        let n = batch_of(s.backlog);
        lemma_burst_batch(s.backlog.take(n), t.trigger_ns, b.service);
        assert(s.backlog.take(n) + s.backlog.skip(n) =~= s.backlog);
        assert(burst_fired(s, e) =~= Seq::empty());
        assert(s.backlog + Seq::<u64>::empty() =~= s.backlog);
    } else {
        assert(t.jobs =~= Seq::empty());
        assert(Seq::<u64>::empty() + t.backlog =~= t.backlog);
        assert(t.backlog =~= all);
    }
}

/// The state after a run of events.
pub open spec fn run_of(s: WorkerState, events: Seq<Event>) -> WorkerState
    decreases events.len(),
{
    if events.len() == 0 {
        s
    } else {
        after(run_of(s, events.drop_last()), events.last())
    }
}

/// The connections that a run of events hands to a worker.
pub open spec fn handed_over_in(s: WorkerState, events: Seq<Event>) -> Seq<u64>
    decreases events.len(),
{
    if events.len() == 0 {
        Seq::empty()
    } else {
        handed_over_in(s, events.drop_last()) + handed_over(
            run_of(s, events.drop_last()),
            events.last(),
        )
    }
}

/// A worker that has stopped has recorded every connection it was handed, once and in order.
pub proof fn law_stopped_worker_recorded_all(
    worker_id: usize,
    hang: Option<HangSpec>,
    burst: Option<BurstSpec>,
    policy: Policy,
    events: Seq<Event>,
)
    requires
        forall|i: int| 0 <= i < events.len() ==> event_ok(#[trigger] events[i]),
    ensures
        worker_inv(run_of(start_of(worker_id, hang, burst, policy), events)),
        accepted_so_far(run_of(start_of(worker_id, hang, burst, policy), events))
            == handed_over_in(start_of(worker_id, hang, burst, policy), events),
        run_of(start_of(worker_id, hang, burst, policy), events).phase == Phase::Stopped
            ==> accepted_rows(run_of(start_of(worker_id, hang, burst, policy), events).conns)
            == handed_over_in(start_of(worker_id, hang, burst, policy), events),
{
    let s = start_of(worker_id, hang, burst, policy);
    assert(accepted_so_far(s) =~= Seq::empty());
    lemma_run_conserves(s, events);
    let t = run_of(s, events);
    if t.phase == Phase::Stopped {
        assert(t.jobs =~= Seq::empty());
        assert(accepted_so_far(t) =~= accepted_rows(t.conns));
    }
}

proof fn lemma_run_conserves(s: WorkerState, events: Seq<Event>)
    requires
        worker_inv(s),
        accepted_so_far(s) == Seq::<u64>::empty(),
        forall|i: int| 0 <= i < events.len() ==> event_ok(#[trigger] events[i]),
    ensures
        worker_inv(run_of(s, events)),
        accepted_so_far(run_of(s, events)) == handed_over_in(s, events),
    decreases events.len(),
{
    if events.len() > 0 {
        let rest = events.drop_last();
        let last = events.last();
        assert forall|i: int| 0 <= i < rest.len() implies event_ok(#[trigger] rest[i]) by {
            assert(rest[i] == events[i]);
        }
        lemma_run_conserves(s, rest);
        assert(event_ok(events[events.len() - 1]));
        let t = run_of(s, rest);
        law_worker_counts(t, last);
        law_accepted_work_is_conserved(t, last);
        assert(run_of(s, events) == after(t, last));
    }
}

/// A worker stops only once it is asked to, with its queue empty and the burst's backlog taken up.
pub proof fn law_worker_stops_when_done(s: WorkerState, e: Event)
    requires
        worker_inv(s),
        s.phase != Phase::Stopped,
        after(s, e).phase == Phase::Stopped,
    ensures
        s.phase == Phase::Asking,
        e == (Event::Asked { shutdown: true, queue_empty: true }),
        s.backlog.len() == 0,
        s.jobs.len() == 0,
{
}

/// Between two events of a batch, and at the end of every iteration, nothing is pending: the
/// published pending-event count is zero whenever the worker schedules, records or goes on.
pub proof fn law_iteration_leaves_nothing_pending(s: WorkerState)
    requires
        worker_inv(s),
        !in_service(s),
    ensures
        s.slot.pending_events == 0,
        s.slot.accumulated_conns == wrap64(s.open.len() as int),
        s.open.len() <= i64::MAX ==> s.slot.accumulated_conns == s.open.len(),
{
}

/// Only the loop entry is stamped: a worker that hangs or works keeps its old timestamp, which is
/// what makes a hang visible.
pub proof fn law_only_loop_entry_is_stamped(s: WorkerState, e: Event)
    requires
        s.phase != Phase::Stamping,
    ensures
        after(s, e).slot.last_loop_entry == s.slot.last_loop_entry,
{
}

/// Only under the full policy does a worker schedule and publish: under a baseline it never does,
/// and its rows have no pass.
pub proof fn law_baselines_have_no_scheduler(s: WorkerState, e: Event)
    requires
        s.policy != Policy::Hermes,
        !(s.phase is Surveying) && !(s.phase is Publishing),
        s.result.is_none(),
        forall|i: int| 0 <= i < s.ticks.len() ==> (#[trigger] s.ticks[i]).result.is_none(),
    ensures
        !(after(s, e).phase is Surveying) && !(after(s, e).phase is Publishing),
        after(s, e).result.is_none(),
        forall|i: int|
            0 <= i < after(s, e).ticks.len() ==> (#[trigger] after(s, e).ticks[i]).result.is_none(),
{
}

/// Under the full policy every iteration schedules before it is recorded, and publishes the bitmap
/// of that pass.
pub proof fn law_hermes_schedules_every_iteration(s: WorkerState, e: Event)
    requires
        s.policy == Policy::Hermes,
        worker_inv(s),
    ensures
        after(s, e).phase == Phase::Sampling && s.phase != Phase::Sampling
            ==> s.phase is Publishing,
        after(s, e).phase is Publishing && !(s.phase is Publishing) ==> (
        after(s, e).result matches Some(r) && after(s, e).phase == (Phase::Publishing {
            bitmap: r.bitmap,
        })),
{
}

/// A hang happens once: it is due at its time, and is over when the sleep ends.
pub proof fn law_hang_happens_once(s: WorkerState, e: Event)
    ensures
        s.hang.is_none() ==> after(s, e).hang.is_none(),
        after(s, e).phase is Hanging && !(s.phase is Hanging) ==> after(s, e).hang.is_none() && (
        e matches Event::Clock { elapsed, .. } && s.hang matches Some(h) && elapsed >= h.at),
{
}

/// After closing, every connection left open has its deadline ahead, and none with its deadline
/// ahead was closed.
pub proof fn law_closing_follows_deadlines(open: Seq<OpenConn>, now_ns: i64)
    ensures
        forall|c: OpenConn| #[trigger]
            still_open(open, now_ns).contains(c) <==> open.contains(c) && c.deadline_ns > now_ns,
    decreases open.len(),
{
    reveal(Seq::filter);
    let keep = |c: OpenConn| c.deadline_ns > now_ns;
    if open.len() > 0 {
        let rest = open.drop_last();
        let last = open.last();
        law_closing_follows_deadlines(rest, now_ns);
        let f = still_open(rest, now_ns);
        let g = still_open(open, now_ns);
        assert forall|c: OpenConn| #[trigger] g.contains(c) <==> open.contains(c) && c.deadline_ns
            > now_ns by {
            assert(f.contains(c) <==> rest.contains(c) && c.deadline_ns > now_ns);
            if g.contains(c) {
                let k = choose|k: int| 0 <= k < g.len() && g[k] == c;
                if k < f.len() {
                    assert(f[k] == c);
                    assert(f.contains(c));
                    let j = choose|j: int| 0 <= j < rest.len() && rest[j] == c;
                    assert(open[j] == c);
                } else {
                    assert(open[open.len() - 1] == c);
                }
            }
            if open.contains(c) && c.deadline_ns > now_ns {
                let k = choose|k: int| 0 <= k < open.len() && open[k] == c;
                if k < rest.len() {
                    assert(rest[k] == c);
                    assert(f.contains(c));
                    let j = choose|j: int| 0 <= j < f.len() && f[j] == c;
                    assert(g[j] == c);
                } else {
                    assert(g[g.len() - 1] == c);
                }
            }
        }
    }
}

/// Whether a connection is among the open ones.
pub open spec fn is_open(s: WorkerState, conn_id: u64) -> bool {
    exists|i: int| 0 <= i < s.open.len() && (#[trigger] s.open[i]).conn_id == conn_id
}

/// Whether an event hands a connection over.
pub open spec fn hands_over(e: Event, conn_id: u64) -> bool {
    e matches Event::Polled { batch } && exists|i: int|
        0 <= i < batch@.len() && (#[trigger] batch@[i]).conn_id == conn_id
}

/// Whether the worker is at work on a batch from the first to the last state of a run.
pub open spec fn serves_throughout(s: WorkerState, events: Seq<Event>) -> bool {
    forall|k: int| 0 <= k <= events.len() ==> in_service(run_of(s, #[trigger] events.take(k)))
}

/// Whether no clock reading at which a run closes connections is later than `u`.
pub open spec fn closes_by(s: WorkerState, events: Seq<Event>, u: i64) -> bool {
    forall|k: int|
        0 <= k < events.len() ==> (run_of(s, events.take(k)).phase == Phase::Closing ==> (
        #[trigger] events[k] matches Event::Clock { now_ns, .. } ==> now_ns <= u))
}

/// Every entry for a connection has the deadline, and none of the events at hand opens another.
spec fn only_deadline(s: WorkerState, conn_id: u64, deadline: int) -> bool {
    &&& forall|i: int|
        0 <= i < s.open.len() && (#[trigger] s.open[i]).conn_id == conn_id
            ==> s.open[i].deadline_ns == deadline
    &&& forall|i: int|
        0 <= i < s.jobs.len() && (#[trigger] s.jobs[i]).kind != JobKind::Burst
            ==> s.jobs[i].conn_id != conn_id
}

#[verifier::rlimit(50)]
#[verifier::spinoff_prover]
proof fn lemma_only_deadline(s: WorkerState, e: Event, conn_id: u64, deadline: int)
    requires
        worker_inv(s),
        only_deadline(s, conn_id, deadline),
        !hands_over(e, conn_id),
    ensures
        only_deadline(after(s, e), conn_id, deadline),
{
    let t = after(s, e);
    match (s.phase, e) {
        (Phase::Closing, Event::Clock { now_ns, .. }) => {
            law_closing_follows_deadlines(s.open, now_ns);
            let f = still_open(s.open, now_ns);
            assert forall|i: int| 0 <= i < t.open.len() && (#[trigger] t.open[i]).conn_id
                == conn_id implies t.open[i].deadline_ns == deadline by {
                assert(t.open[i] == f[i]);
                assert(f.contains(f[i]));
                assert(s.open.contains(f[i]));
            }
        },
        (Phase::Polling, Event::Polled { batch }) => {
            assert forall|i: int| 0 <= i < t.jobs.len() && (#[trigger] t.jobs[i]).kind
                != JobKind::Burst implies t.jobs[i].conn_id != conn_id by {
                assert(t.jobs[i] == accept_job(batch@[i]));
            }
        },
        (Phase::ServeDone { dequeue_ns }, Event::Clock { now_ns, .. }) => {
            assert(s.jobs[0].kind != JobKind::Burst ==> s.jobs[0].conn_id != conn_id);
            let o = open_after(s, now_ns);
            assert forall|i: int| 0 <= i < o.len() && (#[trigger] o[i]).conn_id
                == conn_id implies o[i].deadline_ns == deadline by {
                if i < s.open.len() {
                    assert(o[i] == s.open[i]);
                }
            }
            assert forall|i: int| 0 <= i < t.jobs.len() && (#[trigger] t.jobs[i]).kind
                != JobKind::Burst implies t.jobs[i].conn_id != conn_id by {
                assert(t.jobs[i] == s.jobs[i + 1]);
            }
        },
        _ => {},
    }
}

proof fn lemma_entry_stays(s: WorkerState, e: Event, c: OpenConn)
    requires
        s.open.contains(c),
        s.phase == Phase::Closing ==> (e matches Event::Clock { now_ns, .. } ==> now_ns
            < c.deadline_ns),
    ensures
        after(s, e).open.contains(c),
{
    match (s.phase, e) {
        (Phase::Closing, Event::Clock { now_ns, .. }) => {
            law_closing_follows_deadlines(s.open, now_ns);
            assert(still_open(s.open, now_ns).contains(c));
        },
        (Phase::ServeDone { dequeue_ns }, Event::Clock { now_ns, .. }) => {
            let i = choose|i: int| 0 <= i < s.open.len() && s.open[i] == c;
            assert(open_after(s, now_ns)[i] == c);
        },
        _ => {},
    }
}

/// Over a run that hands the connection over no more, its entry keeps its deadline, and stays as
/// long as no closing comes at or after the deadline.
#[verifier::rlimit(50)]
#[verifier::spinoff_prover]
proof fn lemma_run_keeps_entry(
    s: WorkerState,
    events: Seq<Event>,
    c: OpenConn,
    u: i64,
)
    requires
        worker_inv(s),
        only_deadline(s, c.conn_id, c.deadline_ns as int),
        forall|i: int| 0 <= i < events.len() ==> event_ok(#[trigger] events[i]),
        forall|i: int| 0 <= i < events.len() ==> !hands_over(#[trigger] events[i], c.conn_id),
        closes_by(s, events, u),
    ensures
        worker_inv(run_of(s, events)),
        only_deadline(run_of(s, events), c.conn_id, c.deadline_ns as int),
        s.open.contains(c) && u < c.deadline_ns ==> run_of(s, events).open.contains(c),
    decreases events.len(),
{
    if events.len() > 0 {
        let rest = events.drop_last();
        let n = events.len() - 1;
        assert forall|i: int| 0 <= i < rest.len() implies event_ok(#[trigger] rest[i])
            && !hands_over(rest[i], c.conn_id) by {
            assert(rest[i] == events[i]);
        }
        assert(closes_by(s, rest, u)) by {
            assert forall|k: int| 0 <= k < rest.len() && run_of(s, rest.take(k)).phase
                == Phase::Closing && (#[trigger] rest[k]) is Clock implies rest[k]->Clock_now_ns
                <= u by {
                assert(rest.take(k) =~= events.take(k));
                assert(rest[k] == events[k]);
            }
        }
        lemma_run_keeps_entry(s, rest, c, u);
        let t = run_of(s, rest);
        assert(events.take(n) =~= rest);
        assert(events[n] == events.last());
        assert(event_ok(events[n]) && !hands_over(events[n], c.conn_id));
        law_worker_counts(t, events.last());
        lemma_only_deadline(t, events.last(), c.conn_id, c.deadline_ns as int);
        if t.open.contains(c) && u < c.deadline_ns {
            lemma_entry_stays(t, events.last(), c);
        }
    }
}

/// One step of a worker that is at work on a batch: the current event is done, or nothing changes in
/// the batch and among the open connections.
proof fn lemma_service_step(t: WorkerState, e: Event)
    requires
        worker_inv(t),
        in_service(t),
    ensures
        after(t, e).worker_id == t.worker_id,
        after(t, e).policy == t.policy,
        t.phase is ServeDone && e is Clock ==> after(t, e).jobs == t.jobs.skip(1) && after(t, e).open
            == open_after(t, e->Clock_now_ns),
        !(t.phase is ServeDone && e is Clock) ==> after(t, e).jobs == t.jobs && after(t, e).open
            == t.open,
{
}

/// While a batch is in work, the events that are left are its last ones, in order, and a connection
/// that none of the events done is about stays away from the open ones.
#[verifier::rlimit(50)]
#[verifier::spinoff_prover]
proof fn lemma_batch_in_work(s: WorkerState, events: Seq<Event>, jobs: Seq<Job>, id: u64)
    requires
        worker_inv(s),
        s.jobs == jobs,
        forall|i: int| 0 <= i < events.len() ==> event_ok(#[trigger] events[i]),
        serves_throughout(s, events),
    ensures
        worker_inv(run_of(s, events)),
        run_of(s, events).jobs.len() <= jobs.len(),
        run_of(s, events).jobs == jobs.skip(jobs.len() - run_of(s, events).jobs.len()),
        run_of(s, events).worker_id == s.worker_id,
        run_of(s, events).policy == s.policy,
        !is_open(s, id) && (forall|i: int|
            0 <= i < jobs.len() - run_of(s, events).jobs.len() ==> (#[trigger] jobs[i]).conn_id
                != id) ==> !is_open(run_of(s, events), id),
    decreases events.len(),
{
    if events.len() == 0 {
        assert(jobs.skip(0) =~= jobs);
    } else {
        let rest = events.drop_last();
        let n = events.len() - 1;
        assert forall|i: int| 0 <= i < rest.len() implies event_ok(#[trigger] rest[i]) by {
            assert(rest[i] == events[i]);
        }
        assert forall|k: int| 0 <= k <= rest.len() implies in_service(
            run_of(s, #[trigger] rest.take(k)),
        ) by {
            assert(rest.take(k) =~= events.take(k));
        }
        lemma_batch_in_work(s, rest, jobs, id);
        let t = run_of(s, rest);
        let e = events.last();
        assert(events.take(n) =~= rest);
        assert(in_service(run_of(s, events.take(n))));
        assert(event_ok(events[n]));
        law_worker_counts(t, e);
        let r = run_of(s, events);
        assert(r == after(t, e));
        lemma_service_step(t, e);
        lemma_batch_step(t, r, e, jobs, id);
        if !is_open(s, id) && (forall|i: int|
            0 <= i < jobs.len() - r.jobs.len() ==> (#[trigger] jobs[i]).conn_id != id) {
            assert(!is_open(t, id));
        }
    }
}

proof fn lemma_batch_step(t: WorkerState, r: WorkerState, e: Event, jobs: Seq<Job>, id: u64)
    requires
        t.jobs.len() > 0,
        t.jobs.len() <= jobs.len(),
        t.jobs == jobs.skip(jobs.len() - t.jobs.len()),
        t.phase is ServeDone && e is Clock ==> r.jobs == t.jobs.skip(1) && r.open == open_after(
            t,
            e->Clock_now_ns,
        ),
        !(t.phase is ServeDone && e is Clock) ==> r.jobs == t.jobs && r.open == t.open,
    ensures
        r.jobs.len() <= t.jobs.len(),
        r.jobs == jobs.skip(jobs.len() - r.jobs.len()),
        !is_open(t, id) && (forall|i: int|
            0 <= i < jobs.len() - r.jobs.len() ==> (#[trigger] jobs[i]).conn_id != id)
            ==> !is_open(r, id),
{
    let p = jobs.len() - t.jobs.len();
    assert(t.jobs[0] == jobs[p]);
    if t.phase is ServeDone && e is Clock {
        assert(r.jobs =~= jobs.skip(p + 1));
    }
    if is_open(r, id) && !is_open(t, id) {
        let i = choose|i: int| 0 <= i < r.open.len() && (#[trigger] r.open[i]).conn_id == id;
        if i < t.open.len() {
            assert(r.open[i] == t.open[i]);
        }
        assert(jobs[p].conn_id == id);
    }
}

/// The state at the end of a run on a batch, when the event of descriptor `j` is the current one.
proof fn lemma_descriptor_in_work(
    s: WorkerState,
    batch: Vec<ConnDesc>,
    j: int,
    serving: Seq<Event>,
)
    requires
        worker_inv(s),
        s.phase == Phase::Polling,
        batch@.len() <= 4,
        0 <= j < batch@.len(),
        forall|i: int| 0 <= i < serving.len() ==> event_ok(#[trigger] serving[i]),
        serves_throughout(after(s, Event::Polled { batch }), serving),
        run_of(after(s, Event::Polled { batch }), serving).jobs.len() == batch@.len() - j,
    ensures
        worker_inv(run_of(after(s, Event::Polled { batch }), serving)),
        run_of(after(s, Event::Polled { batch }), serving).worker_id == s.worker_id,
        run_of(after(s, Event::Polled { batch }), serving).policy == s.policy,
        forall|i: int|
            0 <= i < batch@.len() - j ==> (#[trigger] run_of(
                after(s, Event::Polled { batch }),
                serving,
            ).jobs[i]) == accept_job(batch@[j + i]),
        !is_open(s, batch@[j].conn_id) && (forall|i: int|
            0 <= i < j ==> (#[trigger] batch@[i]).conn_id != batch@[j].conn_id) ==> !is_open(
            run_of(after(s, Event::Polled { batch }), serving),
            batch@[j].conn_id,
        ),
{
    let polled = Event::Polled { batch };
    let jobs = batch@.map_values(|d: ConnDesc| accept_job(d));
    let id = batch@[j].conn_id;
    let a = after(s, polled);
    assert(event_ok(polled));
    law_worker_counts(s, polled);
    assert(a.jobs == jobs && a.open == s.open && a.worker_id == s.worker_id && a.policy
        == s.policy);
    lemma_batch_in_work(a, serving, jobs, id);
    let b = run_of(a, serving);
    assert(b.jobs == jobs.skip(j));
    if !is_open(s, id) && (forall|i: int|
        0 <= i < j ==> (#[trigger] batch@[i]).conn_id != id) {
        assert forall|i: int| 0 <= i < j implies (#[trigger] jobs[i]).conn_id != id by {
            assert(jobs[i] == accept_job(batch@[i]));
            assert(batch@[i].conn_id != id);
        }
        if is_open(a, id) {
            let i = choose|i: int| 0 <= i < a.open.len() && (#[trigger] a.open[i]).conn_id == id;
            assert(s.open[i].conn_id == id);
        }
    }
}

/// From the end of a request to a later closing: the entry that the request opened is there exactly
/// if the closing comes before its deadline.
#[verifier::rlimit(50)]
#[verifier::spinoff_prover]
proof fn lemma_done_to_closing(
    b: WorkerState,
    id: u64,
    l: u32,
    done: Event,
    later: Seq<Event>,
    closing: Event,
)
    requires
        worker_inv(b),
        b.phase is ServeDone,
        b.jobs[0].conn_id == id,
        b.jobs[0].kind == (JobKind::Accept { lifetime_ms: l }),
        forall|i: int| 1 <= i < b.jobs.len() ==> (#[trigger] b.jobs[i]).conn_id != id,
        !is_open(b, id),
        done is Clock,
        closing is Clock,
        forall|i: int| 0 <= i < later.len() ==> event_ok(#[trigger] later[i]),
        forall|i: int| 0 <= i < later.len() ==> !hands_over(#[trigger] later[i], id),
        run_of(after(b, done), later).phase == Phase::Closing,
        closes_by(after(b, done), later, closing->Clock_now_ns),
    ensures
        is_open(after(run_of(after(b, done), later), closing), id) <==> closing->Clock_now_ns
            < done->Clock_now_ns + l * 1_000_000,
{
    let t = done->Clock_now_ns;
    let u = closing->Clock_now_ns;
    let deadline = t + l * 1_000_000;
    let c = OpenConn { conn_id: id, deadline_ns: deadline as i128 };
    law_worker_counts(b, done);
    lemma_service_step(b, done);
    let d = after(b, done);
    assert(d.open == b.open.push(c));
    assert(d.open[b.open.len() as int] == c);
    assert(only_deadline(d, id, deadline)) by {
        assert forall|i: int| 0 <= i < d.open.len() && (#[trigger] d.open[i]).conn_id
            == id implies d.open[i].deadline_ns == deadline by {
            if i < b.open.len() {
                assert(d.open[i] == b.open[i]);
            }
        }
        assert forall|i: int| 0 <= i < d.jobs.len() && (#[trigger] d.jobs[i]).kind
            != JobKind::Burst implies d.jobs[i].conn_id != id by {
            assert(d.jobs[i] == b.jobs[i + 1]);
        }
    }
    lemma_run_keeps_entry(d, later, c, u);
    let f = run_of(d, later);
    let g = after(f, closing);
    law_closing_follows_deadlines(f.open, u);
    let kept = still_open(f.open, u);
    lemma_closing_step(f, closing);
    if u < deadline {
        assert(kept.contains(c));
        let i = choose|i: int| 0 <= i < kept.len() && kept[i] == c;
        assert(g.open[i].conn_id == id);
    }
    if is_open(g, id) {
        let i = choose|i: int| 0 <= i < g.open.len() && (#[trigger] g.open[i]).conn_id == id;
        assert(kept.contains(kept[i]));
        let k = choose|k: int| 0 <= k < f.open.len() && f.open[k] == kept[i];
        assert(f.open[k].deadline_ns == deadline);
    }
}

proof fn lemma_closing_step(f: WorkerState, e: Event)
    requires
        f.phase == Phase::Closing,
        e is Clock,
    ensures
        after(f, e).open == still_open(f.open, e->Clock_now_ns),
{
}

/// A connection stays open for its lifetime. Take a connection that was handed over with lifetime
/// `l` in milliseconds and whose request is done at time `t` in nanoseconds, and any later closing,
/// at a time `u` that is no earlier than the closings before it. The connection is among the open
/// ones after that closing exactly if `u < t + l * 1_000_000`. That holds whatever is in the batch
/// beside it and whatever happens in between, as long as its number is not handed over twice.
pub proof fn law_connection_stays_for_its_lifetime(
    s: WorkerState,
    batch: Vec<ConnDesc>,
    j: int,
    serving: Seq<Event>,
    done: Event,
    later: Seq<Event>,
    closing: Event,
)
    requires
        worker_inv(s),
        s.phase == Phase::Polling,
        batch@.len() <= 4,
        0 <= j < batch@.len(),
        !is_open(s, batch@[j].conn_id),
        forall|i: int|
            0 <= i < batch@.len() && i != j ==> (#[trigger] batch@[i]).conn_id != batch@[j].conn_id,
        forall|i: int| 0 <= i < serving.len() ==> event_ok(#[trigger] serving[i]),
        serves_throughout(after(s, Event::Polled { batch }), serving),
        run_of(after(s, Event::Polled { batch }), serving).phase is ServeDone,
        run_of(after(s, Event::Polled { batch }), serving).jobs.len() == batch@.len() - j,
        done is Clock,
        forall|i: int| 0 <= i < later.len() ==> event_ok(#[trigger] later[i]),
        forall|i: int|
            0 <= i < later.len() ==> !hands_over(#[trigger] later[i], batch@[j].conn_id),
        run_of(
            after(run_of(after(s, Event::Polled { batch }), serving), done),
            later,
        ).phase == Phase::Closing,
        closing is Clock,
        closes_by(
            after(run_of(after(s, Event::Polled { batch }), serving), done),
            later,
            closing->Clock_now_ns,
        ),
    ensures
        is_open(
            after(
                run_of(
                    after(run_of(after(s, Event::Polled { batch }), serving), done),
                    later,
                ),
                closing,
            ),
            batch@[j].conn_id,
        ) <==> closing->Clock_now_ns < done->Clock_now_ns + batch@[j].lifetime_ms * 1_000_000,
{
    let b = run_of(after(s, Event::Polled { batch }), serving);
    lemma_descriptor_in_work(s, batch, j, serving);
    assert(b.jobs[0] == accept_job(batch@[j + 0]));
    assert forall|i: int| 1 <= i < b.jobs.len() implies (#[trigger] b.jobs[i]).conn_id
        != batch@[j].conn_id by {
        assert(b.jobs[i] == accept_job(batch@[j + i]));
    }
    lemma_done_to_closing(b, batch@[j].conn_id, batch@[j].lifetime_ms, done, later, closing);
}

/// What a connection costs and leaves behind. While its request is processed the worker sleeps for
/// the service time it was handed over with, in microseconds, and what it records is the number and
/// arrival time of the connection, the times at which the request was taken up and done, that
/// service time, and the worker's own number and policy.
#[verifier::rlimit(50)]
#[verifier::spinoff_prover]
pub proof fn law_connection_is_served_as_handed_over(
    s: WorkerState,
    batch: Vec<ConnDesc>,
    j: int,
    serving: Seq<Event>,
    taken: Event,
    done: Event,
)
    requires
        worker_inv(s),
        s.phase == Phase::Polling,
        batch@.len() <= 4,
        0 <= j < batch@.len(),
        forall|i: int| 0 <= i < serving.len() ==> event_ok(#[trigger] serving[i]),
        serves_throughout(after(s, Event::Polled { batch }), serving),
        run_of(after(s, Event::Polled { batch }), serving).phase is ServeStart,
        run_of(after(s, Event::Polled { batch }), serving).jobs.len() == batch@.len() - j,
        taken is Clock,
        done is Clock,
    ensures
        wants_of(run_of(after(s, Event::Polled { batch }), serving)) == Action::ReadClock,
        wants_of(after(run_of(after(s, Event::Polled { batch }), serving), taken)) matches Action::Sleep {
            ns,
        } && ns == batch@[j].service_us * 1_000,
        wants_of(
            after(after(run_of(after(s, Event::Polled { batch }), serving), taken), Event::Slept),
        ) == Action::ReadClock,
        after(
            after(after(run_of(after(s, Event::Polled { batch }), serving), taken), Event::Slept),
            done,
        ).conns == run_of(after(s, Event::Polled { batch }), serving).conns.push(
            ConnRow {
                conn_id: batch@[j].conn_id,
                worker_id: s.worker_id,
                arrival_ns: batch@[j].arrival_ns,
                dequeue_ns: taken->Clock_now_ns,
                done_ns: done->Clock_now_ns,
                service_us: batch@[j].service_us,
                policy: s.policy,
                kind: "accept",
            },
        ),
{
    let b = run_of(after(s, Event::Polled { batch }), serving);
    lemma_descriptor_in_work(s, batch, j, serving);
    assert(b.jobs[0] == accept_job(batch@[j + 0]));
    lemma_serve_one(b, taken, done);
    assert(after(after(b, taken), Event::Slept).phase is ServeDone);
}

/// A burst puts one request of every open connection into the backlog once it is due, and takes up
/// at most four at a time, oldest first.
#[verifier::rlimit(50)]
#[verifier::spinoff_prover]
pub proof fn law_burst_reaches_every_open_connection(
    s: WorkerState,
    b: BurstSpec,
    due: Event,
    fired: Event,
)
    requires
        worker_inv(s),
        s.phase == Phase::BurstCheck,
        s.burst == Some(b),
        due is Clock,
        due->elapsed >= b.at,
        fired is Clock,
    ensures
        after(s, due).backlog.len() == s.open.len(),
        forall|i: int|
            0 <= i < s.open.len() ==> #[trigger] after(s, due).backlog[i] == s.open[i].conn_id,
        !after(s, due).burst_pending,
        wants_of(after(s, due)) == Action::ReadClock,
        s.open.len() == 0 ==> wants_of(after(after(s, due), fired)) == Action::Poll,
        s.open.len() > 0 ==> wants_of(after(after(s, due), fired)) == Action::ReadClock,
        s.open.len() > 0 ==> after(after(s, due), fired).jobs.len() == (if s.open.len() < 4 {
            s.open.len() as int
        } else {
            4
        }),
        forall|i: int|
            0 <= i < s.open.len() && i < 4 ==> (#[trigger] after(
                after(s, due),
                fired,
            ).jobs[i]).conn_id == s.open[i].conn_id,
        s.open.len() > 0 ==> after(after(s, due), fired).backlog == after(s, due).backlog.skip(
            after(after(s, due), fired).jobs.len() as int,
        ),
{
    let x = after(s, due);
    assert(x.backlog == s.open.map_values(|c: OpenConn| c.conn_id));
    if s.open.len() > 0 {
        let y = after(x, fired);
        let n = batch_of(x.backlog);
        assert(y.jobs == x.backlog.take(n).map_values(
            |id: u64| burst_job(id, fired->Clock_now_ns, b.service),
        ));
    }
}

/// Each request of a burst costs the burst's service time and is recorded under the connection's
/// number, with the time at which the burst fired as its arrival. It opens no connection.
#[verifier::rlimit(50)]
#[verifier::spinoff_prover]
pub proof fn law_burst_request_is_served(
    s: WorkerState,
    b: BurstSpec,
    fired: Event,
    taken: Event,
    done: Event,
)
    requires
        worker_inv(s),
        s.phase == Phase::BurstStamp,
        s.burst == Some(b),
        fired is Clock,
        taken is Clock,
        done is Clock,
        s.backlog.len() > 0,
    ensures
        wants_of(after(after(s, fired), taken)) == (Action::Sleep { ns: b.service }),
        after(after(after(after(s, fired), taken), Event::Slept), done).conns == s.conns.push(
            ConnRow {
                conn_id: s.backlog[0],
                worker_id: s.worker_id,
                arrival_ns: fired->Clock_now_ns,
                dequeue_ns: taken->Clock_now_ns,
                done_ns: done->Clock_now_ns,
                service_us: ((b.service as int / 1_000) % 0x1_0000_0000) as u32,
                policy: s.policy,
                kind: "burst",
            },
        ),
        after(after(after(after(s, fired), taken), Event::Slept), done).open == s.open,
{
    let y = after(s, fired);
    let n = batch_of(s.backlog);
    assert(y.jobs == s.backlog.take(n).map_values(
        |id: u64| burst_job(id, fired->Clock_now_ns, b.service),
    ));
    assert(y.jobs[0] == burst_job(s.backlog[0], fired->Clock_now_ns, b.service));
    assert(y.conns == s.conns && y.open == s.open && y.worker_id == s.worker_id && y.policy
        == s.policy);
    lemma_serve_one(y, taken, done);
}

proof fn lemma_serve_one(y: WorkerState, taken: Event, done: Event)
    requires
        y.phase == Phase::ServeStart,
        y.jobs.len() > 0,
        taken is Clock,
        done is Clock,
    ensures
        wants_of(after(y, taken)) == (Action::Sleep { ns: y.jobs[0].service }),
        after(after(after(y, taken), Event::Slept), done).conns == y.conns.push(
            row_of(y, taken->Clock_now_ns, done->Clock_now_ns),
        ),
        after(after(after(y, taken), Event::Slept), done).open == open_after(
            y,
            done->Clock_now_ns,
        ),
{
}

/// Before a burst is due, and once it has been taken up, work comes from the accept queue.
pub proof fn law_burst_waits_until_due(s: WorkerState, b: BurstSpec, e: Event)
    requires
        worker_inv(s),
        s.phase == Phase::BurstCheck,
        s.burst == Some(b),
        e is Clock,
        e->elapsed < b.at,
    ensures
        wants_of(after(s, e)) == Action::Poll,
        after(s, e).burst_pending,
        after(s, e).open == s.open,
{
}

/// An injected hang starts at its time and not before, and lasts as long as it is set to. It
/// concerns the worker it names and no other.
pub proof fn law_hang_is_as_injected(
    worker_id: usize,
    h: HangSpec,
    burst: Option<BurstSpec>,
    policy: Policy,
    s: WorkerState,
    e: Event,
)
    requires
        s.phase == Phase::HangCheck,
        s.hang == Some(h),
        e is Clock,
    ensures
        start_of(worker_id, Some(h), burst, policy).hang == (if h.worker_id == worker_id {
            Some(h)
        } else {
            None
        }),
        e->elapsed >= h.at ==> wants_of(after(s, e)) == (Action::Sleep { ns: h.duration }),
        e->elapsed < h.at ==> wants_of(after(s, e)) == Action::ReadClock && after(s, e).hang
            == s.hang,
        after(s, e).slot == s.slot,
{
}

/// Every iteration starts by stamping the slot with the time that was read.
pub proof fn law_loop_entry_is_the_time_read(s: WorkerState, e: Event)
    requires
        s.phase == Phase::Stamping,
        e is Clock,
    ensures
        wants_of(s) == Action::ReadClock,
        after(s, e).slot.last_loop_entry == e->Clock_now_ns,
        after(s, e).slot.pending_events == s.slot.pending_events,
        after(s, e).slot.accumulated_conns == s.slot.accumulated_conns,
{
}

/// What a worker under the full policy publishes is the candidate bitmap of a pass over the status
/// it read, at the time it read, with a worker counted as hung after 200 milliseconds. The same pass
/// goes into the row of the iteration.
pub proof fn law_worker_publishes_its_pass(s: WorkerState, survey: Event, sample: Event)
    requires
        s.phase == Phase::Surveying,
        survey is Surveyed,
        sample is Sampled,
    ensures
        wants_of(s) == Action::Survey,
        wants_of(after(s, survey)) == (Action::Publish {
            bitmap: pass(survey->Surveyed_snapshots@, survey->Surveyed_now_ns as int, 200_000_000).bitmap,
        }),
        wants_of(after(after(s, survey), Event::Published)) == Action::Sample,
        after(after(after(s, survey), Event::Published), sample).ticks == s.ticks.push(
            TickRow {
                timestamp_ns: sample->Sampled_now_ns,
                worker_id: s.worker_id,
                iter: s.iter,
                snapshots: sample->Sampled_snapshots,
                queue_len: sample->queue_len,
                result: Some(
                    pass(survey->Surveyed_snapshots@, survey->Surveyed_now_ns as int, 200_000_000),
                ),
                policy: s.policy,
            },
        ),
{
}

/// The row of an iteration holds what was sampled, and the next iteration has the next number.
pub proof fn law_iteration_is_recorded(s: WorkerState, sample: Event, asked: Event)
    requires
        s.phase == Phase::Sampling,
        sample is Sampled,
        asked is Asked,
    ensures
        after(s, sample).ticks == s.ticks.push(
            TickRow {
                timestamp_ns: sample->Sampled_now_ns,
                worker_id: s.worker_id,
                iter: s.iter,
                snapshots: sample->Sampled_snapshots,
                queue_len: sample->queue_len,
                result: s.result,
                policy: s.policy,
            },
        ),
        after(s, sample).conns == s.conns,
        wants_of(after(s, sample)) == Action::Ask,
        asked->shutdown && asked->queue_empty && s.backlog.len() == 0 ==> wants_of(
            after(after(s, sample), asked),
        ) == Action::Stop,
        !(asked->shutdown && asked->queue_empty && s.backlog.len() == 0) ==> wants_of(
            after(after(s, sample), asked),
        ) == Action::ReadClock && after(after(s, sample), asked).phase == Phase::Stamping && (s.iter
            < 0xffff_ffff ==> after(after(s, sample), asked).iter == s.iter + 1),
{
}

/// Cutting a number to 64 bits keeps it where it fits and its remainder by `2^64` always, so that
/// `2^64` more change nothing.
pub proof fn law_wrap_keeps_the_remainder(n: int)
    ensures
        -0x8000_0000_0000_0000 <= n < 0x8000_0000_0000_0000 ==> wrap64(n) == n,
        (wrap64(n) - n) % 0x1_0000_0000_0000_0000 == 0,
        wrap64(n + 0x1_0000_0000_0000_0000) == wrap64(n),
{
}

/// What an event of a batch costs and leaves behind, whichever it is: the worker sleeps for its
/// service time and records its number, arrival and cost with the two clock readings; a new
/// connection is opened behind the others and a request of a burst opens none.
#[verifier::rlimit(50)]
#[verifier::spinoff_prover]
pub proof fn law_current_event_is_served(s: WorkerState, taken: Event, done: Event)
    requires
        worker_inv(s),
        s.phase == Phase::ServeStart,
        taken is Clock,
        done is Clock,
    ensures
        wants_of(after(s, taken)) == (Action::Sleep { ns: s.jobs[0].service }),
        ({
            let t = after(after(after(s, taken), Event::Slept), done);
            &&& t.conns == s.conns.push(
                ConnRow {
                    conn_id: s.jobs[0].conn_id,
                    worker_id: s.worker_id,
                    arrival_ns: s.jobs[0].arrival_ns,
                    dequeue_ns: taken->Clock_now_ns,
                    done_ns: done->Clock_now_ns,
                    service_us: s.jobs[0].service_us,
                    policy: s.policy,
                    kind: if s.jobs[0].kind == JobKind::Burst {
                        "burst"
                    } else {
                        "accept"
                    },
                },
            )
            &&& t.jobs == s.jobs.skip(1)
            &&& s.jobs[0].kind == JobKind::Burst ==> t.open == s.open
            &&& s.jobs[0].kind matches JobKind::Accept { lifetime_ms } ==> t.open == s.open.push(
                OpenConn {
                    conn_id: s.jobs[0].conn_id,
                    deadline_ns: (done->Clock_now_ns + lifetime_ms * 1_000_000) as i128,
                },
            )
        }),
{
    lemma_serve_one(s, taken, done);
    let v = after(after(s, taken), Event::Slept);
    assert(v.jobs == s.jobs && v.open == s.open && v.phase is ServeDone);
    lemma_same_worker(s, taken);
    lemma_same_worker(after(s, taken), Event::Slept);
    law_worker_counts(s, taken);
    law_worker_counts(after(s, taken), Event::Slept);
    lemma_service_step(v, done);
}

proof fn lemma_same_worker(s: WorkerState, e: Event)
    ensures
        after(s, e).worker_id == s.worker_id,
        after(s, e).policy == s.policy,
        after(s, e).burst == s.burst,
{
}

/// A burst's backlog is worked off at every look for work, at most four requests at a time and
/// oldest first, before the accept queue is looked at again.
#[verifier::rlimit(50)]
#[verifier::spinoff_prover]
pub proof fn law_backlog_is_worked_off(s: WorkerState, b: BurstSpec, e: Event, i: int)
    requires
        worker_inv(s),
        s.phase == Phase::Closing,
        s.burst == Some(b),
        !s.burst_pending,
        e is Clock,
    ensures
        s.backlog.len() == 0 ==> wants_of(after(s, e)) == Action::Poll,
        s.backlog.len() > 0 ==> {
            &&& wants_of(after(s, e)) == Action::ReadClock
            &&& after(s, e).jobs.len() == (if s.backlog.len() < 4 {
                s.backlog.len() as int
            } else {
                4
            })
            &&& after(s, e).backlog == s.backlog.skip(after(s, e).jobs.len() as int)
            &&& 0 <= i < after(s, e).jobs.len() ==> after(s, e).jobs[i].conn_id == s.backlog[i]
                && after(s, e).jobs[i].arrival_ns == s.trigger_ns && after(s, e).jobs[i].service
                == b.service && after(s, e).jobs[i].kind == JobKind::Burst
        },
{
    if s.backlog.len() > 0 {
        let n = batch_of(s.backlog);
        assert(after(s, e).jobs == s.backlog.take(n).map_values(
            |id: u64| burst_job(id, s.trigger_ns, b.service),
        ));
    }
}

/// A worker without a burst polls its accept queue in every iteration, and what it is handed becomes
/// its events in order, each counted as pending.
pub proof fn law_batch_is_taken_up_in_order(s: WorkerState, e: Event, batch: Vec<ConnDesc>, i: int)
    requires
        worker_inv(s),
        e is Clock,
        batch@.len() <= 4,
    ensures
        s.phase == Phase::Closing && s.burst.is_none() ==> wants_of(after(s, e)) == Action::Poll,
        s.phase == Phase::Polling ==> {
            let t = after(s, Event::Polled { batch });
            &&& t.jobs.len() == batch@.len()
            &&& t.slot.pending_events == batch@.len()
            &&& 0 <= i < batch@.len() ==> t.jobs[i].conn_id == batch@[i].conn_id && t.jobs[i].arrival_ns
                == batch@[i].arrival_ns && t.jobs[i].service == batch@[i].service_us * 1_000
                && t.jobs[i].service_us == batch@[i].service_us && t.jobs[i].kind == (
            JobKind::Accept { lifetime_ms: batch@[i].lifetime_ms })
        },
{
    let polled = Event::Polled { batch };
    assert(event_ok(polled));
    law_worker_counts(s, polled);
    if s.phase == Phase::Polling {
        assert(after(s, polled).jobs == batch@.map_values(|d: ConnDesc| accept_job(d)));
    }
}

/// What stays as it is. Number, policy and burst of a worker never change; rows are added at the end
/// of an iteration and of an event and nowhere else, and none is ever taken back; connections open
/// and close only at the end of an event and at the closing; iterations are counted at their end.
pub proof fn law_worker_keeps_the_rest(s: WorkerState, e: Event)
    ensures
        after(s, e).worker_id == s.worker_id,
        after(s, e).policy == s.policy,
        after(s, e).burst == s.burst,
        s.phase != Phase::Sampling ==> after(s, e).ticks == s.ticks,
        !(s.phase is ServeDone) ==> after(s, e).conns == s.conns,
        s.ticks.is_prefix_of(after(s, e).ticks),
        s.conns.is_prefix_of(after(s, e).conns),
        !(s.phase is ServeDone) && s.phase != Phase::Closing ==> after(s, e).open == s.open,
        s.phase != Phase::Asking ==> after(s, e).iter == s.iter,
        s.phase != Phase::HangCheck ==> after(s, e).hang == s.hang,
        s.phase != Phase::BurstCheck ==> after(s, e).burst_pending == s.burst_pending,
        s.phase != Phase::BurstStamp ==> after(s, e).trigger_ns == s.trigger_ns,
        s.phase is Hanging ==> after(s, Event::Slept).phase == Phase::Stamping,
{
}

/// A worker starts with nothing open, taken up or recorded, its burst to come and its slot blank.
pub proof fn law_worker_starts_empty(
    worker_id: usize,
    hang: Option<HangSpec>,
    burst: Option<BurstSpec>,
    policy: Policy,
)
    ensures
        ({
            let s = start_of(worker_id, hang, burst, policy);
            &&& s.worker_id == worker_id
            &&& s.policy == policy
            &&& s.burst == burst
            &&& s.burst_pending == burst.is_some()
            &&& s.open.len() == 0 && s.jobs.len() == 0 && s.backlog.len() == 0
            &&& s.ticks.len() == 0 && s.conns.len() == 0
            &&& s.iter == 0
            &&& s.slot.last_loop_entry == 0 && s.slot.pending_events == 0
                && s.slot.accumulated_conns == 0
            &&& wants_of(s) == Action::ReadClock
            &&& hang.is_none() ==> s.hang.is_none()
        }),
{
}

} // verus!
