//! The event loop of a worker that serves sockets.
//!
//! The loop alternates between decisions and outside work: waiting for events, accepting, reading,
//! sleeping for the cost of a request, writing. `LbWorker::step` takes the outcome of the last piece
//! of outside work and says what to do next. After each step the worker's slot is published.

use crate::conn_table::{after_bytes, has_request, law_reads_may_split_anywhere, leftover};
use crate::conn_table::{requests_in, ConnTable};
use crate::lb_metrics::TickRow;
use crate::policy::Policy;
use crate::scheduler::{pass, schedule_from_snapshots, ScheduleResult, HANG_THRESHOLD_NS};
use crate::wire::{decode_request, encode_response, law_any_bytes_are_read};
use crate::wire::{law_request_round_trip, law_response_round_trip, request_bytes, request_of};
use crate::wire::{response_bytes, response_of, REQUEST_HEADER_LEN, RESPONSE_LEN};
use crate::worker::{lemma_wrap_same, lemma_wrap_step, wrap64, wrapping_dec, wrapping_inc};
use crate::wst::{blank_slot, WorkerSlot, WorkerSnapshot, NUM_WORKERS};
use vstd::prelude::*;

verus! {

/// How long a worker waits for events, in milliseconds.
pub const EPOLL_TIMEOUT_MS: i32 = 5;

/// How many events a worker takes up at once.
pub const MAX_EVENTS: usize = 64;

/// How often a write is tried again while the socket's buffer is full.
pub const WRITE_SPINS: u32 = 1000;

/// A hang injected into the worker.
#[derive(Debug, Clone, Copy, PartialEq, Eq, Structural)]
pub struct HangSpec {
    /// When the hang starts, from the worker's start, in nanoseconds.
    pub at: u128,
    /// How long the worker stays stuck, in nanoseconds.
    pub duration: u128,
}

/// A descriptor that is ready.
#[derive(Debug, Clone, Copy, PartialEq, Eq, Structural)]
pub struct Ready {
    pub fd: i32,
    /// Whether the peer has hung up or the socket has failed.
    pub hangup: bool,
}

/// How reading from a connection ended.
#[derive(Debug, Clone, Copy, PartialEq, Eq, Structural)]
pub enum ReadEnd {
    /// There is nothing more to read for now.
    Drained,
    /// The peer has closed.
    Eof,
    /// The read failed.
    Failed,
}

/// How one call of `read` came out.
#[derive(Debug, Clone, Copy, PartialEq, Eq, Structural)]
pub enum ReadOutcome {
    /// So many bytes.
    Bytes(usize),
    End(ReadEnd),
}

/// What the return value of `read` means.
pub open spec fn read_outcome_of(ret: int, would_block: bool) -> ReadOutcome {
    if ret > 0 {
        ReadOutcome::Bytes(ret as usize)
    } else if ret == 0 {
        ReadOutcome::End(ReadEnd::Eof)
    } else if would_block {
        ReadOutcome::End(ReadEnd::Drained)
    } else {
        ReadOutcome::End(ReadEnd::Failed)
    }
}

/// What the return value of `read` means. `would_block` says whether the error of a failed call is
/// that there is nothing to read.
pub fn read_outcome(ret: isize, would_block: bool) -> (r: ReadOutcome)
    ensures
        r == read_outcome_of(ret as int, would_block),
        r == (if ret > 0 {
            ReadOutcome::Bytes(ret as usize)
        } else if ret == 0 {
            ReadOutcome::End(ReadEnd::Eof)
        } else if would_block {
            ReadOutcome::End(ReadEnd::Drained)
        } else {
            ReadOutcome::End(ReadEnd::Failed)
        }),
{
    if ret > 0 {
        ReadOutcome::Bytes(ret as usize)
    } else if ret == 0 {
        ReadOutcome::End(ReadEnd::Eof)
    } else if would_block {
        ReadOutcome::End(ReadEnd::Drained)
    } else {
        ReadOutcome::End(ReadEnd::Failed)
    }
}

/// How many events the return value of `epoll_wait` announces.
pub open spec fn wait_outcome_of(ret: int, interrupted: bool) -> Option<usize> {
    if ret >= 0 {
        Some(ret as usize)
    } else if interrupted {
        Some(0usize)
    } else {
        None
    }
}

/// How many events the return value of `epoll_wait` announces; none where a signal interrupted it.
/// No number where the call failed.
pub fn wait_outcome(ret: i32, interrupted: bool) -> (r: Option<usize>)
    ensures
        r == wait_outcome_of(ret as int, interrupted),
        r == (if ret >= 0 {
            Some(ret as usize)
        } else if interrupted {
            Some(0usize)
        } else {
            None
        }),
{
    if ret >= 0 {
        Some(ret as usize)
    } else if interrupted {
        Some(0)
    } else {
        None
    }
}

/// What a worker waits for.
#[derive(Debug, Clone, Copy, PartialEq, Eq, Structural)]
pub enum LbPhase {
    /// Whether to stop.
    Watching,
    /// The time, to stamp the loop entry with.
    Stamping,
    /// The time, to see whether the injected hang is due.
    HangCheck,
    /// The end of the injected hang.
    Hanging { ns: u128 },
    /// Events.
    Waiting,
    /// A new connection.
    Accepting,
    /// The registration of a new connection.
    Registering { fd: i32 },
    /// The end of a connection that could not be registered.
    Discarding { fd: i32 },
    /// Bytes of a connection.
    Reading { fd: i32 },
    /// The end of a request's processing.
    Working { fd: i32, seq: u32, service_us: u32, send_ns: i64 },
    /// The writing of a response.
    Answering { fd: i32, seq: u32, send_ns: i64 },
    /// The end of a connection.
    Closing { fd: i32 },
    /// All workers' status, to schedule by.
    Surveying,
    /// The publication of the bitmap.
    Publishing { bitmap: u64 },
    /// All workers' status, to record.
    Sampling,
    /// The writing of the iteration's row.
    Recording,
    /// The end of all connections.
    Draining,
    Stopped,
}

/// What a worker asks for.
#[derive(Debug, Clone, Copy)]
pub enum LbAction {
    /// Read whether the worker is asked to stop.
    ReadFlag,
    ReadClock,
    Sleep { ns: u128 },
    /// Wait for events.
    Wait,
    Accept,
    /// Have the events of a new connection reported.
    Register { fd: i32 },
    /// Close a descriptor that was never registered.
    Discard { fd: i32 },
    Read { fd: i32 },
    Write { fd: i32, bytes: [u8; RESPONSE_LEN] },
    /// Have no more events of a connection reported, and close it.
    Close { fd: i32 },
    /// Read all workers' status and the clock.
    Survey,
    /// Publish the candidate bitmap.
    Publish { bitmap: u64 },
    /// Read the clock and all workers' status.
    Sample,
    /// Write the iteration's row.
    Record,
    /// Flush the rows and close all connections.
    Drain,
    Stop,
}

/// The outcome of what a worker asked for.
#[derive(Debug)]
pub enum LbEvent {
    Flag { shutdown: bool },
    /// The monotonic time, and the time since the worker's start.
    Clock { now_ns: i64, elapsed: u128 },
    Slept,
    Waited { ready: Vec<Ready> },
    Accepted { fd: i32 },
    /// There is no more connection to accept, or accepting failed.
    NotAccepted,
    Registered { ok: bool },
    Discarded,
    Bytes { data: Vec<u8> },
    ReadEnded { end: ReadEnd },
    Written { ok: bool },
    Closed,
    Surveyed { now_ns: i64, snapshots: [WorkerSnapshot; NUM_WORKERS] },
    /// The bitmap has been published, or publishing it has failed.
    Published,
    Sampled { now_ns: i64, snapshots: [WorkerSnapshot; NUM_WORKERS] },
    Recorded,
    Drained,
}

/// The state of a worker.
#[verifier::ext_equal]
pub struct LbState {
    pub worker_id: usize,
    pub listen_fd: i32,
    pub policy: Policy,
    /// The injected hang that is still to come.
    pub hang: Option<HangSpec>,
    pub slot: WorkerSlot,
    /// The open connections, with the bytes of each that have not been used.
    pub conns: Map<i32, Seq<u8>>,
    /// The events taken up and not yet handled, the current one first.
    pub ready: Seq<Ready>,
    /// Whether the connection in work has ended: it closes once its requests are served.
    pub ended: bool,
    pub iter: u32,
    /// The scheduling pass of this iteration.
    pub result: Option<ScheduleResult>,
    /// The row of the last iteration.
    pub row: Option<TickRow>,
    pub phase: LbPhase,
}

/// The state of a worker before its first iteration.
pub open spec fn lb_start(
    worker_id: usize,
    listen_fd: i32,
    policy: Policy,
    hang: Option<HangSpec>,
) -> LbState {
    LbState {
        worker_id,
        listen_fd,
        policy,
        hang,
        slot: blank_slot(),
        conns: Map::empty(),
        ready: Seq::empty(),
        ended: false,
        iter: 0,
        result: None,
        row: None,
        phase: LbPhase::Watching,
    }
}

/// The answer that a state writes: where to, and the bytes.
pub open spec fn answer_of(s: LbState) -> Option<(i32, Seq<u8>)> {
    match s.phase {
        LbPhase::Answering { fd, seq, send_ns } => Some(
            (fd, response_bytes(seq, s.worker_id as u32, send_ns)),
        ),
        _ => None,
    }
}

/// Whether `a` is what a state asks for.
pub open spec fn lb_wants(s: LbState, a: LbAction) -> bool {
    match s.phase {
        LbPhase::Watching => a == LbAction::ReadFlag,
        LbPhase::Stamping | LbPhase::HangCheck => a == LbAction::ReadClock,
        LbPhase::Hanging { ns } => a == (LbAction::Sleep { ns }),
        LbPhase::Waiting => a == LbAction::Wait,
        LbPhase::Accepting => a == LbAction::Accept,
        LbPhase::Registering { fd } => a == (LbAction::Register { fd }),
        LbPhase::Discarding { fd } => a == (LbAction::Discard { fd }),
        LbPhase::Reading { fd } => a == (LbAction::Read { fd }),
        LbPhase::Working { service_us, .. } => a == (LbAction::Sleep {
            ns: (service_us * 1_000) as u128,
        }),
        LbPhase::Answering { .. } => a matches LbAction::Write { fd, bytes } && answer_of(s)
            == Some((fd, bytes@)),
        LbPhase::Closing { fd } => a == (LbAction::Close { fd }),
        LbPhase::Surveying => a == LbAction::Survey,
        LbPhase::Publishing { bitmap } => a == (LbAction::Publish { bitmap }),
        LbPhase::Sampling => a == LbAction::Sample,
        LbPhase::Recording => a == LbAction::Record,
        LbPhase::Draining => a == LbAction::Drain,
        LbPhase::Stopped => a == LbAction::Stop,
    }
}

/// A worker's slot with another number of pending events.
pub open spec fn with_pending(slot: WorkerSlot, pending: int) -> WorkerSlot {
    WorkerSlot { pending_events: wrap64(pending), ..slot }
}

/// A worker's slot with another number of connections.
pub open spec fn with_conns(slot: WorkerSlot, conns: int) -> WorkerSlot {
    WorkerSlot { accumulated_conns: wrap64(conns), ..slot }
}

/// The phase in which an event is taken up: a new connection where the listener is ready; the end
/// of the connection where the peer has hung up; else its bytes.
pub open spec fn phase_of(ready: Ready, listen_fd: i32) -> LbPhase {
    if ready.fd == listen_fd {
        LbPhase::Accepting
    } else if ready.hangup {
        LbPhase::Closing { fd: ready.fd }
    } else {
        LbPhase::Reading { fd: ready.fd }
    }
}

/// The state once the next event is to be taken up, or the iteration ends.
pub open spec fn next_ready(s: LbState) -> LbState {
    if s.ready.len() > 0 {
        LbState { phase: phase_of(s.ready[0], s.listen_fd), ..s }
    } else if s.policy == Policy::Hermes {
        LbState { phase: LbPhase::Surveying, ..s }
    } else {
        LbState { phase: LbPhase::Sampling, result: None, ..s }
    }
}

/// The state once the current event has been handled.
pub open spec fn event_done(s: LbState) -> LbState {
    next_ready(
        LbState {
            slot: with_pending(s.slot, s.slot.pending_events - 1),
            ready: s.ready.skip(1),
            ended: false,
            ..s
        },
    )
}

/// The state once the next request of a connection is to be served. A request without the magic
/// ends the connection. Where no whole request is left, a connection that has ended is closed; else
/// the event has been handled.
pub open spec fn next_request(s: LbState, fd: i32) -> LbState {
    if has_request(s.conns, fd) {
        let buf = s.conns[fd];
        LbState {
            conns: s.conns.insert(fd, buf.skip(REQUEST_HEADER_LEN as int)),
            phase: match request_of(buf.take(REQUEST_HEADER_LEN as int)) {
                Some((seq, service_us, send_ns)) => LbPhase::Working {
                    fd,
                    seq,
                    service_us,
                    send_ns,
                },
                None => LbPhase::Closing { fd },
            },
            ..s
        }
    } else if s.ended {
        LbState { phase: LbPhase::Closing { fd }, ..s }
    } else {
        event_done(s)
    }
}

/// The state after an event. An event that the state does not wait for changes nothing.
pub open spec fn lb_after(s: LbState, e: LbEvent) -> LbState {
    match (s.phase, e) {
        (LbPhase::Watching, LbEvent::Flag { shutdown }) => LbState {
            phase: if shutdown {
                LbPhase::Draining
            } else {
                LbPhase::Stamping
            },
            ..s
        },
        (LbPhase::Stamping, LbEvent::Clock { now_ns, .. }) => LbState {
            slot: WorkerSlot { last_loop_entry: now_ns, ..s.slot },
            phase: if s.hang.is_some() {
                LbPhase::HangCheck
            } else {
                LbPhase::Waiting
            },
            ..s
        },
        (LbPhase::HangCheck, LbEvent::Clock { elapsed, .. }) => match s.hang {
            Some(h) => if elapsed >= h.at {
                LbState { hang: None, phase: LbPhase::Hanging { ns: h.duration }, ..s }
            } else {
                LbState { phase: LbPhase::Waiting, ..s }
            },
            None => LbState { phase: LbPhase::Waiting, ..s },
        },
        (LbPhase::Hanging { .. }, LbEvent::Slept) => LbState { phase: LbPhase::Watching, ..s },
        (LbPhase::Waiting, LbEvent::Waited { ready }) => next_ready(
            LbState {
                slot: with_pending(s.slot, s.slot.pending_events + ready@.len()),
                ready: ready@,
                ..s
            },
        ),
        (LbPhase::Accepting, LbEvent::Accepted { fd }) => LbState {
            slot: with_conns(s.slot, s.slot.accumulated_conns + 1),
            phase: LbPhase::Registering { fd },
            ..s
        },
        (LbPhase::Accepting, LbEvent::NotAccepted) => event_done(s),
        (LbPhase::Registering { fd }, LbEvent::Registered { ok }) => if ok {
            LbState {
                conns: s.conns.insert(fd, Seq::empty()),
                phase: LbPhase::Accepting,
                ..s
            }
        } else {
            LbState { phase: LbPhase::Discarding { fd }, ..s }
        },
        (LbPhase::Discarding { .. }, LbEvent::Discarded) => LbState {
            slot: with_conns(s.slot, s.slot.accumulated_conns - 1),
            phase: LbPhase::Accepting,
            ..s
        },
        (LbPhase::Reading { fd }, LbEvent::Bytes { data }) => LbState {
            conns: after_bytes(s.conns, fd, data@),
            ..s
        },
        (LbPhase::Reading { fd }, LbEvent::ReadEnded { end }) => match end {
            ReadEnd::Drained => next_request(s, fd),
            ReadEnd::Eof | ReadEnd::Failed => next_request(LbState { ended: true, ..s }, fd),
        },
        (LbPhase::Working { fd, seq, send_ns, .. }, LbEvent::Slept) => LbState {
            phase: LbPhase::Answering { fd, seq, send_ns },
            ..s
        },
        (LbPhase::Answering { fd, .. }, LbEvent::Written { ok }) => if ok {
            next_request(s, fd)
        } else {
            LbState { phase: LbPhase::Closing { fd }, ..s }
        },
        (LbPhase::Closing { fd }, LbEvent::Closed) => event_done(
            LbState {
                conns: s.conns.remove(fd),
                slot: with_conns(s.slot, s.slot.accumulated_conns - 1),
                ..s
            },
        ),
        (LbPhase::Surveying, LbEvent::Surveyed { now_ns, snapshots }) => {
            let r = pass(snapshots@, now_ns as int, HANG_THRESHOLD_NS as int);
            LbState { result: Some(r), phase: LbPhase::Publishing { bitmap: r.bitmap }, ..s }
        },
        (LbPhase::Publishing { .. }, LbEvent::Published) => LbState { phase: LbPhase::Sampling, ..s },
        (LbPhase::Sampling, LbEvent::Sampled { now_ns, snapshots }) => LbState {
            row: Some(
                TickRow {
                    timestamp_ns: now_ns,
                    worker_id: s.worker_id,
                    iter: s.iter,
                    snapshots,
                    open_conns: s.conns.dom().len() as usize,
                    result: s.result,
                    policy: s.policy,
                },
            ),
            phase: LbPhase::Recording,
            ..s
        },
        (LbPhase::Recording, LbEvent::Recorded) => LbState {
            iter: ((s.iter + 1) % 0x1_0000_0000) as u32,
            phase: LbPhase::Watching,
            ..s
        },
        (LbPhase::Draining, LbEvent::Drained) => LbState { phase: LbPhase::Stopped, ..s },
        _ => s,
    }
}

/// Whether an event is in work.
pub open spec fn handling(p: LbPhase) -> bool {
    match p {
        LbPhase::Accepting
        | LbPhase::Registering { .. }
        | LbPhase::Discarding { .. }
        | LbPhase::Reading { .. }
        | LbPhase::Working { .. }
        | LbPhase::Answering { .. }
        | LbPhase::Closing { .. } => true,
        _ => false,
    }
}

/// What holds of a worker at any time: the published pending events are those taken up and not yet
/// handled, and a connection has ended only while its last requests are served.
pub open spec fn lb_inv(s: LbState) -> bool {
    &&& s.slot.pending_events == s.ready.len()
    &&& s.ready.len() <= MAX_EVENTS
    &&& handling(s.phase) <==> s.ready.len() > 0
    &&& s.phase == LbPhase::HangCheck ==> s.hang.is_some()
    &&& s.ended ==> s.phase is Working || s.phase is Answering || s.phase is Closing
}

/// What is asked of an event: at most the agreed number of descriptors are ready.
pub open spec fn lb_event_ok(e: LbEvent) -> bool {
    e matches LbEvent::Waited { ready } ==> ready@.len() <= MAX_EVENTS
}

/// The event loop of one worker.
pub struct LbWorker {
    worker_id: usize,
    listen_fd: i32,
    policy: Policy,
    hang: Option<HangSpec>,
    slot: WorkerSlot,
    conns: ConnTable,
    ready: Vec<Ready>,
    ended: bool,
    iter: u32,
    result: Option<ScheduleResult>,
    row: Option<TickRow>,
    phase: LbPhase,
}

impl View for LbWorker {
    type V = LbState;

    closed spec fn view(&self) -> LbState {
        LbState {
            worker_id: self.worker_id,
            listen_fd: self.listen_fd,
            policy: self.policy,
            hang: self.hang,
            slot: self.slot,
            conns: self.conns@,
            ready: self.ready@,
            ended: self.ended,
            iter: self.iter,
            result: self.result,
            row: self.row,
            phase: self.phase,
        }
    }
}

impl LbWorker {
    /// A worker before its first iteration.
    pub fn new(
        worker_id: usize,
        listen_fd: i32,
        policy: Policy,
        hang: Option<HangSpec>,
    ) -> (w: LbWorker)
        ensures
            w@ == lb_start(worker_id, listen_fd, policy, hang),
            lb_inv(w@),
    {
        let w: LbWorker = LbWorker {
            worker_id,
            listen_fd,
            policy,
            hang,
            slot: WorkerSlot::new(),
            conns: ConnTable::new(),
            ready: Vec::new(),
            ended: false,
            iter: 0,
            result: None,
            row: None,
            phase: LbPhase::Watching,
        };
        assert(w@ =~= lb_start(worker_id, listen_fd, policy, hang));
        w
    }

    /// What the worker asks for now.
    pub fn wants(&self) -> (a: LbAction)
        ensures
            lb_wants(self@, a),
    {
        match self.phase {
            LbPhase::Watching => LbAction::ReadFlag,
            LbPhase::Stamping | LbPhase::HangCheck => LbAction::ReadClock,
            LbPhase::Hanging { ns } => LbAction::Sleep { ns },
            LbPhase::Waiting => LbAction::Wait,
            LbPhase::Accepting => LbAction::Accept,
            LbPhase::Registering { fd } => LbAction::Register { fd },
            LbPhase::Discarding { fd } => LbAction::Discard { fd },
            LbPhase::Reading { fd } => LbAction::Read { fd },
            LbPhase::Working { service_us, .. } => {
                LbAction::Sleep { ns: service_us as u128 * 1_000 }
            },
            LbPhase::Answering { fd, seq, send_ns } => {
                let mut bytes: [u8; RESPONSE_LEN] = [0, 0, 0, 0, 0, 0, 0, 0, 0, 0, 0, 0, 0, 0, 0, 0];
                encode_response(seq, self.worker_id as u32, send_ns, &mut bytes);
                LbAction::Write { fd, bytes }
            },
            LbPhase::Closing { fd } => LbAction::Close { fd },
            LbPhase::Surveying => LbAction::Survey,
            LbPhase::Publishing { bitmap } => LbAction::Publish { bitmap },
            LbPhase::Sampling => LbAction::Sample,
            LbPhase::Recording => LbAction::Record,
            LbPhase::Draining => LbAction::Drain,
            LbPhase::Stopped => LbAction::Stop,
        }
    }

    /// Whether the injected hang is under way.
    pub fn hanging(&self) -> (r: bool)
        ensures
            r == (self@.phase is Hanging),
    {
        match self.phase {
            LbPhase::Hanging { .. } => true,
            _ => false,
        }
    }

    /// The status to publish.
    pub fn slot(&self) -> (slot: WorkerSlot)
        ensures
            slot == self@.slot,
    {
        self.slot
    }

    /// The row of the last iteration.
    pub fn row(&self) -> (row: Option<TickRow>)
        ensures
            row == self@.row,
    {
        self.row
    }

    /// The descriptors of all open connections, each once.
    pub fn open_fds(&self) -> (fds: Vec<i32>)
        ensures
            fds@.no_duplicates(),
            forall|fd: i32| #[trigger] fds@.contains(fd) <==> self@.conns.contains_key(fd),
    {
        self.conns.fds()
    }

    /// Takes the outcome of what was asked for and says what is next.
    pub fn step(&mut self, event: LbEvent) -> (a: LbAction)
        requires
            lb_inv(old(self)@),
            lb_event_ok(event),
        ensures
            final(self)@ == lb_after(old(self)@, event),
            lb_inv(final(self)@),
            lb_wants(final(self)@, a),
    {
        proof {
            law_lb_pending_counts(self@, event);
        }
        self.apply(event);
        self.wants()
    }

    /// Takes the outcome of what was asked for.
    #[verifier::rlimit(50)]
    #[verifier::spinoff_prover]
    fn apply(&mut self, event: LbEvent)
        requires
            lb_inv(old(self)@),
            lb_event_ok(event),
        ensures
            final(self)@ == lb_after(old(self)@, event),
    {
        let ghost before = self@;
        match (self.phase, event) {
            (LbPhase::Watching, LbEvent::Flag { shutdown }) => {
                self.phase = if shutdown {
                    LbPhase::Draining
                } else {
                    LbPhase::Stamping
                };
            },
            (LbPhase::Stamping, LbEvent::Clock { now_ns, .. }) => {
                self.slot.last_loop_entry = now_ns;
                self.phase = if self.hang.is_some() {
                    LbPhase::HangCheck
                } else {
                    LbPhase::Waiting
                };
            },
            (LbPhase::HangCheck, LbEvent::Clock { elapsed, .. }) => match self.hang {
                Some(h) => {
                    if elapsed >= h.at {
                        self.hang = None;
                        self.phase = LbPhase::Hanging { ns: h.duration };
                    } else {
                        self.phase = LbPhase::Waiting;
                    }
                },
                None => {
                    self.phase = LbPhase::Waiting;
                },
            },
            (LbPhase::Hanging { .. }, LbEvent::Slept) => {
                self.phase = LbPhase::Watching;
            },
            (LbPhase::Waiting, LbEvent::Waited { ready }) => {
                proof {
                    lemma_wrap_same(ready@.len() as i64);
                }
                self.slot.pending_events = self.slot.pending_events + ready.len() as i64;
                self.ready = ready;
                self.next_ready();
            },
            (LbPhase::Accepting, LbEvent::Accepted { fd }) => {
                self.slot.accumulated_conns = wrapping_inc(self.slot.accumulated_conns);
                self.phase = LbPhase::Registering { fd };
            },
            (LbPhase::Accepting, LbEvent::NotAccepted) => {
                self.event_done();
            },
            (LbPhase::Registering { fd }, LbEvent::Registered { ok }) => {
                if ok {
                    self.conns.open(fd);
                    self.phase = LbPhase::Accepting;
                } else {
                    self.phase = LbPhase::Discarding { fd };
                }
            },
            (LbPhase::Discarding { .. }, LbEvent::Discarded) => {
                self.slot.accumulated_conns = wrapping_dec(self.slot.accumulated_conns);
                self.phase = LbPhase::Accepting;
            },
            (LbPhase::Reading { fd }, LbEvent::Bytes { data }) => {
                self.conns.append(fd, &data);
            },
            (LbPhase::Reading { fd }, LbEvent::ReadEnded { end }) => match end {
                ReadEnd::Drained => {
                    self.next_request(fd);
                },
                ReadEnd::Eof | ReadEnd::Failed => {
                    self.ended = true;
                    self.next_request(fd);
                },
            },
            (LbPhase::Working { fd, seq, send_ns, .. }, LbEvent::Slept) => {
                self.phase = LbPhase::Answering { fd, seq, send_ns };
            },
            (LbPhase::Answering { fd, .. }, LbEvent::Written { ok }) => {
                if ok {
                    self.next_request(fd);
                } else {
                    self.phase = LbPhase::Closing { fd };
                }
            },
            (LbPhase::Closing { fd }, LbEvent::Closed) => {
                self.conns.close(fd);
                self.slot.accumulated_conns = wrapping_dec(self.slot.accumulated_conns);
                self.event_done();
            },
            (LbPhase::Surveying, LbEvent::Surveyed { now_ns, snapshots }) => {
                let r: ScheduleResult = schedule_from_snapshots(
                    &snapshots,
                    now_ns,
                    HANG_THRESHOLD_NS,
                );
                self.result = Some(r);
                self.phase = LbPhase::Publishing { bitmap: r.bitmap };
            },
            (LbPhase::Publishing { .. }, LbEvent::Published) => {
                self.phase = LbPhase::Sampling;
            },
            (LbPhase::Sampling, LbEvent::Sampled { now_ns, snapshots }) => {
                self.row = Some(
                    TickRow {
                        timestamp_ns: now_ns,
                        worker_id: self.worker_id,
                        iter: self.iter,
                        snapshots,
                        open_conns: self.conns.len(),
                        result: self.result,
                        policy: self.policy,
                    },
                );
                self.phase = LbPhase::Recording;
            },
            (LbPhase::Recording, LbEvent::Recorded) => {
                self.iter = self.iter.wrapping_add(1);
                self.phase = LbPhase::Watching;
            },
            (LbPhase::Draining, LbEvent::Drained) => {
                self.phase = LbPhase::Stopped;
            },
            _ => {},
        }
        assert(self@ =~= lb_after(before, event));
    }

    /// Takes up the next event, or ends the iteration.
    fn next_ready(&mut self)
        ensures
            final(self)@ == next_ready(old(self)@),
    {
        if self.ready.len() > 0 {
            let r: Ready = self.ready[0];
            self.phase = if r.fd == self.listen_fd {
                LbPhase::Accepting
            } else if r.hangup {
                LbPhase::Closing { fd: r.fd }
            } else {
                LbPhase::Reading { fd: r.fd }
            };
        } else {
            match self.policy {
                Policy::Hermes => {
                    self.phase = LbPhase::Surveying;
                },
                _ => {
                    self.result = None;
                    self.phase = LbPhase::Sampling;
                },
            }
        }
    }

    /// Counts the current event as handled and takes up the next.
    fn event_done(&mut self)
        requires
            old(self)@.slot.pending_events == old(self)@.ready.len(),
            old(self)@.ready.len() > 0,
        ensures
            final(self)@ == event_done(old(self)@),
    {
        let ghost before = self@;
        proof {
            lemma_wrap_same((before.slot.pending_events - 1) as i64);
        }
        let _ = self.ready.remove(0);
        assert(self.ready@ =~= before.ready.skip(1));
        self.slot.pending_events = self.slot.pending_events - 1;
        self.ended = false;
        self.next_ready();
    }

    /// Takes up the next request of a connection; behind the last one, closes a connection that has
    /// ended, or counts the event as handled.
    fn next_request(&mut self, fd: i32)
        requires
            old(self)@.slot.pending_events == old(self)@.ready.len(),
            old(self)@.ready.len() > 0,
        ensures
            final(self)@ == next_request(old(self)@, fd),
    {
        let ghost before = self@;
        match self.conns.take_request(fd) {
            Some(header) => {
                match decode_request(&header) {
                    Some((seq, service_us, send_ns)) => {
                        self.phase = LbPhase::Working { fd, seq, service_us, send_ns };
                    },
                    None => {
                        self.phase = LbPhase::Closing { fd };
                    },
                }
                assert(self@ =~= next_request(before, fd));
            },
            None => {
                assert(self@ =~= before);
                if self.ended {
                    self.phase = LbPhase::Closing { fd };
                } else {
                    self.event_done();
                }
            },
        }
    }
}

/// Whatever happens, the published pending events stay those taken up and not yet handled.
pub proof fn law_lb_pending_counts(s: LbState, e: LbEvent)
    requires
        lb_inv(s),
        lb_event_ok(e),
    ensures
        lb_inv(lb_after(s, e)),
{
    lemma_wrap_same(s.slot.pending_events);
    lemma_wrap_same((s.slot.pending_events - 1) as i64);
    if let LbEvent::Waited { ready } = e {
        lemma_wrap_same(ready@.len() as i64);
    }
}

/// How many connections the worker holds: the open ones, and one that is being registered.
pub open spec fn lb_held(s: LbState) -> int {
    s.conns.dom().len() + if s.phase is Registering || s.phase is Discarding {
        1int
    } else {
        0int
    }
}

/// The descriptor that an event in work belongs to.
pub open spec fn working_on(p: LbPhase) -> Option<i32> {
    match p {
        LbPhase::Reading { fd } => Some(fd),
        LbPhase::Working { fd, .. } => Some(fd),
        LbPhase::Answering { fd, .. } => Some(fd),
        LbPhase::Closing { fd } => Some(fd),
        _ => None,
    }
}

/// What holds of a worker whose system calls behave: the published connection count is the number
/// of connections held, every ready descriptor is the listener or an open connection, each once.
pub open spec fn lb_count_inv(s: LbState) -> bool {
    &&& s.conns.dom().finite()
    &&& s.slot.accumulated_conns == wrap64(lb_held(s))
    &&& forall|i: int|
        0 <= i < s.ready.len() ==> (#[trigger] s.ready[i]).fd == s.listen_fd
            || s.conns.contains_key(s.ready[i].fd)
    &&& forall|i: int, j: int|
        0 <= i < j < s.ready.len() ==> (#[trigger] s.ready[i]).fd != (#[trigger] s.ready[j]).fd
    &&& working_on(s.phase) matches Some(fd) ==> s.ready.len() > 0 && s.ready[0].fd == fd
        && s.conns.contains_key(fd)
    &&& s.phase matches LbPhase::Registering { fd } ==> !s.conns.contains_key(fd) && fd
        != s.listen_fd
    &&& !s.conns.contains_key(s.listen_fd)
    &&& (s.phase is Accepting || s.phase is Registering || s.phase is Discarding)
        ==> s.ready.len() > 0 && s.ready[0].fd == s.listen_fd
}

/// How system calls behave: ready descriptors are the listener or open connections, each reported
/// once, and an accepted descriptor is new.
pub open spec fn lb_event_sane(s: LbState, e: LbEvent) -> bool {
    match e {
        LbEvent::Waited { ready } => {
            &&& forall|i: int|
                0 <= i < ready@.len() ==> (#[trigger] ready@[i]).fd == s.listen_fd
                    || s.conns.contains_key(ready@[i].fd)
            &&& forall|i: int, j: int|
                0 <= i < j < ready@.len() ==> (#[trigger] ready@[i]).fd != (#[trigger] ready@[j]).fd
        },
        LbEvent::Accepted { fd } => !s.conns.contains_key(fd) && fd != s.listen_fd,
        _ => true,
    }
}

/// While system calls behave, the published connection count stays the number of connections held.
pub proof fn law_lb_connection_counts(s: LbState, e: LbEvent)
    requires
        lb_inv(s),
        lb_event_ok(e),
        lb_count_inv(s),
        lb_event_sane(s, e),
    ensures
        lb_count_inv(lb_after(s, e)),
{
    let t = lb_after(s, e);
    let n = s.conns.dom().len() as int;
    match (s.phase, e) {
        (LbPhase::Waiting, LbEvent::Waited { ready }) => {},
        (LbPhase::Accepting, LbEvent::Accepted { .. }) => {
            lemma_wrap_step(n, 1);
        },
        (LbPhase::Discarding { .. }, LbEvent::Discarded) => {
            lemma_wrap_step(n + 1, -1);
        },
        (LbPhase::Registering { fd }, LbEvent::Registered { ok }) => {
            if ok {
                assert(t.conns.dom() =~= s.conns.dom().insert(fd));
            }
        },
        (LbPhase::Reading { fd }, LbEvent::Bytes { .. }) => {
            assert(t.conns.dom() =~= s.conns.dom());
        },
        (LbPhase::Reading { fd }, LbEvent::ReadEnded { end }) => {
            lemma_request_keeps_table(s, fd);
            lemma_request_keeps_table(LbState { ended: true, ..s }, fd);
        },
        (LbPhase::Answering { fd, .. }, LbEvent::Written { ok }) => {
            lemma_request_keeps_table(s, fd);
        },
        (LbPhase::Accepting, LbEvent::NotAccepted) => {
            lemma_done_keeps_counts(s);
        },
        (LbPhase::Closing { fd }, LbEvent::Closed) => {
            lemma_wrap_step(n, -1);
            let u = LbState {
                conns: s.conns.remove(fd),
                slot: with_conns(s.slot, s.slot.accumulated_conns - 1),
                ..s
            };
            assert(u.conns.dom() =~= s.conns.dom().remove(fd));
            assert forall|i: int| 1 <= i < s.ready.len() implies (#[trigger] s.ready[i]).fd
                == s.listen_fd || u.conns.contains_key(s.ready[i].fd) by {
                assert(s.ready[0].fd != s.ready[i].fd);
            }
            lemma_done_keeps_counts(u);
        },
        _ => {},
    }
}

/// A worker starts with true counts.
pub proof fn law_lb_starts_with_true_counts(
    worker_id: usize,
    listen_fd: i32,
    policy: Policy,
    hang: Option<HangSpec>,
)
    ensures
        lb_count_inv(lb_start(worker_id, listen_fd, policy, hang)),
{
}

/// Only under the full policy does a worker schedule and publish.
pub proof fn law_lb_baselines_have_no_scheduler(s: LbState, e: LbEvent)
    requires
        s.policy != Policy::Hermes,
        !(s.phase is Surveying) && !(s.phase is Publishing),
        s.result.is_none(),
    ensures
        !(lb_after(s, e).phase is Surveying) && !(lb_after(s, e).phase is Publishing),
        lb_after(s, e).result.is_none(),
{
}

/// What a run of handled events keeps: the counts, and the descriptors still to be handled.
proof fn lemma_done_keeps_counts(s: LbState)
    requires
        s.ready.len() > 0,
        s.conns.dom().finite(),
        s.slot.accumulated_conns == wrap64(s.conns.dom().len() as int),
        forall|i: int|
            1 <= i < s.ready.len() ==> (#[trigger] s.ready[i]).fd == s.listen_fd
                || s.conns.contains_key(s.ready[i].fd),
        forall|i: int, j: int|
            0 <= i < j < s.ready.len() ==> (#[trigger] s.ready[i]).fd != (#[trigger] s.ready[j]).fd,
        !s.conns.contains_key(s.listen_fd),
    ensures
        lb_count_inv(event_done(s)),
{
    let t = event_done(s);
    assert(t.ready == s.ready.skip(1));
    assert forall|i: int| 0 <= i < t.ready.len() implies (#[trigger] t.ready[i]).fd == t.listen_fd
        || t.conns.contains_key(t.ready[i].fd) by {
        assert(t.ready[i] == s.ready[i + 1]);
    }
    assert forall|i: int, j: int| 0 <= i < j < t.ready.len() implies (#[trigger] t.ready[i]).fd != (
    #[trigger] t.ready[j]).fd by {
        assert(t.ready[i] == s.ready[i + 1] && t.ready[j] == s.ready[j + 1]);
    }
}

proof fn lemma_request_keeps_table(s: LbState, fd: i32)
    requires
        lb_count_inv(s),
        working_on(s.phase) == Some(fd),
    ensures
        lb_count_inv(next_request(s, fd)),
{
    if has_request(s.conns, fd) {
        let t = next_request(s, fd);
        assert(t.conns.dom() =~= s.conns.dom());
    } else if !s.ended {
        lemma_done_keeps_counts(s);
    }
}

/// A served request is answered with its own sequence number and timestamp, and the worker's
/// number, after the processing time it asked for.
pub proof fn law_answer_echoes_request(s: LbState, fd: i32, a: LbAction, b: LbAction)
    requires
        has_request(s.conns, fd),
        request_of(s.conns[fd].take(REQUEST_HEADER_LEN as int)).is_some(),
        lb_wants(next_request(s, fd), a),
        lb_wants(lb_after(next_request(s, fd), LbEvent::Slept), b),
    ensures
        request_of(s.conns[fd].take(REQUEST_HEADER_LEN as int)) matches Some((seq, service_us, send_ns))
            && a == (LbAction::Sleep { ns: (service_us * 1_000) as u128 }) && (
        b matches LbAction::Write { fd: to, bytes } && to == fd && response_of(bytes@) == (
            seq,
            s.worker_id as u32,
            send_ns,
        )),
{
    let (seq, service_us, send_ns) = request_of(
        s.conns[fd].take(REQUEST_HEADER_LEN as int),
    ).unwrap();
    law_response_round_trip(seq, s.worker_id as u32, send_ns);
}

/// A request without the magic ends the connection, unanswered.
pub proof fn law_bad_magic_ends_connection(s: LbState, fd: i32)
    requires
        has_request(s.conns, fd),
        request_of(s.conns[fd].take(REQUEST_HEADER_LEN as int)).is_none(),
    ensures
        next_request(s, fd).phase == (LbPhase::Closing { fd }),
        lb_after(next_request(s, fd), LbEvent::Closed).conns == s.conns.remove(fd),
{
    assert(s.conns.insert(fd, s.conns[fd].skip(REQUEST_HEADER_LEN as int)).remove(fd)
        =~= s.conns.remove(fd));
}

/// How many requests at the front of a list have the magic.
pub open spec fn leading_valid(requests: Seq<Seq<u8>>) -> nat
    decreases requests.len(),
{
    if requests.len() == 0 || request_of(requests[0]).is_none() {
        0
    } else {
        1 + leading_valid(requests.skip(1))
    }
}

/// The bytes that answer a request: its sequence number, the worker's number, its timestamp.
pub open spec fn answer_to(request: Seq<u8>, worker_id: usize) -> Seq<u8> {
    match request_of(request) {
        Some((seq, _, send_ns)) => response_bytes(seq, worker_id as u32, send_ns),
        None => Seq::empty(),
    }
}

/// The answers to a list of requests of a connection, in order.
pub open spec fn answers_to(
    requests: Seq<Seq<u8>>,
    fd: i32,
    worker_id: usize,
) -> Seq<Option<(i32, Seq<u8>)>> {
    requests.map_values(|r: Seq<u8>| Some((fd, answer_to(r, worker_id))))
}

/// The state once a worker has processed a request and written its answer, `n` times.
pub open spec fn served(s: LbState, n: nat) -> LbState
    decreases n,
{
    if n == 0 {
        s
    } else {
        served(
            lb_after(lb_after(s, LbEvent::Slept), LbEvent::Written { ok: true }),
            (n - 1) as nat,
        )
    }
}

/// What the worker writes while it does so.
pub open spec fn written(s: LbState, n: nat) -> Seq<Option<(i32, Seq<u8>)>>
    decreases n,
{
    if n == 0 {
        Seq::empty()
    } else {
        let t = lb_after(s, LbEvent::Slept);
        seq![answer_of(t)] + written(lb_after(t, LbEvent::Written { ok: true }), (n - 1) as nat)
    }
}

/// The state behind the requests of a connection of which `rest` is left.
pub open spec fn requests_done(s: LbState, fd: i32, rest: Seq<u8>) -> LbState {
    let t = LbState { conns: s.conns.insert(fd, rest), ..s };
    if s.ended {
        LbState { phase: LbPhase::Closing { fd }, ..t }
    } else {
        event_done(t)
    }
}

/// The requests of a connection are served one by one, from the first, until one has no magic.
#[verifier::rlimit(60)]
#[verifier::spinoff_prover]
proof fn lemma_serving(s: LbState, fd: i32)
    requires
        s.conns.contains_key(fd),
    ensures
        ({
            let requests = requests_in(s.conns[fd]);
            let n = leading_valid(requests);
            let first = next_request(s, fd);
            &&& n <= requests.len()
            &&& written(first, n) == answers_to(requests.take(n as int), fd, s.worker_id)
            &&& n < requests.len() ==> served(first, n).phase == (LbPhase::Closing { fd })
            &&& n == requests.len() ==> served(first, n) == requests_done(
                s,
                fd,
                leftover(s.conns[fd]),
            )
        }),
    decreases s.conns[fd].len(),
{
    let buf = s.conns[fd];
    let requests = requests_in(buf);
    let n = leading_valid(requests);
    let first = next_request(s, fd);
    if buf.len() < REQUEST_HEADER_LEN {
        assert(s.conns.insert(fd, buf) =~= s.conns);
        assert(written(first, 0) =~= answers_to(requests.take(0), fd, s.worker_id));
    } else {
        let rest = buf.skip(REQUEST_HEADER_LEN as int);
        assert(requests[0] == buf.take(REQUEST_HEADER_LEN as int));
        assert(requests.skip(1) =~= requests_in(rest));
        if request_of(requests[0]).is_none() {
            assert(written(first, 0) =~= answers_to(requests.take(0), fd, s.worker_id));
        } else {
            let t = LbState { conns: s.conns.insert(fd, rest), ..s };
            let later = LbState { phase: lb_after(first, LbEvent::Slept).phase, ..t };
            lemma_serving(later, fd);
            let m = leading_valid(requests_in(rest));
            assert(lb_after(lb_after(first, LbEvent::Slept), LbEvent::Written { ok: true })
                == next_request(later, fd));
            assert(answers_to(requests.take(n as int), fd, s.worker_id) =~= seq![
                Some((fd, answer_to(requests[0], s.worker_id))),
            ] + answers_to(requests_in(rest).take(m as int), fd, s.worker_id));
            assert(later.conns.insert(fd, leftover(rest)) =~= s.conns.insert(fd, leftover(rest)));
        }
    }
}

/// The state in which a worker serves what has been read of a connection.
pub open spec fn serving(s: LbState, end: ReadEnd) -> LbState {
    lb_after(s, LbEvent::ReadEnded { end })
}

/// However reading ends, the requests that have been read are answered, each once and in order, up
/// to the first without the magic. That one is not answered and the connection is closed.
pub proof fn law_requests_are_answered_in_order(s: LbState, fd: i32, end: ReadEnd)
    requires
        lb_inv(s),
        s.phase == (LbPhase::Reading { fd }),
        s.conns.contains_key(fd),
    ensures
        ({
            let requests = requests_in(s.conns[fd]);
            let n = leading_valid(requests);
            &&& n <= requests.len()
            &&& written(serving(s, end), n) == answers_to(
                requests.take(n as int),
                fd,
                s.worker_id,
            )
            &&& n < requests.len() ==> served(serving(s, end), n).phase == (LbPhase::Closing { fd })
        }),
{
    match end {
        ReadEnd::Drained => lemma_serving(s, fd),
        _ => lemma_serving(LbState { ended: true, ..s }, fd),
    }
}

/// A connection that has been drained gets one answer per whole request, in order. It stays open
/// and keeps what is left behind the requests.
pub proof fn law_drained_connection_is_answered(s: LbState, fd: i32)
    requires
        lb_inv(s),
        s.phase == (LbPhase::Reading { fd }),
        s.conns.contains_key(fd),
        leading_valid(requests_in(s.conns[fd])) == requests_in(s.conns[fd]).len(),
    ensures
        ({
            let requests = requests_in(s.conns[fd]);
            let t = serving(s, ReadEnd::Drained);
            &&& written(t, requests.len()) == answers_to(requests, fd, s.worker_id)
            &&& served(t, requests.len()) == event_done(
                LbState { conns: s.conns.insert(fd, leftover(s.conns[fd])), ..s },
            )
        }),
{
    let requests = requests_in(s.conns[fd]);
    lemma_serving(s, fd);
    assert(requests.take(requests.len() as int) =~= requests);
}

/// A connection whose peer closes or whose read fails first gets one answer per whole request that
/// had been read, in order. Only then is it closed and removed, and the count of connections lowered
/// by one.
pub proof fn law_ended_connection_is_answered_first(s: LbState, fd: i32, end: ReadEnd)
    requires
        lb_inv(s),
        s.phase == (LbPhase::Reading { fd }),
        s.conns.contains_key(fd),
        end != ReadEnd::Drained,
        leading_valid(requests_in(s.conns[fd])) == requests_in(s.conns[fd]).len(),
    ensures
        ({
            let requests = requests_in(s.conns[fd]);
            let t = serving(s, end);
            let last = served(t, requests.len());
            &&& written(t, requests.len()) == answers_to(requests, fd, s.worker_id)
            &&& last.phase == (LbPhase::Closing { fd })
            &&& lb_after(last, LbEvent::Closed).conns == s.conns.remove(fd)
            &&& lb_after(last, LbEvent::Closed).slot.accumulated_conns == wrap64(
                s.slot.accumulated_conns - 1,
            )
        }),
{
    let requests = requests_in(s.conns[fd]);
    lemma_serving(LbState { ended: true, ..s }, fd);
    assert(requests.take(requests.len() as int) =~= requests);
    assert(s.conns.insert(fd, leftover(s.conns[fd])).remove(fd) =~= s.conns.remove(fd));
}

/// How the bytes of a connection are spread over events does not matter: the answers written after
/// two drained events, the second of which brings `data`, are those to the requests in all bytes.
pub proof fn law_answers_do_not_depend_on_reads(s: LbState, t: LbState, fd: i32, data: Seq<u8>)
    requires
        lb_inv(s),
        lb_inv(t),
        s.phase == (LbPhase::Reading { fd }),
        t.phase == (LbPhase::Reading { fd }),
        s.conns.contains_key(fd),
        t.conns.contains_key(fd),
        t.conns[fd] == leftover(s.conns[fd]) + data,
        t.worker_id == s.worker_id,
        leading_valid(requests_in(s.conns[fd])) == requests_in(s.conns[fd]).len(),
        leading_valid(requests_in(t.conns[fd])) == requests_in(t.conns[fd]).len(),
    ensures
        written(serving(s, ReadEnd::Drained), requests_in(s.conns[fd]).len()) + written(
            serving(t, ReadEnd::Drained),
            requests_in(t.conns[fd]).len(),
        ) == answers_to(requests_in(s.conns[fd] + data), fd, s.worker_id),
{
    law_drained_connection_is_answered(s, fd);
    law_drained_connection_is_answered(t, fd);
    law_reads_may_split_anywhere(s.conns[fd], data);
    let a = requests_in(s.conns[fd]);
    let b = requests_in(t.conns[fd]);
    assert(answers_to(a, fd, s.worker_id) + answers_to(b, fd, s.worker_id) =~= answers_to(
        a + b,
        fd,
        s.worker_id,
    ));
}

/// A worker stops at the top of its loop only, once it is asked to, with no event left unhandled.
pub proof fn law_lb_worker_stops_between_iterations(s: LbState, e: LbEvent)
    requires
        lb_inv(s),
        s.phase != LbPhase::Draining,
        lb_after(s, e).phase == LbPhase::Draining,
    ensures
        s.phase == LbPhase::Watching,
        e == (LbEvent::Flag { shutdown: true }),
        s.ready.len() == 0,
        s.slot.pending_events == 0,
{
}

/// Only the loop entry is stamped: a worker that hangs or serves keeps its old timestamp.
pub proof fn law_lb_only_loop_entry_is_stamped(s: LbState, e: LbEvent)
    requires
        s.phase != LbPhase::Stamping,
    ensures
        lb_after(s, e).slot.last_loop_entry == s.slot.last_loop_entry,
{
}

/// The listener is drained: after an accepted connection the worker accepts again, until there is
/// none.
pub proof fn law_listener_is_drained(s: LbState, fd: i32, ok: bool)
    requires
        s.phase == LbPhase::Accepting,
    ensures
        ({
            let t = lb_after(lb_after(s, LbEvent::Accepted { fd }), LbEvent::Registered { ok });
            if ok {
                t.phase == LbPhase::Accepting && t.conns == s.conns.insert(fd, Seq::empty())
            } else {
                t.phase == (LbPhase::Discarding { fd }) && lb_after(t, LbEvent::Discarded).phase
                    == LbPhase::Accepting && lb_after(t, LbEvent::Discarded).conns == s.conns
            }
        }),
{
}

/// What to do next with a response that is being written.
#[derive(Debug, Clone, Copy, PartialEq, Eq, Structural)]
pub enum WriteStep {
    /// Write the bytes from here on.
    Write { from: usize },
    /// Give way, then write the bytes from here on.
    Yield { from: usize },
    Done,
    Failed,
}

/// A write after a call that returned `ret`.
pub open spec fn write_after(p: WriteProgress, ret: int, would_block: bool) -> WriteProgress {
    if ret > 0 {
        WriteProgress { off: (p.off + ret) as usize, ..p }
    } else if would_block && p.spins < WRITE_SPINS {
        WriteProgress { spins: (p.spins + 1) as u32, ..p }
    } else {
        p
    }
}

/// What to do next after such a call.
pub open spec fn write_step_of(p: WriteProgress, ret: int, would_block: bool) -> WriteStep {
    if ret > 0 {
        if p.off + ret < p.len {
            WriteStep::Write { from: (p.off + ret) as usize }
        } else {
            WriteStep::Done
        }
    } else if would_block && p.spins < WRITE_SPINS {
        WriteStep::Yield { from: p.off }
    } else {
        WriteStep::Failed
    }
}

/// The writing of a response.
#[derive(Debug, Clone, Copy, PartialEq, Eq, Structural)]
pub struct WriteProgress {
    /// How many bytes have been written.
    pub off: usize,
    pub len: usize,
    /// How often the socket's buffer was full.
    pub spins: u32,
}

impl WriteProgress {
    /// What holds of a write at any time.
    pub open spec fn inv(&self) -> bool {
        self.off <= self.len && self.spins <= WRITE_SPINS
    }

    /// A write of `len` bytes at its start, with the first step.
    pub fn start(len: usize) -> (r: (WriteProgress, WriteStep))
        ensures
            r.0 == (WriteProgress { off: 0, len, spins: 0 }),
            r.0.inv(),
            r.1 == (if len > 0 {
                WriteStep::Write { from: 0 }
            } else {
                WriteStep::Done
            }),
    {
        let p: WriteProgress = WriteProgress { off: 0, len, spins: 0 };
        if len > 0 {
            (p, WriteStep::Write { from: 0 })
        } else {
            (p, WriteStep::Done)
        }
    }

    /// Takes the return value of `write`. `would_block` says whether the error of a failed call is
    /// that the socket's buffer is full.
    pub fn advance(&mut self, ret: isize, would_block: bool) -> (step: WriteStep)
        requires
            old(self).inv(),
            ret <= old(self).len - old(self).off,
        ensures
            final(self).inv(),
            *final(self) == write_after(*old(self), ret as int, would_block),
            step == write_step_of(*old(self), ret as int, would_block),
            final(self).len == old(self).len,
            ret > 0 ==> final(self).off == old(self).off + ret && final(self).spins
                == old(self).spins && step == (if final(self).off < final(self).len {
                WriteStep::Write { from: final(self).off }
            } else {
                WriteStep::Done
            }),
            ret <= 0 && would_block && old(self).spins < WRITE_SPINS ==> final(self).off
                == old(self).off && final(self).spins == old(self).spins + 1 && step == (
            WriteStep::Yield { from: old(self).off }),
            ret <= 0 && !(would_block && old(self).spins < WRITE_SPINS) ==> *final(self)
                == *old(self) && step == WriteStep::Failed,
    {
        if ret > 0 {
            self.off = self.off + ret as usize;
            if self.off < self.len {
                WriteStep::Write { from: self.off }
            } else {
                WriteStep::Done
            }
        } else if would_block && self.spins < WRITE_SPINS {
            self.spins = self.spins + 1;
            WriteStep::Yield { from: self.off }
        } else {
            WriteStep::Failed
        }
    }
}

/// The agreed limits: five milliseconds of waiting, 64 events at once, a thousand tries to write
/// while a socket's buffer is full.
pub proof fn law_limits()
    ensures
        EPOLL_TIMEOUT_MS == 5,
        MAX_EVENTS == 64,
        WRITE_SPINS == 1000,
{
}

/// A request on the wire is served as it asks. Where the bytes of a connection begin with a request
/// that a client wrote, the worker sleeps for the cost in it, in microseconds, and writes the
/// response with its sequence number, the worker's own number and its timestamp. It goes on with the
/// bytes behind it.
pub proof fn law_written_request_is_served(
    s: LbState,
    fd: i32,
    seq: u32,
    service_us: u32,
    send_ns: i64,
    rest: Seq<u8>,
    a: LbAction,
)
    requires
        s.phase == (LbPhase::Reading { fd }),
        s.conns.contains_key(fd),
        s.conns[fd] == request_bytes(seq, service_us, send_ns) + rest,
    ensures
        ({
            let t = lb_after(s, LbEvent::ReadEnded { end: ReadEnd::Drained });
            let u = lb_after(t, LbEvent::Slept);
            &&& lb_wants(t, a) ==> (a matches LbAction::Sleep { ns } && ns == service_us * 1_000)
            &&& lb_wants(u, a) ==> (a matches LbAction::Write { fd: to, bytes } && to == fd && bytes@
                == response_bytes(seq, s.worker_id as u32, send_ns))
            &&& u.conns == s.conns.insert(fd, rest)
        }),
{
    law_request_round_trip(seq, service_us, send_ns);
    let buf = s.conns[fd];
    assert(buf.take(24) =~= request_bytes(seq, service_us, send_ns));
    assert(buf.skip(24) =~= rest);
    let t = next_request(s, fd);
    assert(has_request(s.conns, fd));
    assert(t.phase == (LbPhase::Working { fd, seq, service_us, send_ns }));
}

/// What becomes of an event: a new connection is accepted where the listener is ready; a connection
/// whose peer has hung up is closed; any other is read. Without events the iteration ends.
pub proof fn law_events_are_taken_up(s: LbState, ready: Vec<Ready>, a: LbAction)
    requires
        s.phase == LbPhase::Waiting,
        lb_wants(lb_after(s, LbEvent::Waited { ready }), a),
    ensures
        ready@.len() > 0 && ready@[0].fd == s.listen_fd ==> a == LbAction::Accept,
        ready@.len() > 0 && ready@[0].fd != s.listen_fd && ready@[0].hangup ==> a == (
        LbAction::Close { fd: ready@[0].fd }),
        ready@.len() > 0 && ready@[0].fd != s.listen_fd && !ready@[0].hangup ==> a == (
        LbAction::Read { fd: ready@[0].fd }),
        ready@.len() == 0 && s.policy == Policy::Hermes ==> a == LbAction::Survey,
        ready@.len() == 0 && s.policy != Policy::Hermes ==> a == LbAction::Sample,
        lb_after(s, LbEvent::Waited { ready }).conns == s.conns,
{
}

/// What is read is kept for the connection, behind what was read before, and the worker reads on.
pub proof fn law_reads_are_collected(s: LbState, fd: i32, data: Vec<u8>)
    requires
        s.phase == (LbPhase::Reading { fd }),
        s.conns.contains_key(fd),
    ensures
        lb_after(s, LbEvent::Bytes { data }).conns == s.conns.insert(fd, s.conns[fd] + data@),
        lb_after(s, LbEvent::Bytes { data }).phase == s.phase,
        lb_after(s, LbEvent::Bytes { data }).slot == s.slot,
{
}

/// A connection is closed by removing it, with the count of connections lowered by one; so does a
/// failed write.
pub proof fn law_closing_removes_the_connection(s: LbState, fd: i32, seq: u32, send_ns: i64)
    ensures
        s.phase == (LbPhase::Closing { fd }) ==> lb_after(s, LbEvent::Closed).conns
            == s.conns.remove(fd) && lb_after(s, LbEvent::Closed).slot.accumulated_conns == wrap64(
            s.slot.accumulated_conns - 1,
        ),
        s.phase == (LbPhase::Answering { fd, seq, send_ns }) ==> lb_after(
            s,
            LbEvent::Written { ok: false },
        ).phase == (LbPhase::Closing { fd }),
{
}

/// An injected hang starts at its time and not before, and lasts as long as it is set to.
pub proof fn law_lb_hang_is_as_injected(s: LbState, h: HangSpec, e: LbEvent, a: LbAction)
    requires
        s.phase == LbPhase::HangCheck,
        s.hang == Some(h),
        e is Clock,
        lb_wants(lb_after(s, e), a),
    ensures
        e->elapsed >= h.at ==> a == (LbAction::Sleep { ns: h.duration }) && lb_after(
            s,
            e,
        ).hang.is_none(),
        e->elapsed < h.at ==> a == LbAction::Wait && lb_after(s, e).hang == s.hang,
        lb_after(s, e).slot == s.slot,
{
}

/// Every iteration starts by stamping the slot with the time that was read, and the worker looks
/// whether it is asked to stop before.
pub proof fn law_lb_loop_entry_is_the_time_read(s: LbState, e: LbEvent, shutdown: bool)
    requires
        e is Clock,
    ensures
        s.phase == LbPhase::Stamping ==> lb_after(s, e).slot.last_loop_entry == e->Clock_now_ns
            && lb_after(s, e).slot.pending_events == s.slot.pending_events && lb_after(
            s,
            e,
        ).slot.accumulated_conns == s.slot.accumulated_conns,
        s.phase == LbPhase::Watching ==> lb_after(s, LbEvent::Flag { shutdown }).phase == (
        if shutdown {
            LbPhase::Draining
        } else {
            LbPhase::Stamping
        }),
{
}

/// What a worker under the full policy publishes is the candidate bitmap of a pass over the status
/// it read, at the time it read, with a worker counted as hung after 200 milliseconds. The same pass
/// goes into the row of the iteration, with what was sampled, the number of open connections, and
/// the number of the iteration, which then grows by one.
pub proof fn law_lb_worker_publishes_its_pass(
    s: LbState,
    survey: LbEvent,
    sample: LbEvent,
    a: LbAction,
)
    requires
        s.phase == LbPhase::Surveying,
        survey is Surveyed,
        sample is Sampled,
        lb_wants(lb_after(s, survey), a),
    ensures
        a == (LbAction::Publish {
            bitmap: pass(
                survey->Surveyed_snapshots@,
                survey->Surveyed_now_ns as int,
                200_000_000,
            ).bitmap,
        }),
        ({
            let t = lb_after(lb_after(s, survey), LbEvent::Published);
            let u = lb_after(t, sample);
            let v = lb_after(u, LbEvent::Recorded);
            &&& t.phase == LbPhase::Sampling
            &&& u.row == Some(
                TickRow {
                    timestamp_ns: sample->Sampled_now_ns,
                    worker_id: s.worker_id,
                    iter: s.iter,
                    snapshots: sample->Sampled_snapshots,
                    open_conns: s.conns.dom().len() as usize,
                    result: Some(
                        pass(
                            survey->Surveyed_snapshots@,
                            survey->Surveyed_now_ns as int,
                            200_000_000,
                        ),
                    ),
                    policy: s.policy,
                },
            )
            &&& s.iter < 0xffff_ffff ==> v.iter == s.iter + 1
            &&& v.phase == LbPhase::Watching
        }),
{
}

/// The row of an iteration holds what was sampled, and the pass of the iteration where one ran.
pub proof fn law_lb_iteration_is_recorded(s: LbState, sample: LbEvent)
    requires
        s.phase == LbPhase::Sampling,
        sample is Sampled,
    ensures
        lb_after(s, sample).row == Some(
            TickRow {
                timestamp_ns: sample->Sampled_now_ns,
                worker_id: s.worker_id,
                iter: s.iter,
                snapshots: sample->Sampled_snapshots,
                open_conns: s.conns.dom().len() as usize,
                result: s.result,
                policy: s.policy,
            },
        ),
        lb_after(s, sample).phase == LbPhase::Recording,
        s.iter < 0xffff_ffff ==> lb_after(lb_after(s, sample), LbEvent::Recorded).iter == s.iter + 1,
{
}

/// How many requests are answered: all up to the first that does not begin with `MREH`.
pub proof fn law_requests_up_to_the_first_bad_one(requests: Seq<Seq<u8>>, i: int)
    requires
        forall|k: int| 0 <= k < requests.len() ==> (#[trigger] requests[k]).len() == 24,
    ensures
        leading_valid(requests) <= requests.len(),
        0 <= i < leading_valid(requests) ==> requests[i][0] == 0x4d && requests[i][1] == 0x52
            && requests[i][2] == 0x45 && requests[i][3] == 0x48,
        leading_valid(requests) < requests.len() ==> !(requests[leading_valid(requests) as int][0]
            == 0x4d && requests[leading_valid(requests) as int][1] == 0x52
            && requests[leading_valid(requests) as int][2] == 0x45
            && requests[leading_valid(requests) as int][3] == 0x48),
    decreases requests.len(),
{
    if requests.len() > 0 {
        assert(requests[0].len() == 24);
        law_any_bytes_are_read(requests[0]);
        let rest = requests.skip(1);
        assert forall|k: int| 0 <= k < rest.len() implies (#[trigger] rest[k]).len() == 24 by {
            assert(rest[k] == requests[k + 1]);
        }
        law_requests_up_to_the_first_bad_one(rest, i - 1);
        if request_of(requests[0]).is_some() {
            if 0 < i < leading_valid(requests) {
                assert(requests[i] == rest[i - 1]);
            }
            if leading_valid(requests) < requests.len() {
                let n = leading_valid(requests) as int;
                assert(requests[n] == rest[n - 1]);
            }
        }
    }
}

/// The answer to a request that a client wrote has its sequence number and timestamp and the
/// worker's number, and the answers to several are theirs in order.
pub proof fn law_answers_belong_to_requests(
    requests: Seq<Seq<u8>>,
    fd: i32,
    worker_id: usize,
    seq: u32,
    service_us: u32,
    send_ns: i64,
    i: int,
)
    ensures
        answer_to(request_bytes(seq, service_us, send_ns), worker_id) == response_bytes(
            seq,
            worker_id as u32,
            send_ns,
        ),
        answers_to(requests, fd, worker_id).len() == requests.len(),
        0 <= i < requests.len() ==> answers_to(requests, fd, worker_id)[i] == Some(
            (fd, answer_to(requests[i], worker_id)),
        ),
{
    law_request_round_trip(seq, service_us, send_ns);
}

/// What stays as it is. Number, listener and policy of a worker never change; only the connection at
/// work has its bytes changed or is closed, and only registering opens one; iterations are counted
/// at their end.
pub proof fn law_lb_worker_keeps_the_rest(s: LbState, e: LbEvent, other: i32)
    requires
        working_on(s.phase) != Some(other),
        !(s.phase matches LbPhase::Registering { fd } && fd == other),
    ensures
        lb_after(s, e).worker_id == s.worker_id,
        lb_after(s, e).listen_fd == s.listen_fd,
        lb_after(s, e).policy == s.policy,
        lb_after(s, e).conns.contains_key(other) == s.conns.contains_key(other),
        s.conns.contains_key(other) ==> lb_after(s, e).conns[other] == s.conns[other],
        s.phase != LbPhase::Recording ==> lb_after(s, e).iter == s.iter,
        s.phase != LbPhase::Sampling ==> lb_after(s, e).row == s.row,
        s.phase != LbPhase::HangCheck ==> lb_after(s, e).hang == s.hang,
        s.phase is Hanging ==> lb_after(s, LbEvent::Slept).phase == LbPhase::Watching,
{
}

/// A worker starts with nothing, and looks whether it is asked to stop first.
pub proof fn law_lb_worker_starts_empty(
    worker_id: usize,
    listen_fd: i32,
    policy: Policy,
    hang: Option<HangSpec>,
    a: LbAction,
)
    requires
        lb_wants(lb_start(worker_id, listen_fd, policy, hang), a),
    ensures
        a == LbAction::ReadFlag,
        lb_start(worker_id, listen_fd, policy, hang).worker_id == worker_id,
        lb_start(worker_id, listen_fd, policy, hang).listen_fd == listen_fd,
        lb_start(worker_id, listen_fd, policy, hang).policy == policy,
        lb_start(worker_id, listen_fd, policy, hang).hang == hang,
        lb_start(worker_id, listen_fd, policy, hang).conns == Map::<i32, Seq<u8>>::empty(),
        lb_start(worker_id, listen_fd, policy, hang).iter == 0,
        lb_start(worker_id, listen_fd, policy, hang).slot.last_loop_entry == 0,
{
}

/// After an event the next one is taken up as the first was; after the last one the iteration goes
/// on to scheduling or recording.
pub proof fn law_next_event_is_taken_up(s: LbState, a: LbAction)
    requires
        lb_inv(s),
        s.phase == LbPhase::Accepting,
        lb_wants(lb_after(s, LbEvent::NotAccepted), a),
    ensures
        s.ready.len() > 1 && s.ready[1].fd == s.listen_fd ==> a == LbAction::Accept,
        s.ready.len() > 1 && s.ready[1].fd != s.listen_fd && s.ready[1].hangup ==> a == (
        LbAction::Close { fd: s.ready[1].fd }),
        s.ready.len() > 1 && s.ready[1].fd != s.listen_fd && !s.ready[1].hangup ==> a == (
        LbAction::Read { fd: s.ready[1].fd }),
        s.ready.len() == 1 ==> a == (if s.policy == Policy::Hermes {
            LbAction::Survey
        } else {
            LbAction::Sample
        }),
        lb_after(s, LbEvent::NotAccepted).ready == s.ready.skip(1),
{
}

/// What system calls say: a positive number of bytes has been read, zero is the end, and a failed
/// read leaves the connection alone exactly where there was nothing to read; a wait that a signal
/// interrupted brings no events, and one that failed otherwise no number.
pub proof fn law_system_calls_say(n: int)
    requires
        0 < n <= i32::MAX,
    ensures
        read_outcome_of(n, true) == ReadOutcome::Bytes(n as usize),
        read_outcome_of(n, false) == ReadOutcome::Bytes(n as usize),
        read_outcome_of(0, true) == ReadOutcome::End(ReadEnd::Eof),
        read_outcome_of(0, false) == ReadOutcome::End(ReadEnd::Eof),
        read_outcome_of(-n, true) == ReadOutcome::End(ReadEnd::Drained),
        read_outcome_of(-n, false) == ReadOutcome::End(ReadEnd::Failed),
        wait_outcome_of(n, true) == Some(n as usize),
        wait_outcome_of(n, false) == Some(n as usize),
        wait_outcome_of(0, true) == Some(0usize),
        wait_outcome_of(0, false) == Some(0usize),
        wait_outcome_of(-n, true) == Some(0usize),
        wait_outcome_of(-n, false).is_none(),
{
}

/// A response is written whole or the write fails. What has been written only grows, by what each
/// call took; the write is done exactly when all bytes are written, and goes on behind them
/// otherwise; it fails at the first error but a full buffer, and at that after a thousand times.
pub proof fn law_response_is_written_whole(p: WriteProgress, ret: int, would_block: bool)
    requires
        p.inv(),
        ret <= p.len - p.off,
    ensures
        write_after(p, ret, would_block).inv(),
        write_after(p, ret, would_block).len == p.len,
        ret > 0 ==> write_after(p, ret, would_block).off == p.off + ret,
        ret <= 0 ==> write_after(p, ret, would_block).off == p.off,
        write_step_of(p, ret, would_block) == WriteStep::Done <==> ret > 0 && p.off + ret == p.len,
        ret > 0 && p.off + ret < p.len ==> (write_step_of(p, ret, would_block) matches WriteStep::Write {
            from,
        } && from == p.off + ret),
        ret <= 0 && would_block && p.spins < 1000 ==> write_step_of(p, ret, would_block) == (
        WriteStep::Yield { from: p.off }) && write_after(p, ret, would_block).spins == p.spins + 1,
        ret <= 0 && !would_block ==> write_step_of(p, ret, would_block) == WriteStep::Failed,
        ret <= 0 && p.spins >= 1000 ==> write_step_of(p, ret, would_block) == WriteStep::Failed,
{
}

} // verus!
