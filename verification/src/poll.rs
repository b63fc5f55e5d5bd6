//! Waiting for connections in an accept queue.
//!
//! A poll takes what is queued, up to a batch. Where nothing is queued it looks again after a short
//! rest, until the timeout is over or the workers are asked to stop.

use crate::shm::ConnDesc;
use crate::worker::{EPOLL_TIMEOUT, MAX_EVENTS, POLL_SLEEP};
use vstd::prelude::*;

verus! {

/// What a poll waits for.
#[derive(Debug, Clone, Copy, PartialEq, Eq, Structural)]
pub enum PollPhase {
    /// The oldest queued connection.
    Popping,
    /// The time, and whether the workers are asked to stop.
    Checking,
    /// The end of a rest.
    Resting,
    /// Nothing: the batch is complete.
    Ready,
}

/// What a poll asks for.
#[derive(Debug, Clone, Copy, PartialEq, Eq, Structural)]
pub enum PollAction {
    Pop,
    Check,
    Sleep { ns: u128 },
    Return,
}

/// The outcome of what a poll asked for.
#[derive(Debug, Clone, Copy, PartialEq, Eq, Structural)]
pub enum PollEvent {
    Popped { desc: Option<ConnDesc> },
    /// The time since the poll's start, and whether the workers are asked to stop.
    Checked { elapsed: u128, shutdown: bool },
    Slept,
}

/// The state of a poll.
#[verifier::ext_equal]
pub struct PollState {
    pub phase: PollPhase,
    pub batch: Seq<ConnDesc>,
}

/// The state of a poll at its start.
pub open spec fn poll_start() -> PollState {
    PollState { phase: PollPhase::Popping, batch: Seq::empty() }
}

/// What a state asks for.
pub open spec fn poll_wants(s: PollState) -> PollAction {
    match s.phase {
        PollPhase::Popping => PollAction::Pop,
        PollPhase::Checking => PollAction::Check,
        PollPhase::Resting => PollAction::Sleep { ns: POLL_SLEEP },
        PollPhase::Ready => PollAction::Return,
    }
}

/// The state after an event. An event that the state does not wait for changes nothing.
pub open spec fn poll_after(s: PollState, e: PollEvent) -> PollState {
    match (s.phase, e) {
        (PollPhase::Popping, PollEvent::Popped { desc: Some(d) }) => PollState {
            batch: s.batch.push(d),
            phase: if s.batch.len() + 1 < MAX_EVENTS {
                PollPhase::Popping
            } else {
                PollPhase::Ready
            },
        },
        (PollPhase::Popping, PollEvent::Popped { desc: None }) => PollState {
            phase: if s.batch.len() > 0 {
                PollPhase::Ready
            } else {
                PollPhase::Checking
            },
            ..s
        },
        (PollPhase::Checking, PollEvent::Checked { elapsed, shutdown }) => PollState {
            phase: if elapsed >= EPOLL_TIMEOUT || shutdown {
                PollPhase::Ready
            } else {
                PollPhase::Resting
            },
            ..s
        },
        (PollPhase::Resting, PollEvent::Slept) => PollState { phase: PollPhase::Popping, ..s },
        _ => s,
    }
}

/// What holds of a poll at any time.
pub open spec fn poll_inv(s: PollState) -> bool {
    match s.phase {
        PollPhase::Popping => s.batch.len() < MAX_EVENTS,
        PollPhase::Checking | PollPhase::Resting => s.batch.len() == 0,
        PollPhase::Ready => s.batch.len() <= MAX_EVENTS,
    }
}

/// One poll.
#[derive(Debug)]
pub struct Poll {
    phase: PollPhase,
    batch: Vec<ConnDesc>,
}

impl View for Poll {
    type V = PollState;

    closed spec fn view(&self) -> PollState {
        PollState { phase: self.phase, batch: self.batch@ }
    }
}

impl Poll {
    /// A poll at its start.
    pub fn new() -> (p: Poll)
        ensures
            p@ == poll_start(),
            poll_inv(p@),
    {
        let p: Poll = Poll { phase: PollPhase::Popping, batch: Vec::new() };
        assert(p@ =~= poll_start());
        p
    }

    /// What the poll asks for now.
    pub fn wants(&self) -> (a: PollAction)
        ensures
            a == poll_wants(self@),
    {
        match self.phase {
            PollPhase::Popping => PollAction::Pop,
            PollPhase::Checking => PollAction::Check,
            PollPhase::Resting => PollAction::Sleep { ns: POLL_SLEEP },
            PollPhase::Ready => PollAction::Return,
        }
    }

    /// Takes the outcome of what was asked for and says what is next.
    pub fn step(&mut self, event: PollEvent) -> (a: PollAction)
        requires
            poll_inv(old(self)@),
        ensures
            final(self)@ == poll_after(old(self)@, event),
            poll_inv(final(self)@),
            a == poll_wants(final(self)@),
    {
        let ghost before = self@;
        match (self.phase, event) {
            (PollPhase::Popping, PollEvent::Popped { desc: Some(d) }) => {
                self.batch.push(d);
                self.phase = if self.batch.len() < MAX_EVENTS {
                    PollPhase::Popping
                } else {
                    PollPhase::Ready
                };
            },
            (PollPhase::Popping, PollEvent::Popped { desc: None }) => {
                self.phase = if self.batch.len() > 0 {
                    PollPhase::Ready
                } else {
                    PollPhase::Checking
                };
            },
            (PollPhase::Checking, PollEvent::Checked { elapsed, shutdown }) => {
                self.phase = if elapsed >= EPOLL_TIMEOUT || shutdown {
                    PollPhase::Ready
                } else {
                    PollPhase::Resting
                };
            },
            (PollPhase::Resting, PollEvent::Slept) => {
                self.phase = PollPhase::Popping;
            },
            _ => {},
        }
        assert(self@ =~= poll_after(before, event));
        self.wants()
    }

    /// The batch.
    pub fn into_batch(self) -> (batch: Vec<ConnDesc>)
        requires
            poll_inv(self@),
        ensures
            batch@ == self@.batch,
            batch@.len() <= MAX_EVENTS,
    {
        self.batch
    }
}

/// A poll comes back empty-handed only after the timeout, or when the workers are asked to stop.
pub proof fn law_empty_batch_means_timeout_or_stop(s: PollState, e: PollEvent)
    requires
        poll_inv(s),
        s.phase != PollPhase::Ready,
        poll_after(s, e).phase == PollPhase::Ready,
        poll_after(s, e).batch.len() == 0,
    ensures
        e matches PollEvent::Checked { elapsed, shutdown } && (elapsed >= EPOLL_TIMEOUT
            || shutdown),
{
}

/// What an event adds to a batch.
pub open spec fn newly_popped(s: PollState, e: PollEvent) -> Seq<ConnDesc> {
    match (s.phase, e) {
        (PollPhase::Popping, PollEvent::Popped { desc: Some(d) }) => seq![d],
        _ => Seq::empty(),
    }
}

/// A poll keeps what it popped, in order, and rests only while it has nothing.
pub proof fn law_poll_keeps_what_it_popped(s: PollState, e: PollEvent)
    requires
        poll_inv(s),
    ensures
        poll_inv(poll_after(s, e)),
        poll_after(s, e).batch == s.batch + newly_popped(s, e),
        poll_after(s, e).phase == PollPhase::Resting ==> s.batch.len() == 0,
{
    assert(poll_after(s, e).batch =~= s.batch + newly_popped(s, e));
}

/// How a poll goes. It takes up to four connections and comes back at once with the fourth, or with
/// what it has where no more are queued. With nothing it looks at the time; before five milliseconds
/// are over, and while the workers are not asked to stop, it rests for a fifth of a millisecond and
/// looks at the queue again.
pub proof fn law_poll_waits_five_milliseconds(
    s: PollState,
    d: ConnDesc,
    elapsed: u128,
    shutdown: bool,
)
    requires
        poll_inv(s),
    ensures
        poll_wants(poll_start()) == PollAction::Pop && poll_start().batch.len() == 0,
        s.phase == PollPhase::Popping ==> poll_wants(
            poll_after(s, PollEvent::Popped { desc: Some(d) }),
        ) == (if s.batch.len() == 3 {
            PollAction::Return
        } else {
            PollAction::Pop
        }),
        s.phase == PollPhase::Popping ==> poll_after(s, PollEvent::Popped { desc: Some(d) }).batch
            == s.batch.push(d),
        s.phase == PollPhase::Popping ==> poll_wants(
            poll_after(s, PollEvent::Popped { desc: None }),
        ) == (if s.batch.len() > 0 {
            PollAction::Return
        } else {
            PollAction::Check
        }),
        s.phase == PollPhase::Checking ==> poll_wants(
            poll_after(s, PollEvent::Checked { elapsed, shutdown }),
        ) == (if elapsed >= 5_000_000 || shutdown {
            PollAction::Return
        } else {
            PollAction::Sleep { ns: 200_000 }
        }),
        s.phase == PollPhase::Resting ==> poll_wants(poll_after(s, PollEvent::Slept))
            == PollAction::Pop,
{
}

} // verus!
