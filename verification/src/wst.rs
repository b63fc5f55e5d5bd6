//! Worker Status Table: what each worker reports of itself.
//!
//! A worker is the only writer of its own slot. Readers take a point-in-time copy of a slot and
//! may see values that are slightly stale.

use vstd::prelude::*;

verus! {

/// Number of worker processes.
pub const NUM_WORKERS: usize = 4;

/// One worker's status.
#[derive(Debug, Clone, Copy, PartialEq, Eq, Structural)]
pub struct WorkerSlot {
    /// Monotonic time of the most recent loop entry, in nanoseconds; zero before the first.
    pub last_loop_entry: i64,
    /// Events taken up and not yet handled.
    pub pending_events: i64,
    /// Connections held open.
    pub accumulated_conns: i64,
}

/// A point-in-time copy of a slot.
#[derive(Debug, Clone, Copy, PartialEq, Eq, Structural)]
pub struct WorkerSnapshot {
    pub last_loop_entry: i64,
    pub pending_events: i64,
    pub accumulated_conns: i64,
}

/// What a snapshot of `slot` holds.
pub open spec fn snapshot_of(slot: WorkerSlot) -> WorkerSnapshot {
    WorkerSnapshot {
        last_loop_entry: slot.last_loop_entry,
        pending_events: slot.pending_events,
        accumulated_conns: slot.accumulated_conns,
    }
}

/// What a slot holds before its worker has started.
pub open spec fn blank_slot() -> WorkerSlot {
    WorkerSlot { last_loop_entry: 0, pending_events: 0, accumulated_conns: 0 }
}

impl WorkerSlot {
    /// The slot of a worker that has not started.
    pub fn new() -> (slot: WorkerSlot)
        ensures
            slot == blank_slot(),
    {
        WorkerSlot { last_loop_entry: 0, pending_events: 0, accumulated_conns: 0 }
    }

    /// Copies the three values.
    pub fn snapshot(&self) -> (s: WorkerSnapshot)
        ensures
            s == snapshot_of(*self),
    {
        WorkerSnapshot {
            last_loop_entry: self.last_loop_entry,
            pending_events: self.pending_events,
            accumulated_conns: self.accumulated_conns,
        }
    }
}

/// The table of all workers' slots.
#[derive(Debug, Clone, Copy, PartialEq, Eq)]
pub struct Wst {
    pub slots: [WorkerSlot; NUM_WORKERS],
}

/// What the snapshots of a table's slots hold, in worker order.
pub open spec fn snapshots_of(wst: Wst) -> Seq<WorkerSnapshot> {
    Seq::new(NUM_WORKERS as nat, |i: int| snapshot_of(wst.slots@[i]))
}

impl Wst {
    /// The table before any worker has started.
    pub fn new() -> (wst: Wst)
        ensures
            forall|i: int| 0 <= i < NUM_WORKERS ==> #[trigger] wst.slots@[i] == blank_slot(),
    {
        let s: WorkerSlot = WorkerSlot::new();
        Wst { slots: [s, s, s, s] }
    }

    /// The slot of worker `worker_id`.
    pub fn slot(&self, worker_id: usize) -> (slot: &WorkerSlot)
        requires
            worker_id < NUM_WORKERS,
        ensures
            *slot == self.slots@[worker_id as int],
    {
        &self.slots[worker_id]
    }

    /// Copies the whole table.
    pub fn snapshot_all(&self) -> (s: [WorkerSnapshot; NUM_WORKERS])
        ensures
            s@ == snapshots_of(*self),
    {
        let s: [WorkerSnapshot; NUM_WORKERS] = [
            self.slots[0].snapshot(),
            self.slots[1].snapshot(),
            self.slots[2].snapshot(),
            self.slots[3].snapshot(),
        ];
        assert(s@ =~= snapshots_of(*self));
        s
    }
}

/// The nanoseconds of a clock reading of `sec` seconds and `nsec` nanoseconds.
pub fn timespec_ns(sec: i64, nsec: i64) -> (ns: i64)
    requires
        i64::MIN <= sec * 1_000_000_000,
        sec * 1_000_000_000 <= i64::MAX,
        i64::MIN <= sec * 1_000_000_000 + nsec <= i64::MAX,
    ensures
        ns == sec * 1_000_000_000 + nsec,
{
    sec * 1_000_000_000 + nsec
}

/// A snapshot of the table holds what the slots hold, worker by worker and value by value.
pub proof fn law_snapshots_copy_slots(wst: Wst, i: int)
    requires
        0 <= i < 4,
    ensures
        snapshots_of(wst).len() == 4,
        snapshots_of(wst)[i].last_loop_entry == wst.slots@[i].last_loop_entry,
        snapshots_of(wst)[i].pending_events == wst.slots@[i].pending_events,
        snapshots_of(wst)[i].accumulated_conns == wst.slots@[i].accumulated_conns,
        snapshot_of(wst.slots@[i]) == snapshots_of(wst)[i],
        blank_slot().last_loop_entry == 0 && blank_slot().pending_events == 0
            && blank_slot().accumulated_conns == 0,
{
}

} // verus!
