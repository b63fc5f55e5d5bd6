//! The state that the dispatching process and the workers share.
//!
//! Each worker has an accept queue: a ring with one producer, the dispatching process, and one
//! consumer, the worker. The two sides own one index each and may see the other's late; the index
//! arithmetic below is what both run on the values they see.

use crate::wst::{blank_slot, Wst, NUM_WORKERS};
use vstd::arithmetic::div_mod::{lemma_small_mod, lemma_sub_mod_noop};
use vstd::prelude::*;

verus! {

/// Capacity of each accept queue.
pub const QUEUE_CAP: usize = 512;

/// How many values an index takes before it wraps.
pub const INDEX_RANGE: u64 = 0x1_0000_0000;

/// The published candidate bitmap.
#[derive(Debug, Clone, Copy, PartialEq, Eq, Structural)]
pub struct SelMap(pub u64);

impl SelMap {
    /// Publishes a bitmap.
    pub fn store(&mut self, bitmap: u64)
        ensures
            final(self).0 == bitmap,
    {
        self.0 = bitmap;
    }

    /// The bitmap published last.
    pub fn load(&self) -> (bitmap: u64)
        ensures
            bitmap == self.0,
    {
        self.0
    }
}

/// One connection as handed from the dispatcher to a worker.
#[derive(Debug, Clone, Copy, PartialEq, Eq, Structural)]
pub struct ConnDesc {
    /// Ascending connection number.
    pub conn_id: u64,
    /// Hash of the connection's addresses.
    pub hash: u64,
    /// Monotonic time of arrival, in nanoseconds.
    pub arrival_ns: i64,
    /// Processing cost, in microseconds.
    pub service_us: u32,
    /// How long the connection stays open after processing, in milliseconds.
    pub lifetime_ms: u32,
}

/// How many entries lie between the two indices of a queue.
pub open spec fn depth_of(tail: u32, head: u32) -> int {
    (tail - head) % (INDEX_RANGE as int)
}

/// The index after `i`.
pub open spec fn index_after(i: u32) -> u32 {
    ((i + 1) % (INDEX_RANGE as int)) as u32
}

/// How many entries lie between `head` and `tail`.
pub fn depth(tail: u32, head: u32) -> (n: usize)
    ensures
        n == depth_of(tail, head),
{
    tail.wrapping_sub(head) as usize
}

/// What the producer does with its `tail` and the `head` it sees: the slot to fill and the tail
/// after it, or nothing where the queue is full.
pub open spec fn push_decision(tail: u32, head: u32) -> Option<(int, u32)> {
    if depth_of(tail, head) >= QUEUE_CAP {
        None
    } else {
        Some((tail as int % QUEUE_CAP as int, index_after(tail)))
    }
}

/// What the consumer does with its `head` and the `tail` it sees: the slot to empty and the head
/// after it, or nothing where the queue is empty.
pub open spec fn pop_decision(head: u32, tail: u32) -> Option<(int, u32)> {
    if head == tail {
        None
    } else {
        Some((head as int % QUEUE_CAP as int, index_after(head)))
    }
}

/// The producer's decision.
pub fn push_at(tail: u32, head: u32) -> (r: Option<(usize, u32)>)
    ensures
        r.is_some() == push_decision(tail, head).is_some(),
        r.is_some() ==> r.unwrap().0 == push_decision(tail, head).unwrap().0 && r.unwrap().1
            == push_decision(tail, head).unwrap().1,
        r.is_some() ==> r.unwrap().0 < QUEUE_CAP,
{
    if depth(tail, head) >= QUEUE_CAP {
        None
    } else {
        Some((tail as usize % QUEUE_CAP, tail.wrapping_add(1)))
    }
}

/// The consumer's decision.
pub fn pop_at(head: u32, tail: u32) -> (r: Option<(usize, u32)>)
    ensures
        r.is_some() == pop_decision(head, tail).is_some(),
        r.is_some() ==> r.unwrap().0 == pop_decision(head, tail).unwrap().0 && r.unwrap().1
            == pop_decision(head, tail).unwrap().1,
        r.is_some() ==> r.unwrap().0 < QUEUE_CAP,
{
    if head == tail {
        None
    } else {
        Some((head as usize % QUEUE_CAP, head.wrapping_add(1)))
    }
}

/// A queue after `desc` was offered: at the end of it, or left out where the queue is full.
pub open spec fn queue_after_push(q: Seq<ConnDesc>, desc: ConnDesc) -> Seq<ConnDesc> {
    if q.len() < QUEUE_CAP {
        q.push(desc)
    } else {
        q
    }
}

/// The entry that a pop takes.
pub open spec fn oldest_of(q: Seq<ConnDesc>) -> Option<ConnDesc> {
    if q.len() > 0 {
        Some(q[0])
    } else {
        None
    }
}

/// A queue after its oldest entry was taken.
pub open spec fn queue_after_pop(q: Seq<ConnDesc>) -> Seq<ConnDesc> {
    if q.len() > 0 {
        q.skip(1)
    } else {
        q
    }
}

/// An accept queue.
#[derive(Debug)]
pub struct ConnQueue {
    /// The producer's index.
    tail: u32,
    /// The consumer's index.
    head: u32,
    slots: Vec<ConnDesc>,
}

impl View for ConnQueue {
    type V = Seq<ConnDesc>;

    /// The queued connections, oldest first.
    closed spec fn view(&self) -> Seq<ConnDesc> {
        Seq::new(
            depth_of(self.tail, self.head) as nat,
            |i: int| self.slots@[(self.head + i) % (QUEUE_CAP as int)],
        )
    }
}

impl ConnQueue {
    /// Whether the ring is laid out as the operations expect.
    pub closed spec fn inv(&self) -> bool {
        self.slots@.len() == QUEUE_CAP && depth_of(self.tail, self.head) <= QUEUE_CAP
    }

    /// An empty queue.
    pub fn new() -> (q: ConnQueue)
        ensures
            q.inv(),
            q@ == Seq::<ConnDesc>::empty(),
    {
        let blank: ConnDesc = ConnDesc {
            conn_id: 0,
            hash: 0,
            arrival_ns: 0,
            service_us: 0,
            lifetime_ms: 0,
        };
        let mut slots: Vec<ConnDesc> = Vec::new();
        let mut i: usize = 0;
        while i < QUEUE_CAP
            invariant
                i <= QUEUE_CAP,
                slots@.len() == i,
            decreases QUEUE_CAP - i,
        {
            slots.push(blank);
            i = i + 1;
        }
        let q: ConnQueue = ConnQueue { tail: 0, head: 0, slots };
        assert(q@ =~= Seq::empty());
        q
    }

    /// Appends a connection; refuses it where the queue is full.
    pub fn push(&mut self, desc: ConnDesc) -> (accepted: bool)
        requires
            old(self).inv(),
        ensures
            final(self).inv(),
            accepted == (old(self)@.len() < QUEUE_CAP),
            final(self)@ == queue_after_push(old(self)@, desc),
    {
        let ghost before = self@;
        match push_at(self.tail, self.head) {
            None => false,
            Some((slot, tail)) => {
                proof {
                    lemma_push_slot_is_free(self.tail, self.head);
                }
                self.slots.set(slot, desc);
                self.tail = tail;
                assert(self@ =~= before.push(desc));
                true
            },
        }
    }

    /// Takes the oldest connection.
    pub fn pop(&mut self) -> (r: Option<ConnDesc>)
        requires
            old(self).inv(),
        ensures
            final(self).inv(),
            r == oldest_of(old(self)@),
            final(self)@ == queue_after_pop(old(self)@),
    {
        let ghost before = self@;
        match pop_at(self.head, self.tail) {
            None => None,
            Some((slot, head)) => {
                proof {
                    lemma_pop_moves_head(self.tail, self.head);
                }
                let desc: ConnDesc = self.slots[slot];
                self.head = head;
                assert(self@ =~= before.skip(1));
                Some(desc)
            },
        }
    }

    /// How many connections are queued.
    pub fn len(&self) -> (n: usize)
        requires
            self.inv(),
        ensures
            n == self@.len(),
            n <= QUEUE_CAP,
    {
        depth(self.tail, self.head)
    }

    /// Whether no connection is queued.
    pub fn is_empty(&self) -> (r: bool)
        requires
            self.inv(),
        ensures
            r == (self@.len() == 0),
    {
        self.len() == 0
    }
}

/// The free slot that a push fills is none of the queued ones, and becomes the last of them.
proof fn lemma_push_slot_is_free(tail: u32, head: u32)
    requires
        depth_of(tail, head) < QUEUE_CAP,
    ensures
        depth_of(index_after(tail), head) == depth_of(tail, head) + 1,
        (head + depth_of(tail, head)) % (QUEUE_CAP as int) == tail as int % QUEUE_CAP as int,
        forall|i: int|
            0 <= i < depth_of(tail, head) ==> #[trigger] ((head + i) % (QUEUE_CAP as int))
                != tail as int % QUEUE_CAP as int,
{
}

/// Taking the oldest entry moves every other one place forward.
proof fn lemma_pop_moves_head(tail: u32, head: u32)
    requires
        head != tail,
        depth_of(tail, head) <= QUEUE_CAP,
    ensures
        depth_of(tail, head) > 0,
        depth_of(tail, index_after(head)) == depth_of(tail, head) - 1,
        forall|i: int|
            0 <= i ==> #[trigger] ((index_after(head) + i) % (QUEUE_CAP as int)) == (head + i + 1)
                % (QUEUE_CAP as int),
{
}

/// The shared state.
#[derive(Debug)]
pub struct SharedState {
    pub wst: Wst,
    pub msel: SelMap,
    /// One once all traffic has been sent.
    pub shutdown: u32,
    /// Per worker, how many connections a full accept queue has refused.
    pub drops: [u64; NUM_WORKERS],
    pub queues: [ConnQueue; NUM_WORKERS],
}

impl SharedState {
    /// Whether every queue is laid out as the operations expect.
    pub open spec fn inv(&self) -> bool {
        forall|i: int| 0 <= i < NUM_WORKERS ==> (#[trigger] self.queues@[i]).inv()
    }

    /// The state before any worker has started.
    pub fn new() -> (s: SharedState)
        ensures
            s.inv(),
            forall|i: int| 0 <= i < NUM_WORKERS ==> #[trigger] s.wst.slots@[i] == blank_slot(),
            s.msel.0 == 0,
            s.shutdown == 0,
            forall|i: int| 0 <= i < NUM_WORKERS ==> #[trigger] s.drops@[i] == 0,
            forall|i: int|
                0 <= i < NUM_WORKERS ==> (#[trigger] s.queues@[i])@ == Seq::<ConnDesc>::empty(),
    {
        SharedState {
            wst: Wst::new(),
            msel: SelMap(0),
            shutdown: 0,
            drops: [0, 0, 0, 0],
            queues: [ConnQueue::new(), ConnQueue::new(), ConnQueue::new(), ConnQueue::new()],
        }
    }

    /// Whether the workers have been asked to stop.
    pub fn shutdown_requested(&self) -> (r: bool)
        ensures
            r == (self.shutdown == 1),
    {
        self.shutdown == 1
    }

    /// Asks the workers to stop.
    pub fn request_shutdown(&mut self)
        ensures
            *final(self) == (SharedState { shutdown: 1, ..*old(self) }),
    {
        self.shutdown = 1;
    }
}

/// One operation on a queue.
pub enum QueueOp {
    Push(ConnDesc),
    Pop,
}

/// What a run of operations has accepted, handed out and left queued.
pub struct QueueRun {
    pub accepted: Seq<ConnDesc>,
    pub taken: Seq<ConnDesc>,
    pub queued: Seq<ConnDesc>,
}

/// The run of `ops` on an empty queue.
pub open spec fn run_of(ops: Seq<QueueOp>) -> QueueRun
    decreases ops.len(),
{
    if ops.len() == 0 {
        QueueRun { accepted: Seq::empty(), taken: Seq::empty(), queued: Seq::empty() }
    } else {
        let before = run_of(ops.drop_last());
        match ops.last() {
            QueueOp::Push(desc) => QueueRun {
                accepted: if before.queued.len() < QUEUE_CAP {
                    before.accepted.push(desc)
                } else {
                    before.accepted
                },
                taken: before.taken,
                queued: queue_after_push(before.queued, desc),
            },
            QueueOp::Pop => QueueRun {
                accepted: before.accepted,
                taken: match oldest_of(before.queued) {
                    Some(desc) => before.taken.push(desc),
                    None => before.taken,
                },
                queued: queue_after_pop(before.queued),
            },
        }
    }
}

/// Connections leave a queue in the order in which it accepted them, none is lost or doubled, and
/// it never holds more than its capacity.
pub proof fn law_queue_is_fifo(ops: Seq<QueueOp>)
    ensures
        run_of(ops).taken + run_of(ops).queued == run_of(ops).accepted,
        run_of(ops).queued.len() <= QUEUE_CAP,
    decreases ops.len(),
{
    if ops.len() == 0 {
        assert(run_of(ops).taken + run_of(ops).queued =~= run_of(ops).accepted);
    } else {
        law_queue_is_fifo(ops.drop_last());
        let before = run_of(ops.drop_last());
        let after = run_of(ops);
        assert(before.taken + before.queued == before.accepted);
        assert(after.taken + after.queued =~= after.accepted);
    }
}

/// Both sides of a queue, with indices that never wrap: how many entries have been pushed and
/// popped, and the last value that each side has seen of the other's count.
pub struct TwoSided {
    pub pushed: nat,
    pub popped: nat,
    /// What the producer has seen of `popped`.
    pub seen_popped: nat,
    /// What the consumer has seen of `pushed`.
    pub seen_pushed: nat,
}

impl TwoSided {
    /// What holds of both sides at any time.
    pub open spec fn valid(self) -> bool {
        &&& self.seen_popped <= self.popped
        &&& self.popped <= self.seen_pushed
        &&& self.seen_pushed <= self.pushed
        &&& self.pushed <= self.seen_popped + QUEUE_CAP
    }
}

/// The slot that entry number `n` is kept in.
pub open spec fn slot_of(n: int) -> int {
    n % (QUEUE_CAP as int)
}

/// A count as the index that stands for it.
pub open spec fn wrapped(n: nat) -> u32 {
    (n % (INDEX_RANGE as nat)) as u32
}

/// The distance of two counts that are less than a whole range apart survives the wrapping, and so
/// does the slot that a count stands for.
proof fn lemma_wrapped_distance(high: nat, low: nat)
    requires
        low <= high,
        high - low < INDEX_RANGE,
    ensures
        depth_of(wrapped(high), wrapped(low)) == high - low,
{
    let m = INDEX_RANGE as int;
    let a = high as int;
    let b = low as int;
    assert((a % m - b % m) % m == (a - b) % m) by {
        lemma_sub_mod_noop(a, b, m);
    }
    lemma_small_mod((high - low) as nat, m as nat);
}

proof fn lemma_wrapped_slot(n: nat)
    ensures
        wrapped(n) as int % QUEUE_CAP as int == n as int % QUEUE_CAP as int,
        index_after(wrapped(n)) == wrapped(n + 1),
{
}

/// However stale the head that the producer sees, a push it accepts fills a slot that holds no
/// unread entry; it refuses only where the entries it knows of fill the queue.
pub proof fn law_push_never_overwrites(s: TwoSided)
    requires
        s.valid(),
    ensures
        push_decision(wrapped(s.pushed), wrapped(s.seen_popped)) == (if s.pushed - s.seen_popped
            < QUEUE_CAP {
            Some((slot_of(s.pushed as int), wrapped(s.pushed + 1)))
        } else {
            None
        }),
        s.pushed - s.seen_popped < QUEUE_CAP ==> (TwoSided { pushed: s.pushed + 1, ..s }).valid(),
        s.pushed - s.seen_popped < QUEUE_CAP ==> forall|k: int|
            s.popped <= k < s.pushed ==> #[trigger] slot_of(k) != slot_of(s.pushed as int),
{
    lemma_wrapped_distance(s.pushed, s.seen_popped);
    lemma_wrapped_slot(s.pushed);
}

/// However stale the tail that the consumer sees, a pop takes the oldest entry, which has been
/// pushed; it finds the queue empty only where it knows of no more entries.
pub proof fn law_pop_takes_published(s: TwoSided)
    requires
        s.valid(),
    ensures
        pop_decision(wrapped(s.popped), wrapped(s.seen_pushed)) == (if s.popped < s.seen_pushed {
            Some((slot_of(s.popped as int), wrapped(s.popped + 1)))
        } else {
            None
        }),
        s.popped < s.seen_pushed ==> s.popped < s.pushed,
        s.popped < s.seen_pushed ==> (TwoSided { popped: s.popped + 1, ..s }).valid(),
{
    lemma_wrapped_distance(s.seen_pushed, s.popped);
    lemma_wrapped_slot(s.popped);
}

/// Seeing more of the other side keeps both sides valid.
pub proof fn law_looking_is_harmless(s: TwoSided, popped: nat, pushed: nat)
    requires
        s.valid(),
        s.seen_popped <= popped <= s.popped,
        s.seen_pushed <= pushed <= s.pushed,
    ensures
        (TwoSided { seen_popped: popped, ..s }).valid(),
        (TwoSided { seen_pushed: pushed, ..s }).valid(),
{
}

/// A queue takes connections at its end while it holds fewer than 512, and refuses them from then
/// on; a pop takes the first and moves the others up by one.
pub proof fn law_queue_holds_512(q: Seq<ConnDesc>, desc: ConnDesc, i: int)
    ensures
        q.len() < 512 ==> queue_after_push(q, desc).len() == q.len() + 1 && queue_after_push(
            q,
            desc,
        )[q.len() as int] == desc,
        q.len() < 512 && 0 <= i < q.len() ==> queue_after_push(q, desc)[i] == q[i],
        q.len() >= 512 ==> queue_after_push(q, desc) == q,
        q.len() == 0 ==> oldest_of(q).is_none() && queue_after_pop(q) == q,
        q.len() > 0 ==> oldest_of(q) == Some(q[0]) && queue_after_pop(q).len() == q.len() - 1,
        0 < i < q.len() ==> queue_after_pop(q)[i - 1] == q[i],
{
}

/// What the two sides decide, by how many entries have been pushed and popped since the start,
/// however often the 32-bit indices have wrapped. The depth is the difference; a push is refused
/// exactly with 512 entries between, and goes to the slot that its number names in turn; a pop
/// finds nothing exactly where all that was pushed has been popped.
pub proof fn law_indices_count_entries(pushed: nat, popped: nat)
    requires
        popped <= pushed,
        pushed - popped < 0x1_0000_0000,
    ensures
        depth_of((pushed % 0x1_0000_0000) as u32, (popped % 0x1_0000_0000) as u32) == pushed
            - popped,
        pushed - popped >= 512 ==> push_decision(
            (pushed % 0x1_0000_0000) as u32,
            (popped % 0x1_0000_0000) as u32,
        ).is_none(),
        pushed - popped < 512 ==> push_decision(
            (pushed % 0x1_0000_0000) as u32,
            (popped % 0x1_0000_0000) as u32,
        ) == Some((pushed as int % 512, ((pushed + 1) % 0x1_0000_0000) as u32)),
        pushed == popped ==> pop_decision(
            (popped % 0x1_0000_0000) as u32,
            (pushed % 0x1_0000_0000) as u32,
        ).is_none(),
        pushed > popped ==> pop_decision(
            (popped % 0x1_0000_0000) as u32,
            (pushed % 0x1_0000_0000) as u32,
        ) == Some((popped as int % 512, ((popped + 1) % 0x1_0000_0000) as u32)),
{
    lemma_wrapped_distance(pushed, popped);
    lemma_wrapped_slot(pushed);
    lemma_wrapped_slot(popped);
}

/// A run of operations grows by one operation at a time: a push adds to what was accepted exactly
/// where fewer than 512 are queued, and a pop adds the oldest queued entry to what was taken.
pub proof fn law_run_grows_by_operations(ops: Seq<QueueOp>, desc: ConnDesc)
    ensures
        run_of(Seq::empty()).accepted.len() == 0,
        run_of(Seq::empty()).taken.len() == 0,
        run_of(ops).queued.len() < 512 ==> run_of(ops.push(QueueOp::Push(desc))).accepted == run_of(
            ops,
        ).accepted.push(desc),
        run_of(ops).queued.len() >= 512 ==> run_of(ops.push(QueueOp::Push(desc))).accepted
            == run_of(ops).accepted,
        run_of(ops.push(QueueOp::Push(desc))).taken == run_of(ops).taken,
        run_of(ops.push(QueueOp::Pop)).accepted == run_of(ops).accepted,
        run_of(ops).queued.len() > 0 ==> run_of(ops.push(QueueOp::Pop)).taken == run_of(
            ops,
        ).taken.push(run_of(ops).queued[0]),
        run_of(ops).queued.len() == 0 ==> run_of(ops.push(QueueOp::Pop)).taken == run_of(ops).taken,
{
    assert(ops.push(QueueOp::Push(desc)).drop_last() =~= ops);
    assert(ops.push(QueueOp::Pop).drop_last() =~= ops);
}

} // verus!
