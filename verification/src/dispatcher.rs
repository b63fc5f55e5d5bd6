//! Which worker receives a new connection.

use crate::bits::{bit, count_ones, law_bit_is_binary_digit, lemma_ones_grow};
use crate::bits::{lemma_ones_stop, ones, test_bit};
use crate::policy::Policy;
use crate::scheduler::{law_bitmap_is_last_stage, law_hung_worker_excluded};
use crate::scheduler::{lemma_stages_ascend, pass, stage3};
use crate::shm::SharedState;
use crate::wst::{WorkerSnapshot, NUM_WORKERS};
use vstd::prelude::*;

verus! {

/// A 32-bit hash scaled to the range below `n`.
pub open spec fn scaled(hash: int, n: int) -> int {
    (hash * n) / 0x1_0000_0000
}

/// The low half of a connection hash, which the dispatch works on.
pub open spec fn low_half(hash: u64) -> int {
    hash as int % 0x1_0000_0000
}

/// The worker below `k` with bit `n` of a bitmap, counting set bits from zero.
pub open spec fn nth_worker_below(bitmap: u64, n: int, k: nat) -> Option<int>
    decreases k,
{
    if k == 0 {
        None
    } else if bit(bitmap, k - 1) && ones(bitmap, (k - 1) as nat) == n {
        Some(k - 1)
    } else {
        nth_worker_below(bitmap, n, (k - 1) as nat)
    }
}

/// The worker with set bit number `n` of a bitmap.
pub open spec fn nth_worker(bitmap: u64, n: int) -> Option<int> {
    nth_worker_below(bitmap, n, NUM_WORKERS as nat)
}

/// The worker that the stateless hash picks.
pub open spec fn hash_choice(hash: u64) -> int {
    scaled(low_half(hash), NUM_WORKERS as int)
}

/// The worker that is picked among the candidates of a bitmap; by the stateless hash where there
/// is at most one.
pub open spec fn hermes_choice(bitmap: u64, hash: u64) -> int {
    let n = ones(bitmap, 64) as int;
    if n <= 1 {
        hash_choice(hash)
    } else {
        match nth_worker(bitmap, scaled(low_half(hash), n)) {
            Some(worker) => worker,
            None => NUM_WORKERS - 1,
        }
    }
}

/// What the dispatcher sees of the workers' backlogs.
#[derive(Debug, Clone, Copy, PartialEq, Eq)]
pub struct Backlog {
    /// Lengths of the accept queues.
    pub queue_lens: [usize; NUM_WORKERS],
    /// Events taken up and not yet handled.
    pub pending_events: [i64; NUM_WORKERS],
}

impl Backlog {
    /// The queue lengths, in worker order.
    pub open spec fn lens(self) -> Seq<int> {
        Seq::new(NUM_WORKERS as nat, |i: int| self.queue_lens@[i] as int)
    }

    /// The pending-event counts, in worker order.
    pub open spec fn pending(self) -> Seq<int> {
        Seq::new(NUM_WORKERS as nat, |i: int| self.pending_events@[i] as int)
    }
}

/// Whether a worker has nothing queued and nothing in work.
pub open spec fn idle(lens: Seq<int>, pending: Seq<int>, worker: int) -> bool {
    lens[worker] == 0 && pending[worker] == 0
}

/// Whether some worker is idle.
pub open spec fn some_idle(lens: Seq<int>, pending: Seq<int>) -> bool {
    exists|i: int| 0 <= i < NUM_WORKERS && #[trigger] idle(lens, pending, i)
}

/// Whether `worker` is first in line: the highest idle worker; where none is idle, one with the
/// shortest queue, the highest of those.
pub open spec fn first_in_line(lens: Seq<int>, pending: Seq<int>, worker: int) -> bool {
    &&& 0 <= worker < NUM_WORKERS
    &&& if some_idle(lens, pending) {
        idle(lens, pending, worker) && forall|i: int|
            worker < i < NUM_WORKERS ==> !#[trigger] idle(lens, pending, i)
    } else {
        forall|i: int|
            0 <= i < NUM_WORKERS ==> lens[worker] < #[trigger] lens[i] || (lens[worker] == lens[i]
                && i <= worker)
    }
}

/// Whether a policy hands a connection to `worker`.
pub open spec fn is_choice(
    worker: int,
    policy: Policy,
    bitmap: u64,
    lens: Seq<int>,
    pending: Seq<int>,
    hash: u64,
) -> bool {
    match policy {
        Policy::Hermes => worker == hermes_choice(bitmap, hash),
        Policy::Lifo => first_in_line(lens, pending, worker),
        Policy::ReuseportHash => worker == hash_choice(hash),
    }
}

/// The worker that a policy hands a connection to.
pub open spec fn choice_of(
    policy: Policy,
    bitmap: u64,
    lens: Seq<int>,
    pending: Seq<int>,
    hash: u64,
) -> int {
    choose|worker: int| is_choice(worker, policy, bitmap, lens, pending, hash)
}

/// The queue lengths in a shared state, in worker order.
pub open spec fn queue_lens_of(shared: SharedState) -> Seq<int> {
    Seq::new(NUM_WORKERS as nat, |i: int| shared.queues@[i]@.len() as int)
}

/// The pending-event counts in a shared state, in worker order.
pub open spec fn pending_of(shared: SharedState) -> Seq<int> {
    Seq::new(NUM_WORKERS as nat, |i: int| shared.wst.slots@[i].pending_events as int)
}

/// Reads the backlogs out of the shared state.
pub fn backlog_of(shared: &SharedState) -> (b: Backlog)
    requires
        shared.inv(),
    ensures
        b.lens() == queue_lens_of(*shared),
        b.pending() == pending_of(*shared),
{
    let b: Backlog = Backlog {
        queue_lens: [
            shared.queues[0].len(),
            shared.queues[1].len(),
            shared.queues[2].len(),
            shared.queues[3].len(),
        ],
        pending_events: [
            shared.wst.slot(0).pending_events,
            shared.wst.slot(1).pending_events,
            shared.wst.slot(2).pending_events,
            shared.wst.slot(3).pending_events,
        ],
    };
    assert(b.lens() =~= queue_lens_of(*shared));
    assert(b.pending() =~= pending_of(*shared));
    b
}

/// Picks the worker that receives the connection with the given hash.
pub fn dispatch(shared: &SharedState, policy: Policy, conn_hash: u64) -> (worker: usize)
    requires
        shared.inv(),
    ensures
        worker < NUM_WORKERS,
        is_choice(
            worker as int,
            policy,
            shared.msel.0,
            queue_lens_of(*shared),
            pending_of(*shared),
            conn_hash,
        ),
{
    let backlog: Backlog = backlog_of(shared);
    pick_worker(policy, shared.msel.load(), &backlog, conn_hash)
}

/// Picks the worker from the published bitmap and the backlogs that were read.
pub fn pick_worker(
    policy: Policy,
    bitmap: u64,
    backlog: &Backlog,
    conn_hash: u64,
) -> (worker: usize)
    ensures
        worker < NUM_WORKERS,
        is_choice(worker as int, policy, bitmap, backlog.lens(), backlog.pending(), conn_hash),
{
    match policy {
        Policy::Hermes => dispatch_hermes(bitmap, conn_hash),
        Policy::Lifo => dispatch_lifo(backlog),
        Policy::ReuseportHash => reuseport_hash(conn_hash),
    }
}

/// Picks among the candidates of a bitmap by hash.
pub fn dispatch_hermes(bitmap: u64, conn_hash: u64) -> (worker: usize)
    ensures
        worker == hermes_choice(bitmap, conn_hash),
        worker < NUM_WORKERS,
{
    let n: u32 = count_ones(bitmap);
    if n <= 1 {
        return reuseport_hash(conn_hash);
    }
    let nth: u32 = reciprocal_scale(conn_hash, n);
    find_nth_set_bit(bitmap, nth)
}

/// Maps the low half of a hash to the range below `n`.
pub fn reciprocal_scale(hash: u64, n: u32) -> (r: u32)
    ensures
        r == scaled(low_half(hash), n as int),
        n > 0 ==> r < n,
{
    let low: u32 = hash as u32;
    assert(low == hash % 0x1_0000_0000) by (bit_vector)
        requires
            low == hash as u32,
    ;
    scale_hash(low, n)
}

/// Maps a 32-bit hash to the range below `n`, with one multiplication and one shift.
pub fn scale_hash(hash: u32, n: u32) -> (r: u32)
    ensures
        r == scaled(hash as int, n as int),
        n > 0 ==> r < n,
{
    proof {
        lemma_scaled_in_range(hash as int, n as int);
        assert(hash * n <= 0xffff_ffff * 0xffff_ffff) by (nonlinear_arith)
            requires
                hash <= 0xffff_ffff,
                n <= 0xffff_ffff,
        ;
    }
    let product: u64 = hash as u64 * n as u64;
    assert(product >> 32 == product / 0x1_0000_0000) by (bit_vector);
    (product >> 32) as u32
}

/// The worker with set bit number `nth`; the last worker where there is no such bit.
pub fn find_nth_set_bit(bitmap: u64, nth: u32) -> (worker: usize)
    ensures
        worker == (match nth_worker(bitmap, nth as int) {
            Some(w) => w,
            None => NUM_WORKERS - 1,
        }),
        worker < NUM_WORKERS,
{
    match position_of_nth(bitmap, nth) {
        Some(worker) => worker,
        None => NUM_WORKERS - 1,
    }
}

/// The worker with set bit number `nth`, if there is one.
pub fn position_of_nth(bitmap: u64, nth: u32) -> (r: Option<usize>)
    ensures
        r.is_some() == nth_worker(bitmap, nth as int).is_some(),
        r.is_some() ==> r.unwrap() == nth_worker(bitmap, nth as int).unwrap() && r.unwrap()
            < NUM_WORKERS,
{
    let mut seen: u32 = 0;
    let mut i: usize = 0;
    while i < NUM_WORKERS
        invariant
            i <= NUM_WORKERS,
            seen == ones(bitmap, i as nat),
            seen <= i,
            nth_worker_below(bitmap, nth as int, i as nat).is_none(),
        decreases NUM_WORKERS - i,
    {
        if test_bit(bitmap, i) {
            if seen == nth {
                proof {
                    lemma_nth_found(bitmap, nth as int, i as nat, NUM_WORKERS as nat);
                }
                return Some(i);
            }
            seen = seen + 1;
        }
        i = i + 1;
    }
    None
}

/// The stateless hash over all workers.
pub fn reuseport_hash(conn_hash: u64) -> (worker: usize)
    ensures
        worker == hash_choice(conn_hash),
        worker < NUM_WORKERS,
{
    reciprocal_scale(conn_hash, NUM_WORKERS as u32) as usize
}

/// Exclusive wakeup: the wait queue's head is the last worker, and a busy one is passed over.
/// Where all are busy the shortest backlog gets the connection.
pub fn dispatch_lifo(backlog: &Backlog) -> (worker: usize)
    ensures
        first_in_line(backlog.lens(), backlog.pending(), worker as int),
{
    let ghost lens = backlog.lens();
    let ghost pending = backlog.pending();
    let mut k: usize = NUM_WORKERS;
    while k > 0
        invariant
            k <= NUM_WORKERS,
            lens == backlog.lens(),
            pending == backlog.pending(),
            forall|i: int| k <= i < NUM_WORKERS ==> !#[trigger] idle(lens, pending, i),
        decreases k,
    {
        if backlog.queue_lens[k - 1] == 0 && backlog.pending_events[k - 1] == 0 {
            assert(idle(lens, pending, k - 1));
            return k - 1;
        }
        assert(!idle(lens, pending, k - 1));
        k = k - 1;
    }
    assert(!some_idle(lens, pending));
    let mut best: usize = 0;
    let mut i: usize = 1;
    while i < NUM_WORKERS
        invariant
            1 <= i <= NUM_WORKERS,
            lens == backlog.lens(),
            best < i,
            forall|j: int|
                0 <= j < i ==> lens[best as int] < #[trigger] lens[j] || (lens[best as int]
                    == lens[j] && j <= best),
        decreases NUM_WORKERS - i,
    {
        assert(lens[i as int] == backlog.queue_lens@[i as int]);
        assert(lens[best as int] == backlog.queue_lens@[best as int]);
        if backlog.queue_lens[i] <= backlog.queue_lens[best] {
            best = i;
        }
        i = i + 1;
    }
    best
}

proof fn lemma_scaled_in_range(hash: int, n: int)
    requires
        0 <= hash < 0x1_0000_0000,
        0 <= n,
    ensures
        0 <= scaled(hash, n),
        n > 0 ==> scaled(hash, n) < n,
        n == 0 ==> scaled(hash, n) == 0,
{
    assert(0 <= hash * n) by (nonlinear_arith)
        requires
            0 <= hash,
            0 <= n,
    ;
    if n > 0 {
        assert(hash * n < 0x1_0000_0000 * n) by (nonlinear_arith)
            requires
                hash < 0x1_0000_0000,
                n > 0,
        ;
    } else {
        assert(hash * 0 == 0) by (nonlinear_arith);
    }
}

/// The set bit number `n` found at `i` stays the one found in any larger range.
proof fn lemma_nth_found(bitmap: u64, n: int, i: nat, k: nat)
    requires
        i < k,
        bit(bitmap, i as int),
        ones(bitmap, i) == n,
    ensures
        nth_worker_below(bitmap, n, k) == Some(i as int),
    decreases k,
{
    if k > i + 1 {
        lemma_nth_found(bitmap, n, i, (k - 1) as nat);
        lemma_ones_grow(bitmap, i, (k - 1) as nat);
    }
}

/// What `nth_worker` names: a set bit with `n` set bits below it. There is one exactly when the
/// workers' part of the bitmap has more than `n` bits.
pub proof fn law_nth_worker(bitmap: u64, n: int)
    requires
        0 <= n,
    ensures
        nth_worker(bitmap, n).is_some() == (n < ones(bitmap, NUM_WORKERS as nat)),
        nth_worker(bitmap, n) matches Some(w) ==> 0 <= w < NUM_WORKERS && bit(bitmap, w) && ones(
            bitmap,
            w as nat,
        ) == n,
{
    lemma_nth_below(bitmap, n, NUM_WORKERS as nat);
}

proof fn lemma_nth_below(bitmap: u64, n: int, k: nat)
    requires
        0 <= n,
    ensures
        nth_worker_below(bitmap, n, k).is_some() == (n < ones(bitmap, k)),
        nth_worker_below(bitmap, n, k) matches Some(w) ==> 0 <= w < k && bit(bitmap, w) && ones(
            bitmap,
            w as nat,
        ) == n,
    decreases k,
{
    if k > 0 {
        lemma_nth_below(bitmap, n, (k - 1) as nat);
    }
}

/// With two candidates or more, all of them workers, the pick is one of the candidates.
pub proof fn law_pick_is_candidate(bitmap: u64, hash: u64)
    requires
        ones(bitmap, 64) >= 2,
        forall|i: int| NUM_WORKERS <= i < 64 ==> !#[trigger] bit(bitmap, i),
    ensures
        0 <= hermes_choice(bitmap, hash) < NUM_WORKERS,
        bit(bitmap, hermes_choice(bitmap, hash)),
{
    let n = ones(bitmap, 64) as int;
    lemma_ones_stop(bitmap, NUM_WORKERS as nat, 64);
    lemma_scaled_in_range(low_half(hash), n);
    law_nth_worker(bitmap, scaled(low_half(hash), n));
}

/// With at most one candidate the pick is the one of the stateless hash, whatever the bitmap.
pub proof fn law_few_candidates_fall_back(bitmap: u64, hash: u64)
    requires
        ones(bitmap, 64) <= 1,
    ensures
        hermes_choice(bitmap, hash) == hash_choice(hash),
{
}

/// Scaling splits the hashes into one interval per result: `k` is the result exactly from
/// `bucket_start(k, n)` up to the start of the next bucket.
pub proof fn law_buckets_are_intervals(hash: int, n: int, k: int)
    requires
        0 <= hash < 0x1_0000_0000,
        0 < n,
        0 <= k < n,
    ensures
        (scaled(hash, n) == k) == (bucket_start(k, n) <= hash < bucket_start(k + 1, n)),
{
    lemma_bucket_start(hash, n, k);
    lemma_bucket_start(hash, n, k + 1);
    let p = hash * n;
    assert((p / 0x1_0000_0000 == k) == (k * 0x1_0000_0000 <= p < (k + 1) * 0x1_0000_0000));
}

/// The least hash whose product with `n` reaches `k` full ranges.
pub open spec fn bucket_start(k: int, n: int) -> int {
    (k * 0x1_0000_0000 + n - 1) / n
}

proof fn lemma_bucket_start(hash: int, n: int, k: int)
    requires
        0 < n,
        0 <= k,
    ensures
        (bucket_start(k, n) <= hash) == (k * 0x1_0000_0000 <= hash * n),
{
    let a = k * 0x1_0000_0000;
    let q = (a + n - 1) / n;
    let r = (a + n - 1) % n;
    assert(a + n - 1 == n * q + r && 0 <= r < n) by (nonlinear_arith)
        requires
            n > 0,
            q == (a + n - 1) / n,
            r == (a + n - 1) % n,
    ;
    if q <= hash {
        assert(a <= hash * n) by (nonlinear_arith)
            requires
                a + n - 1 == n * q + r,
                r < n,
                q <= hash,
                n > 0,
        ;
    } else {
        assert(hash * n < a) by (nonlinear_arith)
            requires
                a + n - 1 == n * q + r,
                0 <= r,
                hash + 1 <= q,
                n > 0,
        ;
    }
}

/// Every candidate is reachable: each result below `n` is the scaled value of some hash.
pub proof fn law_every_bucket_is_reached(n: int, k: int)
    requires
        0 < n <= 0x1_0000_0000,
        0 <= k < n,
    ensures
        0 <= bucket_start(k, n) < 0x1_0000_0000,
        scaled(bucket_start(k, n), n) == k,
{
    let h = bucket_start(k, n);
    let a = k * 0x1_0000_0000;
    let r = (a + n - 1) % n;
    assert(a + n - 1 == n * h + r && 0 <= r < n) by (nonlinear_arith)
        requires
            n > 0,
            h == (a + n - 1) / n,
            r == (a + n - 1) % n,
    ;
    assert(a <= h * n < a + n) by (nonlinear_arith)
        requires
            a + n - 1 == n * h + r,
            0 <= r < n,
    ;
    assert(0 <= h) by (nonlinear_arith)
        requires
            0 <= a <= h * n,
            n > 0,
    ;
    assert(h * n < 0x1_0000_0000 * n) by {
        assert(a + n <= k * 0x1_0000_0000 + 0x1_0000_0000);
        assert((k + 1) * 0x1_0000_0000 <= n * 0x1_0000_0000) by (nonlinear_arith)
            requires
                k + 1 <= n,
        ;
    }
    assert(h < 0x1_0000_0000) by (nonlinear_arith)
        requires
            h * n < 0x1_0000_0000 * n,
            n > 0,
    ;
}

/// Only one worker is first in line.
pub proof fn law_one_is_first_in_line(lens: Seq<int>, pending: Seq<int>, v: int, w: int)
    requires
        first_in_line(lens, pending, v),
        first_in_line(lens, pending, w),
    ensures
        v == w,
{
    if some_idle(lens, pending) {
        if v < w {
            assert(!idle(lens, pending, w));
        }
        if w < v {
            assert(!idle(lens, pending, v));
        }
    } else {
        let a = lens[v];
        let b = lens[w];
        assert(a < b || (a == b && w <= v));
        assert(b < a || (b == a && v <= w));
    }
}

/// A policy hands a connection to one worker only.
pub proof fn law_choice_is_unique(
    worker: int,
    policy: Policy,
    bitmap: u64,
    lens: Seq<int>,
    pending: Seq<int>,
    hash: u64,
)
    requires
        is_choice(worker, policy, bitmap, lens, pending, hash),
    ensures
        worker == choice_of(policy, bitmap, lens, pending, hash),
{
    let other = choice_of(policy, bitmap, lens, pending, hash);
    assert(is_choice(other, policy, bitmap, lens, pending, hash));
    if policy == Policy::Lifo {
        law_one_is_first_in_line(lens, pending, worker, other);
    }
}

/// Every policy hands every connection to some worker.
pub proof fn lemma_some_choice(
    policy: Policy,
    bitmap: u64,
    lens: Seq<int>,
    pending: Seq<int>,
    hash: u64,
) -> (worker: int)
    ensures
        0 <= worker < NUM_WORKERS,
        is_choice(worker, policy, bitmap, lens, pending, hash),
{
    match policy {
        Policy::Hermes => {
            let n = ones(bitmap, 64) as int;
            lemma_scaled_in_range(low_half(hash), n);
            lemma_scaled_in_range(low_half(hash), NUM_WORKERS as int);
            law_nth_worker(bitmap, scaled(low_half(hash), n));
            hermes_choice(bitmap, hash)
        },
        Policy::Lifo => lemma_some_first_in_line(lens, pending),
        Policy::ReuseportHash => {
            lemma_scaled_in_range(low_half(hash), NUM_WORKERS as int);
            hash_choice(hash)
        },
    }
}

proof fn lemma_some_first_in_line(lens: Seq<int>, pending: Seq<int>) -> (worker: int)
    ensures
        first_in_line(lens, pending, worker),
{
    if idle(lens, pending, 3) {
        3
    } else if idle(lens, pending, 2) {
        2
    } else if idle(lens, pending, 1) {
        1
    } else if idle(lens, pending, 0) {
        0
    } else {
        assert(!some_idle(lens, pending));
        let a = if lens[1] <= lens[0] {
            1
        } else {
            0int
        };
        let b = if lens[2] <= lens[a] {
            2
        } else {
            a
        };
        if lens[3] <= lens[b] {
            3
        } else {
            b
        }
    }
}

/// While all workers are idle, the last one receives every connection.
pub proof fn law_idle_lifo_concentrates(lens: Seq<int>, pending: Seq<int>, worker: int)
    requires
        forall|i: int| 0 <= i < NUM_WORKERS ==> #[trigger] idle(lens, pending, i),
        first_in_line(lens, pending, worker),
    ensures
        worker == NUM_WORKERS - 1,
{
    assert(idle(lens, pending, NUM_WORKERS - 1));
}

/// From a scheduling pass to the pick: a worker that looks hung to the pass receives nothing while
/// the pass leaves two candidates or more, and the pick is one of those the pass left.
pub proof fn law_hung_worker_receives_nothing(
    s: Seq<WorkerSnapshot>,
    now: int,
    threshold: int,
    hash: u64,
    worker: int,
)
    requires
        s.len() == NUM_WORKERS,
        pass(s, now, threshold).after_stage3 >= 2,
        0 <= worker < NUM_WORKERS,
        s[worker].last_loop_entry != 0,
        now - s[worker].last_loop_entry >= threshold,
    ensures
        hermes_choice(pass(s, now, threshold).bitmap, hash) != worker,
        stage3(s, now, threshold).contains(
            hermes_choice(pass(s, now, threshold).bitmap, hash) as usize,
        ),
{
    let b = pass(s, now, threshold).bitmap;
    law_bitmap_is_last_stage(s, now, threshold);
    lemma_stages_ascend(s, now, threshold);
    law_hung_worker_excluded(s, now, threshold, worker);
    assert forall|i: int| NUM_WORKERS <= i < 64 implies !#[trigger] bit(b, i) by {
        let three = stage3(s, now, threshold);
        if three.contains(i as usize) {
            let k = choose|k: int| 0 <= k < three.len() && three[k] == i as usize;
            assert(three[k] < NUM_WORKERS);
        }
    }
    law_pick_is_candidate(b, hash);
    let pick = hermes_choice(b, hash);
    assert(bit(b, pick));
}

/// How many of the workers below `w` are in a group.
pub open spec fn members_below(group: Seq<bool>, w: int) -> int {
    (if w > 0 && group[0] {
        1int
    } else {
        0
    }) + (if w > 1 && group[1] {
        1int
    } else {
        0
    }) + (if w > 2 && group[2] {
        1int
    } else {
        0
    }) + (if w > 3 && group[3] {
        1int
    } else {
        0
    })
}

/// The binary digits of a bitmap decide which workers it names, and how many come before each.
pub proof fn lemma_named_workers(bitmap: u64, group: Seq<bool>)
    requires
        group.len() == 4,
        group[0] == ((bitmap >> 0) % 2 == 1),
        group[1] == ((bitmap >> 1) % 2 == 1),
        group[2] == ((bitmap >> 2) % 2 == 1),
        group[3] == ((bitmap >> 3) % 2 == 1),
    ensures
        forall|i: int| 0 <= i < 4 ==> #[trigger] bit(bitmap, i) == group[i],
        forall|i: int| 0 <= i <= 4 ==> #[trigger] ones(bitmap, i as nat) == members_below(group, i),
        bitmap < 16 ==> ones(bitmap, 64) == members_below(group, 4),
{
    law_bit_is_binary_digit(bitmap, 0);
    law_bit_is_binary_digit(bitmap, 1);
    law_bit_is_binary_digit(bitmap, 2);
    law_bit_is_binary_digit(bitmap, 3);
    reveal_with_fuel(ones, 6);
    assert(ones(bitmap, 0) == 0);
    assert(ones(bitmap, 4) == members_below(group, 4));
    if bitmap < 16 {
        assert forall|i: int| 4 <= i < 64 implies !#[trigger] bit(bitmap, i) by {
            let q = i as u64;
            law_bit_is_binary_digit(bitmap, q);
            assert((bitmap >> q) == 0) by (bit_vector)
                requires
                    bitmap < 16,
                    4 <= q < 64,
            ;
        }
        lemma_ones_stop(bitmap, 4, 64);
    }
}

/// The worker with `k` set bits below its own.
pub proof fn lemma_nth_named(bitmap: u64, group: Seq<bool>, k: int, w: int)
    requires
        group.len() == 4,
        forall|i: int| 0 <= i < 4 ==> #[trigger] bit(bitmap, i) == group[i],
        forall|i: int| 0 <= i <= 4 ==> #[trigger] ones(bitmap, i as nat) == members_below(group, i),
        0 <= w < 4,
        0 <= k,
    ensures
        nth_worker(bitmap, k) == Some(w) <==> group[w] && members_below(group, w) == k,
        nth_worker(bitmap, k).is_none() <==> k >= members_below(group, 4),
{
    assert(ones(bitmap, 0) == 0);
    assert(bit(bitmap, 0) == group[0] && ones(bitmap, 1) == members_below(group, 1));
    assert(bit(bitmap, 1) == group[1] && ones(bitmap, 2) == members_below(group, 2));
    assert(bit(bitmap, 2) == group[2] && ones(bitmap, 3) == members_below(group, 3));
    assert(bit(bitmap, 3) == group[3] && ones(bitmap, 4) == members_below(group, 4));
    reveal_with_fuel(nth_worker_below, 5);
    let one = nth_worker_below(bitmap, k, 1);
    let two = nth_worker_below(bitmap, k, 2);
    let three = nth_worker_below(bitmap, k, 3);
    assert(one == (if group[0] && k == 0 {
        Some(0int)
    } else {
        None
    }));
    assert(two == (if group[1] && members_below(group, 1) == k {
        Some(1int)
    } else {
        one
    }));
    assert(three == (if group[2] && members_below(group, 2) == k {
        Some(2int)
    } else {
        two
    }));
    assert(nth_worker(bitmap, k) == (if group[3] && members_below(group, 3) == k {
        Some(3int)
    } else {
        three
    }));
}

/// Candidates share the hashes evenly. With `n` set bits, two or more, a worker receives exactly
/// the hashes whose low half lies in the interval that its place among the candidates gives it:
/// with `c` candidates below it, the interval from `c` to `c + 1` of `n` equal parts of the 32-bit
/// range. Hashes that lie beyond the candidates' intervals, which takes a bit that names no worker,
/// go to the last worker.
pub proof fn law_candidates_share_the_hashes(bitmap: u64, group: Seq<bool>, hash: u64, w: int)
    requires
        group.len() == 4,
        group[0] == ((bitmap >> 0) % 2 == 1),
        group[1] == ((bitmap >> 1) % 2 == 1),
        group[2] == ((bitmap >> 2) % 2 == 1),
        group[3] == ((bitmap >> 3) % 2 == 1),
        ones(bitmap, 64) >= 2,
        0 <= w < 4,
    ensures
        hermes_choice(bitmap, hash) == w <==> {
            ||| group[w] && members_below(group, w) * 0x1_0000_0000 <= (hash as int
                % 0x1_0000_0000) * ones(bitmap, 64) && (hash as int % 0x1_0000_0000) * ones(
                bitmap,
                64,
            ) < (members_below(group, w) + 1) * 0x1_0000_0000
            ||| w == 3 && (hash as int % 0x1_0000_0000) * ones(bitmap, 64) >= members_below(
                group,
                4,
            ) * 0x1_0000_0000
        },
        bitmap < 16 ==> ones(bitmap, 64) == members_below(group, 4),
        bitmap < 16 ==> (hash as int % 0x1_0000_0000) * ones(bitmap, 64) < members_below(group, 4)
            * 0x1_0000_0000,
{
    let n = ones(bitmap, 64) as int;
    let low = hash as int % 0x1_0000_0000;
    lemma_named_workers(bitmap, group);
    lemma_scaled_in_range(low, n);
    let k = scaled(low, n);
    let p = low * n;
    lemma_nth_named(bitmap, group, k, w);
    lemma_nth_named(bitmap, group, k, 0);
    lemma_nth_named(bitmap, group, k, 1);
    lemma_nth_named(bitmap, group, k, 2);
    lemma_nth_named(bitmap, group, k, 3);
    law_nth_worker(bitmap, k);
    assert(k == p / 0x1_0000_0000);
    assert(k * 0x1_0000_0000 <= p < (k + 1) * 0x1_0000_0000);
    assert(p < n * 0x1_0000_0000) by (nonlinear_arith)
        requires
            p == low * n,
            low < 0x1_0000_0000,
            n > 0,
    ;
}

/// Every candidate of two or more is reached: some hash is dispatched to it.
pub proof fn law_every_candidate_is_reached(bitmap: u64, group: Seq<bool>, w: int) -> (hash: u64)
    requires
        bitmap < 16,
        group.len() == 4,
        group[0] == ((bitmap >> 0) % 2 == 1),
        group[1] == ((bitmap >> 1) % 2 == 1),
        group[2] == ((bitmap >> 2) % 2 == 1),
        group[3] == ((bitmap >> 3) % 2 == 1),
        members_below(group, 4) >= 2,
        0 <= w < 4,
        group[w],
    ensures
        hash < 0x1_0000_0000,
        hermes_choice(bitmap, hash) == w,
{
    lemma_named_workers(bitmap, group);
    let n = ones(bitmap, 64) as int;
    let c = members_below(group, w);
    assert(c < n);
    law_every_bucket_is_reached(n, c);
    let h = bucket_start(c, n);
    law_candidates_share_the_hashes(bitmap, group, h as u64, w);
    let p = h * n;
    assert(p / 0x1_0000_0000 == c);
    assert(c * 0x1_0000_0000 <= p < (c + 1) * 0x1_0000_0000);
    h as u64
}

/// The stateless hash gives each worker a quarter of the hashes, in order, and so does the pick
/// among at most one candidate.
pub proof fn law_workers_share_the_hashes(bitmap: u64, hash: u64)
    ensures
        hash % 0x1_0000_0000 < 0x4000_0000 <==> hash_choice(hash) == 0,
        0x4000_0000 <= hash % 0x1_0000_0000 && hash % 0x1_0000_0000 < 0x8000_0000 <==> hash_choice(
            hash,
        ) == 1,
        0x8000_0000 <= hash % 0x1_0000_0000 && hash % 0x1_0000_0000 < 0xc000_0000 <==> hash_choice(
            hash,
        ) == 2,
        0xc000_0000 <= hash % 0x1_0000_0000 <==> hash_choice(hash) == 3,
        ones(bitmap, 64) <= 1 ==> hermes_choice(bitmap, hash) == hash_choice(hash),
{
}

/// Whom each policy hands a connection to. LIFO: an idle worker with no idle one above it; where
/// none is idle, a worker whose queue is no longer than any other and shorter than all above it.
/// The other two go by the hash, whatever the backlogs.
pub proof fn law_choice_of_each_policy(
    bitmap: u64,
    lens: Seq<int>,
    pending: Seq<int>,
    hash: u64,
    w: int,
)
    requires
        0 <= w < 4,
    ensures
        choice_of(Policy::Hermes, bitmap, lens, pending, hash) == hermes_choice(bitmap, hash),
        choice_of(Policy::ReuseportHash, bitmap, lens, pending, hash) == hash_choice(hash),
        lens[w] == 0 && pending[w] == 0 && (forall|i: int|
            w < i < 4 ==> #[trigger] lens[i] != 0 || pending[i] != 0) ==> choice_of(
            Policy::Lifo,
            bitmap,
            lens,
            pending,
            hash,
        ) == w,
        (forall|i: int| 0 <= i < 4 ==> #[trigger] lens[i] != 0 || pending[i] != 0) && (forall|
            i: int,
        |
            0 <= i < 4 ==> lens[w] <= #[trigger] lens[i]) && (forall|i: int|
            w < i < 4 ==> lens[w] < #[trigger] lens[i]) ==> choice_of(
            Policy::Lifo,
            bitmap,
            lens,
            pending,
            hash,
        ) == w,
{
    let v = lemma_some_choice(Policy::Lifo, bitmap, lens, pending, hash);
    law_choice_is_unique(v, Policy::Lifo, bitmap, lens, pending, hash);
    law_choice_is_unique(
        hermes_choice(bitmap, hash),
        Policy::Hermes,
        bitmap,
        lens,
        pending,
        hash,
    );
    law_choice_is_unique(hash_choice(hash), Policy::ReuseportHash, bitmap, lens, pending, hash);
    if lens[w] == 0 && pending[w] == 0 && (forall|i: int|
        w < i < 4 ==> #[trigger] lens[i] != 0 || pending[i] != 0) {
        assert(idle(lens, pending, w));
        assert(some_idle(lens, pending));
        assert(idle(lens, pending, v));
        assert(v <= w);
    }
    if (forall|i: int| 0 <= i < 4 ==> #[trigger] lens[i] != 0 || pending[i] != 0) && (forall|i: int|
        0 <= i < 4 ==> lens[w] <= #[trigger] lens[i]) && (forall|i: int|
        w < i < 4 ==> lens[w] < #[trigger] lens[i]) {
        assert forall|i: int| 0 <= i < 4 implies !#[trigger] idle(lens, pending, i) by {
            assert(lens[i] != 0 || pending[i] != 0);
        }
        assert(!some_idle(lens, pending));
        assert(lens[v] < lens[w] || (lens[v] == lens[w] && w <= v));
        assert(lens[w] <= lens[v]);
    }
}

/// What a dispatch sees of the shared state: the number of connections in each worker's queue and
/// the worker's own count of pending events.
pub proof fn law_backlogs_are_read_unchanged(shared: SharedState, b: Backlog, i: int)
    requires
        0 <= i < 4,
    ensures
        queue_lens_of(shared)[i] == shared.queues@[i]@.len(),
        pending_of(shared)[i] == shared.wst.slots@[i].pending_events,
        b.lens()[i] == b.queue_lens@[i],
        b.pending()[i] == b.pending_events@[i],
{
}

} // verus!
