//! Scheduling passes of a chosen policy, with a fixed offset over the average.
//!
//! Under the full policy the filter compares with the average plus a fixed offset θ. The baselines
//! publish a set of their own: the highest worker that has started, or all workers.

use crate::bits::{ascending_below, bit, bitmap_of, ones, test_bit, with_bit};
use crate::bits::{law_bit_is_binary_digit, lemma_bitmap_count, lemma_bitmap_of};
use crate::bits::lemma_zero_iff_no_bit;
use crate::policy::Policy;
use crate::scheduler::{alive, alive_workers, all_workers, bitmap_from, conn_loads, event_loads};
use crate::scheduler::{group_bitmap, group_size, group_total, lemma_filter_twice};
use crate::scheduler::{lemma_all_workers, lemma_filter_ascends, lemma_filter_step};
use crate::scheduler::lemma_four_workers;
use crate::scheduler::{lemma_some_at_most_average, load_sum, stage1, sum_of};
use crate::wst::{snapshots_of, WorkerSnapshot, Wst, NUM_WORKERS};
use vstd::prelude::*;

verus! {

/// The default offset over the average.
pub const THETA: i64 = 2;

/// An offset over the average: the fraction `num / den`.
#[derive(Debug, Clone, Copy, PartialEq, Eq, Structural)]
pub struct Offset {
    pub num: i64,
    pub den: u32,
}

impl Offset {
    /// A whole number as an offset.
    pub fn whole(num: i64) -> (o: Offset)
        ensures
            o == (Offset { num, den: 1 }),
    {
        Offset { num, den: 1 }
    }

    /// Whether the fraction denotes a number.
    pub open spec fn valid(self) -> bool {
        self.den > 0
    }
}

/// Result of one scheduling pass.
#[derive(Debug, Clone, Copy, PartialEq, Eq)]
pub struct ScheduleResult {
    /// Bit `i` is set where worker `i` may receive connections.
    pub bitmap: u64,
    /// How many workers were left after each stage.
    pub after_stage1: usize,
    pub after_stage2: usize,
    pub after_stage3: usize,
    /// The snapshots that the decision was made from.
    pub snapshots: [WorkerSnapshot; NUM_WORKERS],
}

/// Whether a load is below the average of `count` loads with sum `sum` plus the offset. Both sides
/// are multiplied by `count * den`.
pub open spec fn below_offset(load: int, sum: int, count: int, theta: Offset) -> bool {
    load * (count * theta.den) < sum * theta.den + theta.num * count
}

/// The candidates whose load is below the average of all of them plus the offset.
pub open spec fn within_offset(
    candidates: Seq<usize>,
    theta: Offset,
    loads: Seq<i64>,
) -> Seq<usize> {
    candidates.filter(
        |i: usize|
            below_offset(
                loads[i as int] as int,
                load_sum(candidates, loads),
                candidates.len() as int,
                theta,
            ),
    )
}

/// The workers left after the second stage.
pub open spec fn offset_stage2(
    s: Seq<WorkerSnapshot>,
    now: int,
    threshold: int,
    theta: Offset,
) -> Seq<usize> {
    within_offset(stage1(s, now, threshold), theta, conn_loads(s))
}

/// The workers left after the third stage.
pub open spec fn offset_stage3(
    s: Seq<WorkerSnapshot>,
    now: int,
    threshold: int,
    theta: Offset,
) -> Seq<usize> {
    within_offset(offset_stage2(s, now, threshold, theta), theta, event_loads(s))
}

/// The highest worker below `k` that has entered its loop; the last worker of all where none has.
pub open spec fn last_started(s: Seq<WorkerSnapshot>, k: nat) -> usize
    decreases k,
{
    if k == 0 {
        (NUM_WORKERS - 1) as usize
    } else if s[k - 1].last_loop_entry != 0 {
        (k - 1) as usize
    } else {
        last_started(s, (k - 1) as nat)
    }
}

/// Whether `r` is the result of a pass of the given policy.
pub open spec fn is_pass(
    r: ScheduleResult,
    s: Seq<WorkerSnapshot>,
    now: int,
    threshold: int,
    theta: Offset,
    policy: Policy,
) -> bool {
    &&& r.snapshots@ == s
    &&& match policy {
        Policy::Hermes => {
            &&& r.bitmap == bitmap_of(offset_stage3(s, now, threshold, theta))
            &&& r.after_stage1 == stage1(s, now, threshold).len()
            &&& r.after_stage2 == offset_stage2(s, now, threshold, theta).len()
            &&& r.after_stage3 == offset_stage3(s, now, threshold, theta).len()
        },
        Policy::Lifo => {
            &&& r.bitmap == bitmap_of(seq![last_started(s, NUM_WORKERS as nat)])
            &&& r.after_stage1 == 1
            &&& r.after_stage2 == 1
            &&& r.after_stage3 == 1
        },
        Policy::ReuseportHash => {
            &&& r.bitmap == bitmap_of(all_workers())
            &&& r.after_stage1 == NUM_WORKERS
            &&& r.after_stage2 == NUM_WORKERS
            &&& r.after_stage3 == NUM_WORKERS
        },
    }
}

/// Runs one pass of `policy` over the table.
pub fn schedule(
    wst: &Wst,
    now: i64,
    hang_threshold_ns: i64,
    theta: Offset,
    policy: Policy,
) -> (r: ScheduleResult)
    requires
        theta.valid(),
    ensures
        is_pass(
            r,
            snapshots_of(*wst),
            now as int,
            hang_threshold_ns as int,
            theta,
            policy,
        ),
{
    let snapshots: [WorkerSnapshot; NUM_WORKERS] = wst.snapshot_all();
    match policy {
        Policy::Lifo => schedule_lifo(&snapshots),
        Policy::ReuseportHash => schedule_reuseport_hash(&snapshots),
        Policy::Hermes => schedule_hermes(&snapshots, now, hang_threshold_ns, theta),
    }
}

/// The cascading filter with a fixed offset.
pub fn schedule_hermes(
    snapshots: &[WorkerSnapshot; NUM_WORKERS],
    now: i64,
    hang_threshold_ns: i64,
    theta: Offset,
) -> (r: ScheduleResult)
    requires
        theta.valid(),
    ensures
        is_pass(r, snapshots@, now as int, hang_threshold_ns as int, theta, Policy::Hermes),
{
    let after1: Vec<usize> = alive_workers(snapshots, now, hang_threshold_ns);
    let conns: [i64; NUM_WORKERS] = [
        snapshots[0].accumulated_conns,
        snapshots[1].accumulated_conns,
        snapshots[2].accumulated_conns,
        snapshots[3].accumulated_conns,
    ];
    let events: [i64; NUM_WORKERS] = [
        snapshots[0].pending_events,
        snapshots[1].pending_events,
        snapshots[2].pending_events,
        snapshots[3].pending_events,
    ];
    assert(conns@ =~= conn_loads(snapshots@));
    assert(events@ =~= event_loads(snapshots@));
    proof {
        lemma_offset_stages(snapshots@, now as int, hang_threshold_ns as int, theta);
    }
    let after2: Vec<usize> = filter_below_baseline(&after1, theta, &conns);
    let after3: Vec<usize> = filter_below_baseline(&after2, theta, &events);
    ScheduleResult {
        bitmap: bitmap_from(&after3),
        after_stage1: after1.len(),
        after_stage2: after2.len(),
        after_stage3: after3.len(),
        snapshots: *snapshots,
    }
}

/// Publishes only the highest worker that has started.
pub fn schedule_lifo(snapshots: &[WorkerSnapshot; NUM_WORKERS]) -> (r: ScheduleResult)
    ensures
        forall|now: int, threshold: int, theta: Offset| #[trigger]
            is_pass(r, snapshots@, now, threshold, theta, Policy::Lifo),
{
    let mut k: usize = NUM_WORKERS;
    while k > 0 && snapshots[k - 1].last_loop_entry == 0
        invariant
            k <= NUM_WORKERS,
            last_started(snapshots@, NUM_WORKERS as nat) == last_started(snapshots@, k as nat),
        decreases k,
    {
        k = k - 1;
    }
    let chosen: usize = if k > 0 {
        k - 1
    } else {
        NUM_WORKERS - 1
    };
    assert(seq![chosen].drop_last() =~= Seq::empty());
    assert(bitmap_of(Seq::empty()) == 0);
    ScheduleResult {
        bitmap: with_bit(0, chosen),
        after_stage1: 1,
        after_stage2: 1,
        after_stage3: 1,
        snapshots: *snapshots,
    }
}

/// Publishes all workers.
pub fn schedule_reuseport_hash(snapshots: &[WorkerSnapshot; NUM_WORKERS]) -> (r: ScheduleResult)
    ensures
        forall|now: int, threshold: int, theta: Offset| #[trigger]
            is_pass(r, snapshots@, now, threshold, theta, Policy::ReuseportHash),
{
    proof {
        lemma_all_workers_bitmap();
    }
    ScheduleResult {
        bitmap: (1u64 << (NUM_WORKERS as u64)) - 1,
        after_stage1: NUM_WORKERS,
        after_stage2: NUM_WORKERS,
        after_stage3: NUM_WORKERS,
        snapshots: *snapshots,
    }
}

/// Keeps the candidates whose load is below the average load of all candidates plus `theta`.
pub fn filter_below_baseline(
    candidates: &Vec<usize>,
    theta: Offset,
    loads: &[i64],
) -> (r: Vec<usize>)
    requires
        theta.valid(),
        candidates@.len() <= u32::MAX,
        forall|i: int| 0 <= i < candidates@.len() ==> (#[trigger] candidates@[i]) < loads@.len(),
    ensures
        r@ == within_offset(candidates@, theta, loads@),
{
    let ghost count = candidates@.len() as int;
    let ghost total = load_sum(candidates@, loads@);
    let sum: i128 = sum_of(candidates, loads);
    let len: i128 = candidates.len() as i128;
    let den: i128 = theta.den as i128;
    let num: i128 = theta.num as i128;
    proof {
        lemma_offset_fits(sum, len, den, num);
    }
    let baseline: i128 = sum * den + num * len;
    let scale: i128 = len * den;
    let ghost keep = |i: usize| below_offset(loads@[i as int] as int, total, count, theta);
    let mut r: Vec<usize> = Vec::new();
    let mut k: usize = 0;
    proof {
        reveal(Seq::filter);
        assert(candidates@.take(0) =~= Seq::empty());
    }
    while k < candidates.len()
        invariant
            k <= candidates@.len(),
            count == candidates@.len(),
            total == load_sum(candidates@, loads@),
            scale == count * theta.den,
            0 <= scale <= 0xffff_ffff * 0xffff_ffff,
            baseline == total * theta.den + theta.num * count,
            keep == (|i: usize| below_offset(loads@[i as int] as int, total, count, theta)),
            forall|i: int|
                0 <= i < candidates@.len() ==> (#[trigger] candidates@[i]) < loads@.len(),
            r@ == candidates@.take(k as int).filter(keep),
        decreases candidates@.len() - k,
    {
        let i: usize = candidates[k];
        let load: i128 = loads[i] as i128;
        proof {
            lemma_filter_step(candidates@, keep, k as int);
            assert(-0x8000_0000_0000_0000 * 0xffff_fffe_0000_0001 <= load * scale
                <= 0x8000_0000_0000_0000 * 0xffff_fffe_0000_0001) by (nonlinear_arith)
                requires
                    0 <= scale <= 0xffff_fffe_0000_0001,
                    -0x8000_0000_0000_0000 <= load <= 0x7fff_ffff_ffff_ffff,
            ;
        }
        if load * scale < baseline {
            r.push(i);
        }
        k = k + 1;
    }
    assert(candidates@.take(k as int) =~= candidates@);
    r
}

proof fn lemma_offset_fits(sum: i128, len: i128, den: i128, num: i128)
    requires
        -0x8000_0000_0000_0000_0000_0000 <= sum <= 0x8000_0000_0000_0000_0000_0000,
        0 <= len <= 0xffff_ffff,
        0 <= den <= 0xffff_ffff,
        i64::MIN <= num <= i64::MAX,
    ensures
        i128::MIN <= sum * den <= i128::MAX,
        i128::MIN <= num * len <= i128::MAX,
        i128::MIN <= sum * den + num * len <= i128::MAX,
        0 <= len * den <= 0xffff_ffff * 0xffff_ffff,
{
    assert(-0x8000_0000_0000_0000_0000_0000 * 0xffff_ffff <= sum * den
        <= 0x8000_0000_0000_0000_0000_0000 * 0xffff_ffff) by (nonlinear_arith)
        requires
            -0x8000_0000_0000_0000_0000_0000 <= sum <= 0x8000_0000_0000_0000_0000_0000,
            0 <= den <= 0xffff_ffff,
    ;
    assert(-0x8000_0000_0000_0000 * 0xffff_ffff <= num * len <= 0x8000_0000_0000_0000 * 0xffff_ffff)
        by (nonlinear_arith)
        requires
            0 <= len <= 0xffff_ffff,
            -0x8000_0000_0000_0000 <= num <= 0x7fff_ffff_ffff_ffff,
    ;
    assert(0 <= len * den <= 0xffff_ffff * 0xffff_ffff) by (nonlinear_arith)
        requires
            0 <= len <= 0xffff_ffff,
            0 <= den <= 0xffff_ffff,
    ;
}

/// The workers in a bitmap, ascending.
pub open spec fn candidates_of(bitmap: u64) -> Seq<usize> {
    all_workers().filter(|i: usize| bit(bitmap, i as int))
}

/// Lists the workers in a bitmap, ascending.
pub fn bitmap_to_candidates(bitmap: u64) -> (r: Vec<usize>)
    ensures
        r@ == candidates_of(bitmap),
{
    let ghost keep = |i: usize| bit(bitmap, i as int);
    let mut r: Vec<usize> = Vec::new();
    let mut i: usize = 0;
    proof {
        reveal(Seq::filter);
        assert(all_workers().take(0) =~= Seq::empty());
    }
    while i < NUM_WORKERS
        invariant
            i <= NUM_WORKERS,
            keep == (|i: usize| bit(bitmap, i as int)),
            r@ == all_workers().take(i as int).filter(keep),
        decreases NUM_WORKERS - i,
    {
        proof {
            lemma_filter_step(all_workers(), keep, i as int);
        }
        if test_bit(bitmap, i) {
            r.push(i);
        }
        i = i + 1;
    }
    assert(all_workers().take(NUM_WORKERS as int) =~= all_workers());
    r
}

proof fn lemma_all_workers_bitmap()
    ensures
        (1u64 << (NUM_WORKERS as u64)) >= 1,
        bitmap_of(all_workers()) == (1u64 << (NUM_WORKERS as u64)) - 1,
{
    reveal_with_fuel(bitmap_of, 5);
    let s = all_workers();
    let s3 = s.drop_last();
    let s2 = s3.drop_last();
    let s1 = s2.drop_last();
    assert(s1.drop_last() =~= Seq::empty());
    assert(bitmap_of(s1.drop_last()) == 0);
    assert(s.last() == 3 && s3.last() == 2 && s2.last() == 1 && s1.last() == 0);
    assert(bitmap_of(s) == (((0u64 | (1u64 << 0u64)) | (1u64 << 1u64)) | (1u64 << 2u64)) | (1u64
        << 3u64));
    assert((((0u64 | (1u64 << 0u64)) | (1u64 << 1u64)) | (1u64 << 2u64)) | (1u64 << 3u64) == 15)
        by (bit_vector);
    assert((1u64 << 4u64) == 16) by (bit_vector);
}

proof fn lemma_offset_stages(s: Seq<WorkerSnapshot>, now: int, threshold: int, theta: Offset)
    ensures
        ascending_below(stage1(s, now, threshold), NUM_WORKERS as int),
        ascending_below(offset_stage2(s, now, threshold, theta), NUM_WORKERS as int),
        ascending_below(offset_stage3(s, now, threshold, theta), NUM_WORKERS as int),
        offset_stage3(s, now, threshold, theta).len() <= offset_stage2(
            s,
            now,
            threshold,
            theta,
        ).len() <= stage1(s, now, threshold).len() <= NUM_WORKERS,
        forall|x: usize| #[trigger]
            stage1(s, now, threshold).contains(x) <==> x < NUM_WORKERS && alive(
                s[x as int],
                now,
                threshold,
            ),
        forall|x: usize| #[trigger]
            offset_stage2(s, now, threshold, theta).contains(x) ==> stage1(
                s,
                now,
                threshold,
            ).contains(x),
        forall|x: usize| #[trigger]
            offset_stage3(s, now, threshold, theta).contains(x) ==> offset_stage2(
                s,
                now,
                threshold,
                theta,
            ).contains(x),
{
    lemma_all_workers();
    let one = stage1(s, now, threshold);
    let two = offset_stage2(s, now, threshold, theta);
    lemma_filter_ascends(
        all_workers(),
        |i: usize| alive(s[i as int], now, threshold),
        NUM_WORKERS as int,
    );
    lemma_filter_ascends(
        one,
        |i: usize|
            below_offset(
                conn_loads(s)[i as int] as int,
                load_sum(one, conn_loads(s)),
                one.len() as int,
                theta,
            ),
        NUM_WORKERS as int,
    );
    lemma_filter_ascends(
        two,
        |i: usize|
            below_offset(
                event_loads(s)[i as int] as int,
                load_sum(two, event_loads(s)),
                two.len() as int,
                theta,
            ),
        NUM_WORKERS as int,
    );
}

/// A pass of the full policy publishes exactly the workers of the last stage, and never a worker
/// that looks hung.
pub proof fn law_hermes_publishes_last_stage(
    r: ScheduleResult,
    s: Seq<WorkerSnapshot>,
    now: int,
    threshold: int,
    theta: Offset,
)
    requires
        is_pass(r, s, now, threshold, theta, Policy::Hermes),
    ensures
        forall|i: int|
            0 <= i < 64 ==> #[trigger] bit(r.bitmap, i) == offset_stage3(
                s,
                now,
                threshold,
                theta,
            ).contains(i as usize),
        forall|i: int|
            0 <= i < 64 && #[trigger] bit(r.bitmap, i) ==> i < NUM_WORKERS && alive(
                s[i],
                now,
                threshold,
            ),
        ones(r.bitmap, 64) == r.after_stage3,
        r.after_stage3 <= r.after_stage2,
        r.after_stage2 <= r.after_stage1,
        r.after_stage1 <= NUM_WORKERS,
{
    lemma_offset_stages(s, now, threshold, theta);
    let three = offset_stage3(s, now, threshold, theta);
    lemma_bitmap_of(three);
    lemma_bitmap_count(three, NUM_WORKERS as nat);
    assert forall|i: int| 0 <= i < 64 && #[trigger] bit(r.bitmap, i) implies i < NUM_WORKERS
        && alive(s[i], now, threshold) by {
        assert(three.contains(i as usize));
        assert(offset_stage2(s, now, threshold, theta).contains(i as usize));
        assert(stage1(s, now, threshold).contains(i as usize));
    }
}

/// With an offset above zero the set never collapses: some worker is published exactly when some
/// worker is alive.
pub proof fn law_positive_offset_never_collapses(
    r: ScheduleResult,
    s: Seq<WorkerSnapshot>,
    now: int,
    threshold: int,
    theta: Offset,
)
    requires
        is_pass(r, s, now, threshold, theta, Policy::Hermes),
        theta.valid(),
        theta.num > 0,
    ensures
        (r.bitmap != 0) == (exists|i: int|
            0 <= i < NUM_WORKERS && alive(#[trigger] s[i], now, threshold)),
{
    law_hermes_publishes_last_stage(r, s, now, threshold, theta);
    lemma_offset_stages(s, now, threshold, theta);
    lemma_zero_iff_no_bit(r.bitmap);
    assert(s.len() == NUM_WORKERS);
    let one = stage1(s, now, threshold);
    let two = offset_stage2(s, now, threshold, theta);
    let three = offset_stage3(s, now, threshold, theta);
    if r.bitmap != 0 {
        let j = choose|j: int| 0 <= j < 64 && #[trigger] bit(r.bitmap, j);
        assert(alive(s[j], now, threshold));
    }
    if exists|i: int| 0 <= i < NUM_WORKERS && alive(#[trigger] s[i], now, threshold) {
        let i = choose|i: int| 0 <= i < NUM_WORKERS && alive(#[trigger] s[i], now, threshold);
        assert(one.contains(i as usize));
        let c = lemma_offset_leaves_some(one, theta, conn_loads(s));
        assert(two.contains(c));
        let e = lemma_offset_leaves_some(two, theta, event_loads(s));
        assert(three.contains(e));
        assert(bit(r.bitmap, e as int));
    }
}

proof fn lemma_offset_leaves_some(
    candidates: Seq<usize>,
    theta: Offset,
    loads: Seq<i64>,
) -> (c: usize)
    requires
        candidates.len() > 0,
        ascending_below(candidates, loads.len() as int),
        theta.valid(),
        theta.num > 0,
    ensures
        within_offset(candidates, theta, loads).contains(c),
{
    let k = lemma_some_at_most_average(candidates, loads);
    let load = loads[candidates[k] as int] as int;
    let count = candidates.len() as int;
    let sum = load_sum(candidates, loads);
    let den = theta.den as int;
    let num = theta.num as int;
    assert(load * (count * den) < sum * den + num * count) by (nonlinear_arith)
        requires
            load * count <= sum,
            den > 0,
            num > 0,
            count > 0,
    ;
    lemma_filter_ascends(
        candidates,
        |i: usize| below_offset(loads[i as int] as int, sum, count, theta),
        loads.len() as int,
    );
    assert(candidates.contains(candidates[k]));
    candidates[k]
}

/// The LIFO baseline publishes one worker: the highest that has started, or the last of all.
pub proof fn law_lifo_publishes_one(
    r: ScheduleResult,
    s: Seq<WorkerSnapshot>,
    now: int,
    threshold: int,
    theta: Offset,
)
    requires
        is_pass(r, s, now, threshold, theta, Policy::Lifo),
    ensures
        ones(r.bitmap, 64) == 1,
        forall|i: int|
            0 <= i < 64 ==> #[trigger] bit(r.bitmap, i) == (i == last_started(
                s,
                NUM_WORKERS as nat,
            )),
{
    lemma_last_started_in_range(s, NUM_WORKERS as nat);
    let one = seq![last_started(s, NUM_WORKERS as nat)];
    lemma_bitmap_of(one);
    lemma_bitmap_count(one, NUM_WORKERS as nat);
    assert forall|i: int| 0 <= i < 64 implies #[trigger] bit(r.bitmap, i) == (i == last_started(
        s,
        NUM_WORKERS as nat,
    )) by {
        assert(one[0] == last_started(s, NUM_WORKERS as nat));
    }
}

proof fn lemma_last_started_in_range(s: Seq<WorkerSnapshot>, k: nat)
    requires
        k <= NUM_WORKERS,
    ensures
        last_started(s, k) < NUM_WORKERS,
    decreases k,
{
    if k > 0 {
        lemma_last_started_in_range(s, (k - 1) as nat);
    }
}

/// The hash baseline publishes every worker.
pub proof fn law_reuseport_publishes_all(
    r: ScheduleResult,
    s: Seq<WorkerSnapshot>,
    now: int,
    threshold: int,
    theta: Offset,
)
    requires
        is_pass(r, s, now, threshold, theta, Policy::ReuseportHash),
    ensures
        forall|i: int| 0 <= i < 64 ==> #[trigger] bit(r.bitmap, i) == (i < NUM_WORKERS),
        ones(r.bitmap, 64) == NUM_WORKERS,
{
    lemma_all_workers();
    lemma_bitmap_of(all_workers());
    lemma_bitmap_count(all_workers(), NUM_WORKERS as nat);
    assert forall|i: int| 0 <= i < 64 implies #[trigger] bit(r.bitmap, i) == (i < NUM_WORKERS) by {
        assert(all_workers().contains(i as usize) == (i < NUM_WORKERS));
    }
}

/// Listing the workers of the bitmap of an ascending list gives the list back.
pub proof fn law_candidates_round_trip(workers: Seq<usize>)
    requires
        ascending_below(workers, NUM_WORKERS as int),
    ensures
        candidates_of(bitmap_of(workers)) == workers,
{
    lemma_all_workers();
    lemma_bitmap_of(workers);
    let b = bitmap_of(workers);
    lemma_filter_ascends(all_workers(), |i: usize| bit(b, i as int), NUM_WORKERS as int);
    assert forall|x: usize| #[trigger] candidates_of(b).contains(x) <==> workers.contains(x) by {
        if candidates_of(b).contains(x) {
            assert(all_workers().contains(x) && bit(b, x as int));
        }
        if workers.contains(x) {
            let k = choose|k: int| 0 <= k < workers.len() && workers[k] == x;
            assert(workers[k] < NUM_WORKERS);
            assert(all_workers().contains(x));
            assert(bit(b, x as int));
        }
    }
    lemma_same_members(candidates_of(b), workers, NUM_WORKERS as int);
}

/// The bitmap of the listed workers has the bits that stand for workers, and no other.
pub proof fn law_bitmap_round_trip(bitmap: u64)
    ensures
        forall|i: int|
            0 <= i < 64 ==> #[trigger] bit(bitmap_of(candidates_of(bitmap)), i) == (i
                < NUM_WORKERS && bit(bitmap, i)),
{
    lemma_all_workers();
    lemma_filter_ascends(all_workers(), |i: usize| bit(bitmap, i as int), NUM_WORKERS as int);
    lemma_bitmap_of(candidates_of(bitmap));
    assert forall|i: int| 0 <= i < 64 implies #[trigger] bit(bitmap_of(candidates_of(bitmap)), i)
        == (i < NUM_WORKERS && bit(bitmap, i)) by {
        assert(all_workers().contains(i as usize) == (i < NUM_WORKERS));
        assert(candidates_of(bitmap).contains(i as usize) == (all_workers().contains(i as usize)
            && bit(bitmap, i)));
    }
}

/// Ascending lists with the same members are equal.
proof fn lemma_same_members(a: Seq<usize>, b: Seq<usize>, bound: int)
    requires
        ascending_below(a, bound),
        ascending_below(b, bound),
        forall|x: usize| #[trigger] a.contains(x) <==> b.contains(x),
    ensures
        a == b,
    decreases a.len() + b.len(),
{
    if a.len() == 0 {
        if b.len() > 0 {
            assert(b.contains(b[0]));
            assert(a.contains(b[0]));
        }
        assert(a =~= b);
    } else if b.len() == 0 {
        assert(a.contains(a[0]));
        assert(b.contains(a[0]));
    } else {
        let x = a.last();
        let y = b.last();
        assert(a[a.len() - 1] == x && b[b.len() - 1] == y);
        assert(a.contains(x) && b.contains(y));
        assert(b.contains(x) && a.contains(y));
        let i = choose|i: int| 0 <= i < b.len() && b[i] == x;
        let j = choose|j: int| 0 <= j < a.len() && a[j] == y;
        assert(x == y) by {
            if i < b.len() - 1 {
                assert(b[i] < b[b.len() - 1]);
            }
            if j < a.len() - 1 {
                assert(a[j] < a[a.len() - 1]);
            }
        }
        let p = a.drop_last();
        let q = b.drop_last();
        assert forall|i: int, j: int| 0 <= i < j < p.len() implies (#[trigger] p[i]) < (
        #[trigger] p[j]) by {
            assert(p[i] == a[i] && p[j] == a[j]);
        }
        assert forall|i: int, j: int| 0 <= i < j < q.len() implies (#[trigger] q[i]) < (
        #[trigger] q[j]) by {
            assert(q[i] == b[i] && q[j] == b[j]);
        }
        assert forall|z: usize| #[trigger] p.contains(z) <==> q.contains(z) by {
            if p.contains(z) {
                let k = choose|k: int| 0 <= k < p.len() && p[k] == z;
                assert(a[k] == z && a[k] < a[a.len() - 1]);
                assert(a.contains(z));
                let m = choose|m: int| 0 <= m < b.len() && b[m] == z;
                assert(q[m] == z);
            }
            if q.contains(z) {
                let k = choose|k: int| 0 <= k < q.len() && q[k] == z;
                assert(b[k] == z && b[k] < b[b.len() - 1]);
                assert(b.contains(z));
                assert(a.contains(z));
                let m = choose|m: int| 0 <= m < a.len() && a[m] == z;
                assert(p[m] == z);
            }
        }
        lemma_same_members(p, q, bound);
        assert(a =~= p.push(x));
        assert(b =~= q.push(y));
    }
}

/// What a filter with an offset keeps of any list of candidates: exactly those whose load is below
/// the average of all candidates plus the offset.
pub proof fn law_filter_drops_above_offset(
    candidates: Seq<usize>,
    theta: Offset,
    loads: Seq<i64>,
    x: usize,
)
    requires
        theta.den > 0,
    ensures
        within_offset(candidates, theta, loads).contains(x) <==> candidates.contains(x)
            && candidates.len() * (theta.den * loads[x as int]) < theta.den * load_sum(
            candidates,
            loads,
        ) + candidates.len() * theta.num,
{
    let n = candidates.len() as int;
    let sum = load_sum(candidates, loads);
    let keep = |i: usize| below_offset(loads[i as int] as int, sum, n, theta);
    lemma_offset_margin(loads[x as int] as int, sum, n, theta);
    let f = within_offset(candidates, theta, loads);
    assert(f == candidates.filter(keep));
    if f.contains(x) {
        let k = choose|k: int| 0 <= k < f.len() && f[k] == x;
        candidates.lemma_filter_pred(keep, k);
        candidates.lemma_filter_contains_rev(keep, x);
    }
    if candidates.contains(x) && keep(x) {
        let k = choose|k: int| 0 <= k < candidates.len() && candidates[k] == x;
        candidates.lemma_filter_contains(keep, k);
    }
}

proof fn lemma_offset_margin(load: int, sum: int, n: int, theta: Offset)
    ensures
        below_offset(load, sum, n, theta) == (n * (theta.den * load) < theta.den * sum + n
            * theta.num),
{
    let den = theta.den as int;
    let num = theta.num as int;
    assert(load * (n * den) == n * (den * load)) by (nonlinear_arith);
    assert(sum * den == den * sum) by (nonlinear_arith);
    assert(num * n == n * num) by (nonlinear_arith);
}

/// A pass of the full policy over four workers, from their status alone. A worker lives where it has
/// not entered its loop yet or entered it less than the threshold ago. Of the living, those are calm
/// whose connections are below the average of the living plus the offset. Of the calm, those are
/// free whose pending events are below the average of the calm plus the offset. The counts are the
/// sizes of the three groups, and the bitmap is the free workers.
pub proof fn law_offset_pass_drops_the_overloaded(
    r: ScheduleResult,
    s: Seq<WorkerSnapshot>,
    now: int,
    threshold: int,
    theta: Offset,
    live: Seq<bool>,
    calm: Seq<bool>,
    free: Seq<bool>,
)
    requires
        is_pass(r, s, now, threshold, theta, Policy::Hermes),
        theta.den > 0,
        live.len() == 4,
        calm.len() == 4,
        free.len() == 4,
        forall|i: int|
            0 <= i < 4 ==> #[trigger] live[i] == (s[i].last_loop_entry == 0 || now
                - s[i].last_loop_entry < threshold),
        forall|i: int|
            0 <= i < 4 ==> #[trigger] calm[i] == (live[i] && {
                let sum = group_total(live, s.map_values(|w: WorkerSnapshot| w.accumulated_conns));
                let n = group_size(live);
                n * (theta.den * s[i].accumulated_conns) < theta.den * sum + n * theta.num
            }),
        forall|i: int|
            0 <= i < 4 ==> #[trigger] free[i] == (calm[i] && {
                let sum = group_total(calm, s.map_values(|w: WorkerSnapshot| w.pending_events));
                let n = group_size(calm);
                n * (theta.den * s[i].pending_events) < theta.den * sum + n * theta.num
            }),
    ensures
        r.after_stage1 == group_size(live),
        r.after_stage2 == group_size(calm),
        r.after_stage3 == group_size(free),
        r.bitmap == group_bitmap(free),
        r.snapshots@ == s,
{
    assert(s.len() == 4);
    let c = conn_loads(s);
    let e = event_loads(s);
    assert(c == s.map_values(|w: WorkerSnapshot| w.accumulated_conns));
    assert(e == s.map_values(|w: WorkerSnapshot| w.pending_events));
    let one = stage1(s, now, threshold);
    let two = offset_stage2(s, now, threshold, theta);
    let p = |i: usize| alive(s[i as int], now, threshold);
    assert forall|i: usize| i < 4 implies #[trigger] p(i) == live[i as int] by {}
    lemma_four_workers(p, live, c);
    let q = |i: usize| below_offset(c[i as int] as int, load_sum(one, c), one.len() as int, theta);
    let pq = |i: usize| p(i) && q(i);
    lemma_filter_twice(all_workers(), p, q);
    assert forall|i: usize| i < 4 implies #[trigger] pq(i) == calm[i as int] by {
        lemma_offset_margin(c[i as int] as int, load_sum(one, c), one.len() as int, theta);
        assert(p(i) == live[i as int]);
    }
    assert(two == all_workers().filter(pq));
    lemma_four_workers(pq, calm, e);
    let t = |i: usize| below_offset(e[i as int] as int, load_sum(two, e), two.len() as int, theta);
    let pqt = |i: usize| pq(i) && t(i);
    lemma_filter_twice(all_workers(), pq, t);
    assert forall|i: usize| i < 4 implies #[trigger] pqt(i) == free[i as int] by {
        lemma_offset_margin(e[i as int] as int, load_sum(two, e), two.len() as int, theta);
        assert(pq(i) == calm[i as int]);
    }
    assert(offset_stage3(s, now, threshold, theta) == all_workers().filter(pqt));
    lemma_four_workers(pqt, free, e);
}

/// The baselines ignore the load. LIFO publishes a worker that has started with none above it that
/// has, or the last one where none has started; the hash publishes all four. Both count what they
/// publish after every stage.
pub proof fn law_baselines_ignore_load(
    r: ScheduleResult,
    s: Seq<WorkerSnapshot>,
    now: int,
    threshold: int,
    theta: Offset,
    policy: Policy,
    w: int,
)
    requires
        is_pass(r, s, now, threshold, theta, policy),
        0 <= w < 4,
    ensures
        r.snapshots@ == s,
        policy == Policy::ReuseportHash ==> r.bitmap == 15 && r.after_stage1 == 4 && r.after_stage2
            == 4 && r.after_stage3 == 4,
        policy == Policy::Lifo ==> r.after_stage1 == 1 && r.after_stage2 == 1 && r.after_stage3 == 1,
        policy == Policy::Lifo && s[w].last_loop_entry != 0 && (forall|i: int|
            w < i < 4 ==> #[trigger] s[i].last_loop_entry == 0) ==> r.bitmap == 1u64 << (w as u64),
        policy == Policy::Lifo && (forall|i: int| 0 <= i < 4 ==> #[trigger] s[i].last_loop_entry
            == 0) ==> r.bitmap == 8,
{
    lemma_all_workers_bitmap();
    assert((1u64 << 4u64) == 16 && (1u64 << 3u64) == 8) by (bit_vector);
    assert(0u64 | (1u64 << (w as u64)) == 1u64 << (w as u64)) by (bit_vector);
    assert(0u64 | (1u64 << 3u64) == 1u64 << 3u64) by (bit_vector);
    reveal_with_fuel(last_started, 5);
    let chosen = last_started(s, NUM_WORKERS as nat);
    assert(seq![chosen].drop_last() =~= Seq::empty());
    assert(bitmap_of(Seq::<usize>::empty()) == 0);
    assert(bitmap_of(seq![chosen]) == 0u64 | (1u64 << (chosen as u64)));
    if s[w].last_loop_entry != 0 && (forall|i: int|
        w < i < 4 ==> #[trigger] s[i].last_loop_entry == 0) {
        assert(w < 3 ==> s[3].last_loop_entry == 0);
        assert(w < 2 ==> s[2].last_loop_entry == 0);
        assert(w < 1 ==> s[1].last_loop_entry == 0);
        assert(chosen == w);
    }
    if forall|i: int| 0 <= i < 4 ==> #[trigger] s[i].last_loop_entry == 0 {
        assert(s[0].last_loop_entry == 0 && s[1].last_loop_entry == 0);
        assert(s[2].last_loop_entry == 0 && s[3].last_loop_entry == 0);
    }
}

/// The listed candidates of a bitmap are the workers whose binary digit is one, ascending.
pub proof fn law_candidates_are_the_set_bits(bitmap: u64, x: usize, i: int, j: int)
    ensures
        candidates_of(bitmap).contains(x) <==> x < 4 && (bitmap >> (x as u64)) % 2 == 1,
        0 <= i < j < candidates_of(bitmap).len() ==> candidates_of(bitmap)[i] < candidates_of(
            bitmap,
        )[j],
{
    lemma_all_workers();
    lemma_filter_ascends(all_workers(), |i: usize| bit(bitmap, i as int), NUM_WORKERS as int);
    assert(candidates_of(bitmap).contains(x) <==> all_workers().contains(x) && bit(
        bitmap,
        x as int,
    ));
    if x < 4 {
        law_bit_is_binary_digit(bitmap, x as u64);
    }
}

/// A filter with an offset keeps the order of the candidates, each as often as it was listed.
pub proof fn law_offset_filter_keeps_the_order(
    candidates: Seq<usize>,
    theta: Offset,
    loads: Seq<i64>,
)
    ensures
        within_offset(candidates, theta, loads) == candidates.filter(
            |i: usize|
                candidates.len() * (theta.den * loads[i as int]) < theta.den * load_sum(
                    candidates,
                    loads,
                ) + candidates.len() * theta.num,
        ),
{
    let n = candidates.len() as int;
    let sum = load_sum(candidates, loads);
    let keep = |i: usize| below_offset(loads[i as int] as int, sum, n, theta);
    let plain = |i: usize|
        candidates.len() * (theta.den * loads[i as int]) < theta.den * load_sum(candidates, loads)
            + candidates.len() * theta.num;
    assert forall|i: usize| #![trigger keep(i)] keep(i) == plain(i) by {
        lemma_offset_margin(loads[i as int] as int, sum, n, theta);
    }
    assert(keep =~= plain);
}

/// The default offset is two connections or events over the average.
pub proof fn law_default_offset()
    ensures
        THETA == 2,
{
}

} // verus!
