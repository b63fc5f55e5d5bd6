//! The cascading filter that picks the workers new connections may go to.
//!
//! Stage one drops workers whose loop timestamp is stale, stage two those with clearly more
//! connections than the average of the rest, stage three those with clearly more pending events.
//! What is left is published as a bitmap.

use crate::bits::{ascending_below, bit, bitmap_of, ones, with_bit};
use crate::bits::{lemma_bitmap_count, lemma_bitmap_of, lemma_zero_iff_no_bit};
use crate::wst::{snapshots_of, WorkerSnapshot, Wst, NUM_WORKERS};
use vstd::prelude::*;

verus! {

/// A worker whose last loop entry is at least this old counts as hung.
pub const HANG_THRESHOLD_NS: i64 = 200_000_000;

/// The margin over the average is the average divided by this number.
pub const THETA_DIVISOR: i128 = 2;

/// The smallest margin over the average.
pub const THETA_MIN: i128 = 1;

/// Result of one scheduling pass.
#[derive(Debug, Clone, Copy, PartialEq, Eq, Structural)]
pub struct ScheduleResult {
    /// Bit `i` is set where worker `i` passed all stages.
    pub bitmap: u64,
    /// How many workers were left after each stage.
    pub after_stage1: usize,
    pub after_stage2: usize,
    pub after_stage3: usize,
}

/// Whether a worker does not look hung at time `now`. A worker that has not entered its loop yet
/// does not.
pub open spec fn alive(s: WorkerSnapshot, now: int, threshold: int) -> bool {
    s.last_loop_entry == 0 || now - s.last_loop_entry < threshold
}

/// All worker ids, ascending.
pub open spec fn all_workers() -> Seq<usize> {
    Seq::new(NUM_WORKERS as nat, |i: int| i as usize)
}

/// The sum of the candidates' loads.
pub open spec fn load_sum(candidates: Seq<usize>, loads: Seq<i64>) -> int
    decreases candidates.len(),
{
    if candidates.len() == 0 {
        0
    } else {
        load_sum(candidates.drop_last(), loads) + loads[candidates.last() as int]
    }
}

/// Whether a load is below the average of `count` loads with sum `sum` plus the margin, which is
/// `max(average / THETA_DIVISOR, THETA_MIN)`. Both sides are multiplied by `THETA_DIVISOR * count`.
pub open spec fn below_baseline(load: int, sum: int, count: int) -> bool {
    THETA_DIVISOR * count * load < THETA_DIVISOR * sum + scaled_margin(sum, count)
}

/// The margin over the average, multiplied by `THETA_DIVISOR * count`.
pub open spec fn scaled_margin(sum: int, count: int) -> int {
    if sum >= THETA_DIVISOR * THETA_MIN * count {
        sum
    } else {
        THETA_DIVISOR * THETA_MIN * count
    }
}

/// The candidates whose load is below the baseline of all of them.
pub open spec fn lightly_loaded(candidates: Seq<usize>, loads: Seq<i64>) -> Seq<usize> {
    candidates.filter(
        |i: usize|
            below_baseline(
                loads[i as int] as int,
                load_sum(candidates, loads),
                candidates.len() as int,
            ),
    )
}

/// The workers' connection counts.
pub open spec fn conn_loads(s: Seq<WorkerSnapshot>) -> Seq<i64> {
    s.map_values(|w: WorkerSnapshot| w.accumulated_conns)
}

/// The workers' pending-event counts.
pub open spec fn event_loads(s: Seq<WorkerSnapshot>) -> Seq<i64> {
    s.map_values(|w: WorkerSnapshot| w.pending_events)
}

/// The workers left after the first stage.
pub open spec fn stage1(s: Seq<WorkerSnapshot>, now: int, threshold: int) -> Seq<usize> {
    all_workers().filter(|i: usize| alive(s[i as int], now, threshold))
}

/// The workers left after the second stage.
pub open spec fn stage2(s: Seq<WorkerSnapshot>, now: int, threshold: int) -> Seq<usize> {
    lightly_loaded(stage1(s, now, threshold), conn_loads(s))
}

/// The workers left after the third stage.
pub open spec fn stage3(s: Seq<WorkerSnapshot>, now: int, threshold: int) -> Seq<usize> {
    lightly_loaded(stage2(s, now, threshold), event_loads(s))
}

/// The result of a pass over the given snapshots.
pub open spec fn pass(s: Seq<WorkerSnapshot>, now: int, threshold: int) -> ScheduleResult {
    ScheduleResult {
        bitmap: bitmap_of(stage3(s, now, threshold)),
        after_stage1: stage1(s, now, threshold).len() as usize,
        after_stage2: stage2(s, now, threshold).len() as usize,
        after_stage3: stage3(s, now, threshold).len() as usize,
    }
}

/// Runs one pass over the table.
pub fn schedule(wst: &Wst, now: i64, hang_threshold_ns: i64) -> (r: ScheduleResult)
    ensures
        r == pass(snapshots_of(*wst), now as int, hang_threshold_ns as int),
{
    schedule_from_snapshots(&wst.snapshot_all(), now, hang_threshold_ns)
}

/// Runs one pass over snapshots that were taken before.
pub fn schedule_from_snapshots(
    snapshots: &[WorkerSnapshot; NUM_WORKERS],
    now: i64,
    hang_threshold_ns: i64,
) -> (r: ScheduleResult)
    ensures
        r == pass(snapshots@, now as int, hang_threshold_ns as int),
{
    let after1: Vec<usize> = alive_workers(snapshots, now, hang_threshold_ns);
    let conns: [i64; NUM_WORKERS] = [
        snapshots[0].accumulated_conns,
        snapshots[1].accumulated_conns,
        snapshots[2].accumulated_conns,
        snapshots[3].accumulated_conns,
    ];
    let events: [i64; NUM_WORKERS] = [
        snapshots[0].pending_events,
        snapshots[1].pending_events,
        snapshots[2].pending_events,
        snapshots[3].pending_events,
    ];
    assert(conns@ =~= conn_loads(snapshots@));
    assert(events@ =~= event_loads(snapshots@));
    proof {
        lemma_stages_ascend(snapshots@, now as int, hang_threshold_ns as int);
    }
    let after2: Vec<usize> = filter_below_baseline(&after1, &conns);
    let after3: Vec<usize> = filter_below_baseline(&after2, &events);
    ScheduleResult {
        bitmap: bitmap_from(&after3),
        after_stage1: after1.len(),
        after_stage2: after2.len(),
        after_stage3: after3.len(),
    }
}

/// The ids of the workers that do not look hung, ascending.
pub fn alive_workers(
    snapshots: &[WorkerSnapshot; NUM_WORKERS],
    now: i64,
    hang_threshold_ns: i64,
) -> (r: Vec<usize>)
    ensures
        r@ == stage1(snapshots@, now as int, hang_threshold_ns as int),
{
    let ghost keep = |i: usize|
        alive(snapshots@[i as int], now as int, hang_threshold_ns as int);
    let mut r: Vec<usize> = Vec::new();
    let mut i: usize = 0;
    proof {
        reveal(Seq::filter);
        assert(all_workers().take(0) =~= Seq::empty());
    }
    while i < NUM_WORKERS
        invariant
            i <= NUM_WORKERS,
            keep == (|i: usize| alive(snapshots@[i as int], now as int, hang_threshold_ns as int)),
            r@ == all_workers().take(i as int).filter(keep),
        decreases NUM_WORKERS - i,
    {
        let t: i64 = snapshots[i].last_loop_entry;
        proof {
            lemma_filter_step(all_workers(), keep, i as int);
        }
        if t == 0 || (now as i128 - t as i128) < hang_threshold_ns as i128 {
            r.push(i);
        }
        i = i + 1;
    }
    assert(all_workers().take(NUM_WORKERS as int) =~= all_workers());
    r
}

/// Keeps the candidates whose load is below the average load of all candidates plus the margin.
pub fn filter_below_baseline(candidates: &Vec<usize>, loads: &[i64]) -> (r: Vec<usize>)
    requires
        candidates@.len() <= u32::MAX,
        forall|i: int| 0 <= i < candidates@.len() ==> (#[trigger] candidates@[i]) < loads@.len(),
    ensures
        r@ == lightly_loaded(candidates@, loads@),
{
    let ghost count = candidates@.len() as int;
    let ghost total = load_sum(candidates@, loads@);
    let sum: i128 = sum_of(candidates, loads);
    let len: i128 = candidates.len() as i128;
    let floor: i128 = THETA_DIVISOR * THETA_MIN * len;
    let margin: i128 = if sum >= floor {
        sum
    } else {
        floor
    };
    let baseline: i128 = THETA_DIVISOR * sum + margin;
    let ghost keep = |i: usize| below_baseline(loads@[i as int] as int, total, count);
    let mut r: Vec<usize> = Vec::new();
    let mut k: usize = 0;
    proof {
        reveal(Seq::filter);
        assert(candidates@.take(0) =~= Seq::empty());
    }
    while k < candidates.len()
        invariant
            k <= candidates@.len(),
            len == count,
            count == candidates@.len() <= u32::MAX,
            total == load_sum(candidates@, loads@),
            baseline == THETA_DIVISOR * total + scaled_margin(total, count),
            keep == (|i: usize| below_baseline(loads@[i as int] as int, total, count)),
            forall|i: int|
                0 <= i < candidates@.len() ==> (#[trigger] candidates@[i]) < loads@.len(),
            r@ == candidates@.take(k as int).filter(keep),
        decreases candidates@.len() - k,
    {
        let i: usize = candidates[k];
        let load: i128 = loads[i] as i128;
        proof {
            lemma_filter_step(candidates@, keep, k as int);
            lemma_scaled_load_fits(len, load);
        }
        if THETA_DIVISOR * len * load < baseline {
            r.push(i);
        }
        k = k + 1;
    }
    assert(candidates@.take(k as int) =~= candidates@);
    assert(keep =~= (|i: usize|
        below_baseline(
            loads@[i as int] as int,
            load_sum(candidates@, loads@),
            candidates@.len() as int,
        )));
    r
}

proof fn lemma_scaled_load_fits(len: i128, load: i128)
    requires
        0 <= len <= u32::MAX,
        i64::MIN <= load <= i64::MAX,
    ensures
        i128::MIN <= THETA_DIVISOR * len * load <= i128::MAX,
{
    assert(-0x8000_0000_0000_0000 * 0x1_ffff_fffe <= 2 * len * load <= 0x8000_0000_0000_0000
        * 0x1_ffff_fffe) by (nonlinear_arith)
        requires
            0 <= len <= 0xffff_ffff,
            -0x8000_0000_0000_0000 <= load <= 0x7fff_ffff_ffff_ffff,
    ;
}

/// The sum of the candidates' loads.
pub fn sum_of(candidates: &Vec<usize>, loads: &[i64]) -> (sum: i128)
    requires
        candidates@.len() <= u32::MAX,
        forall|i: int| 0 <= i < candidates@.len() ==> (#[trigger] candidates@[i]) < loads@.len(),
    ensures
        sum == load_sum(candidates@, loads@),
        -0x8000_0000_0000_0000_0000_0000 <= sum <= 0x8000_0000_0000_0000_0000_0000,
{
    let mut sum: i128 = 0;
    let mut k: usize = 0;
    assert(candidates@.take(0) =~= Seq::empty());
    while k < candidates.len()
        invariant
            k <= candidates@.len() <= u32::MAX,
            forall|i: int|
                0 <= i < candidates@.len() ==> (#[trigger] candidates@[i]) < loads@.len(),
            sum == load_sum(candidates@.take(k as int), loads@),
            -0x8000_0000_0000_0000 * k <= sum <= 0x8000_0000_0000_0000 * k,
        decreases candidates@.len() - k,
    {
        assert(candidates@.take(k + 1).drop_last() =~= candidates@.take(k as int));
        sum = sum + loads[candidates[k]] as i128;
        k = k + 1;
    }
    assert(candidates@.take(k as int) =~= candidates@);
    sum
}

/// The bitmap of a list of workers.
pub fn bitmap_from(workers: &Vec<usize>) -> (b: u64)
    requires
        forall|i: int| 0 <= i < workers@.len() ==> (#[trigger] workers@[i]) < 64,
    ensures
        b == bitmap_of(workers@),
{
    let mut b: u64 = 0;
    let mut k: usize = 0;
    assert(workers@.take(0) =~= Seq::empty());
    while k < workers.len()
        invariant
            k <= workers@.len(),
            forall|i: int| 0 <= i < workers@.len() ==> (#[trigger] workers@[i]) < 64,
            b == bitmap_of(workers@.take(k as int)),
        decreases workers@.len() - k,
    {
        assert(workers@.take(k + 1).drop_last() =~= workers@.take(k as int));
        b = with_bit(b, workers[k]);
        k = k + 1;
    }
    assert(workers@.take(k as int) =~= workers@);
    b
}

/// Filtering one element more.
pub proof fn lemma_filter_step(s: Seq<usize>, keep: spec_fn(usize) -> bool, k: int)
    requires
        0 <= k < s.len(),
    ensures
        s.take(k + 1).filter(keep) == (if keep(s[k]) {
            s.take(k).filter(keep).push(s[k])
        } else {
            s.take(k).filter(keep)
        }),
{
    reveal(Seq::filter);
    assert(s.take(k + 1).drop_last() =~= s.take(k));
}

/// What a filter keeps of an ascending list is ascending and made of kept elements of it.
pub proof fn lemma_filter_ascends(s: Seq<usize>, keep: spec_fn(usize) -> bool, bound: int)
    requires
        ascending_below(s, bound),
    ensures
        ascending_below(s.filter(keep), bound),
        s.filter(keep).len() <= s.len(),
        forall|x: usize| #[trigger]
            s.filter(keep).contains(x) <==> s.contains(x) && keep(x),
    decreases s.len(),
{
    reveal(Seq::filter);
    if s.len() > 0 {
        let rest = s.drop_last();
        let last = s.last();
        assert forall|i: int, j: int| 0 <= i < j < rest.len() implies (#[trigger] rest[i]) < (
        #[trigger] rest[j]) by {
            assert(rest[i] == s[i] && rest[j] == s[j]);
        }
        assert forall|i: int| 0 <= i < rest.len() implies (#[trigger] rest[i]) < last by {
            assert(rest[i] == s[i]);
        }
        lemma_filter_ascends(rest, keep, last as int);
        let f = rest.filter(keep);
        let g = s.filter(keep);
        assert forall|x: usize| #[trigger] g.contains(x) <==> s.contains(x) && keep(x) by {
            assert(f.contains(x) <==> rest.contains(x) && keep(x));
            if g.contains(x) {
                let k = choose|k: int| 0 <= k < g.len() && g[k] == x;
                if k < f.len() {
                    assert(f[k] == x);
                    assert(f.contains(x));
                    let j = choose|j: int| 0 <= j < rest.len() && rest[j] == x;
                    assert(s[j] == x);
                } else {
                    assert(s[s.len() - 1] == x);
                }
            }
            if s.contains(x) && keep(x) {
                let k = choose|k: int| 0 <= k < s.len() && s[k] == x;
                if k < rest.len() {
                    assert(rest[k] == x);
                    assert(f.contains(x));
                    let j = choose|j: int| 0 <= j < f.len() && f[j] == x;
                    assert(g[j] == x);
                } else {
                    assert(g[g.len() - 1] == x);
                }
            }
        }
        assert(s[s.len() - 1] == last);
        assert(ascending_below(g, bound));
    }
}

/// All workers, ascending.
pub proof fn lemma_all_workers()
    ensures
        ascending_below(all_workers(), NUM_WORKERS as int),
        all_workers().len() == NUM_WORKERS,
        forall|x: usize| #[trigger] all_workers().contains(x) <==> x < NUM_WORKERS,
{
    assert forall|x: usize| #[trigger] all_workers().contains(x) <==> x < NUM_WORKERS by {
        if x < NUM_WORKERS {
            assert(all_workers()[x as int] == x);
        }
    }
}

pub proof fn lemma_stages_ascend(s: Seq<WorkerSnapshot>, now: int, threshold: int)
    ensures
        ascending_below(stage1(s, now, threshold), NUM_WORKERS as int),
        ascending_below(stage2(s, now, threshold), NUM_WORKERS as int),
        ascending_below(stage3(s, now, threshold), NUM_WORKERS as int),
        stage3(s, now, threshold).len() <= stage2(s, now, threshold).len() <= stage1(
            s,
            now,
            threshold,
        ).len() <= NUM_WORKERS,
        forall|x: usize| #[trigger]
            stage1(s, now, threshold).contains(x) <==> x < NUM_WORKERS && alive(
                s[x as int],
                now,
                threshold,
            ),
        forall|x: usize| #[trigger]
            stage2(s, now, threshold).contains(x) <==> stage1(s, now, threshold).contains(x)
                && below_baseline(
                conn_loads(s)[x as int] as int,
                load_sum(stage1(s, now, threshold), conn_loads(s)),
                stage1(s, now, threshold).len() as int,
            ),
        forall|x: usize| #[trigger]
            stage3(s, now, threshold).contains(x) <==> stage2(s, now, threshold).contains(x)
                && below_baseline(
                event_loads(s)[x as int] as int,
                load_sum(stage2(s, now, threshold), event_loads(s)),
                stage2(s, now, threshold).len() as int,
            ),
{
    lemma_all_workers();
    let one = stage1(s, now, threshold);
    let two = stage2(s, now, threshold);
    lemma_filter_ascends(
        all_workers(),
        |i: usize| alive(s[i as int], now, threshold),
        NUM_WORKERS as int,
    );
    lemma_filter_ascends(
        one,
        |i: usize|
            below_baseline(
                conn_loads(s)[i as int] as int,
                load_sum(one, conn_loads(s)),
                one.len() as int,
            ),
        NUM_WORKERS as int,
    );
    lemma_filter_ascends(
        two,
        |i: usize|
            below_baseline(
                event_loads(s)[i as int] as int,
                load_sum(two, event_loads(s)),
                two.len() as int,
            ),
        NUM_WORKERS as int,
    );
}

/// The published bitmap has exactly the workers that passed all three stages, and as many bits as
/// the last stage left workers.
pub proof fn law_bitmap_is_last_stage(s: Seq<WorkerSnapshot>, now: int, threshold: int)
    requires
        s.len() == NUM_WORKERS,
    ensures
        forall|i: int|
            0 <= i < 64 ==> #[trigger] bit(pass(s, now, threshold).bitmap, i) == stage3(
                s,
                now,
                threshold,
            ).contains(i as usize),
        ones(pass(s, now, threshold).bitmap, 64) == pass(s, now, threshold).after_stage3,
{
    lemma_stages_ascend(s, now, threshold);
    lemma_bitmap_of(stage3(s, now, threshold));
    lemma_bitmap_count(stage3(s, now, threshold), NUM_WORKERS as nat);
}

/// Each stage leaves a part of what the stage before left, and never more than all workers.
pub proof fn law_stages_narrow(s: Seq<WorkerSnapshot>, now: int, threshold: int)
    requires
        s.len() == NUM_WORKERS,
    ensures
        pass(s, now, threshold).after_stage3 <= pass(s, now, threshold).after_stage2,
        pass(s, now, threshold).after_stage2 <= pass(s, now, threshold).after_stage1,
        pass(s, now, threshold).after_stage1 <= NUM_WORKERS,
        forall|i: usize| #[trigger]
            stage3(s, now, threshold).contains(i) ==> stage2(s, now, threshold).contains(i),
        forall|i: usize| #[trigger]
            stage2(s, now, threshold).contains(i) ==> stage1(s, now, threshold).contains(i),
{
    lemma_stages_ascend(s, now, threshold);
}

/// A worker whose timestamp is set and at least `threshold` old is never published.
pub proof fn law_hung_worker_excluded(
    s: Seq<WorkerSnapshot>,
    now: int,
    threshold: int,
    worker: int,
)
    requires
        s.len() == NUM_WORKERS,
        0 <= worker < NUM_WORKERS,
        s[worker].last_loop_entry != 0,
        now - s[worker].last_loop_entry >= threshold,
    ensures
        !bit(pass(s, now, threshold).bitmap, worker),
{
    law_bitmap_is_last_stage(s, now, threshold);
    lemma_stages_ascend(s, now, threshold);
}

/// A worker that has not entered its loop yet passes the first stage.
pub proof fn law_cold_start_is_alive(
    s: Seq<WorkerSnapshot>,
    now: int,
    threshold: int,
    worker: usize,
)
    requires
        s.len() == NUM_WORKERS,
        worker < NUM_WORKERS,
        s[worker as int].last_loop_entry == 0,
    ensures
        stage1(s, now, threshold).contains(worker),
{
    lemma_stages_ascend(s, now, threshold);
}

/// A load filter keeps every candidate whose load is at most the average of all candidates.
pub proof fn law_average_load_is_kept(candidates: Seq<usize>, loads: Seq<i64>, k: int)
    requires
        ascending_below(candidates, loads.len() as int),
        0 <= k < candidates.len(),
        loads[candidates[k] as int] * candidates.len() <= load_sum(candidates, loads),
    ensures
        lightly_loaded(candidates, loads).contains(candidates[k]),
{
    let load = loads[candidates[k] as int] as int;
    let count = candidates.len() as int;
    let sum = load_sum(candidates, loads);
    lemma_filter_ascends(
        candidates,
        |i: usize| below_baseline(loads[i as int] as int, sum, count),
        loads.len() as int,
    );
    assert(candidates.contains(candidates[k]));
    assert(2 * count * load <= 2 * sum) by (nonlinear_arith)
        requires
            load * count <= sum,
    ;
    assert(below_baseline(load, sum, count));
}

/// Where all candidates carry the same load, a load filter keeps all of them.
pub proof fn law_equal_loads_are_kept(candidates: Seq<usize>, loads: Seq<i64>, load: i64)
    requires
        ascending_below(candidates, loads.len() as int),
        forall|i: int|
            0 <= i < candidates.len() ==> loads[(#[trigger] candidates[i]) as int] == load,
    ensures
        lightly_loaded(candidates, loads) == candidates,
{
    lemma_sum_of_equal(candidates, loads, load);
    let count = candidates.len() as int;
    let sum = load_sum(candidates, loads);
    let keep = |i: usize| below_baseline(loads[i as int] as int, sum, count);
    assert forall|i: int| 0 <= i < candidates.len() implies keep(#[trigger] candidates[i]) by {
        assert(2 * count * load == 2 * sum) by (nonlinear_arith)
            requires
                sum == load * count,
        ;
    }
    lemma_filter_keeps_all(candidates, keep);
}

/// The filters never empty the set: some worker is published exactly when some worker is alive.
pub proof fn law_set_never_collapses(s: Seq<WorkerSnapshot>, now: int, threshold: int)
    requires
        s.len() == NUM_WORKERS,
    ensures
        (pass(s, now, threshold).bitmap != 0) == (exists|i: int|
            0 <= i < NUM_WORKERS && alive(#[trigger] s[i], now, threshold)),
{
    lemma_stages_ascend(s, now, threshold);
    law_bitmap_is_last_stage(s, now, threshold);
    let b = pass(s, now, threshold).bitmap;
    lemma_zero_iff_no_bit(b);
    let one = stage1(s, now, threshold);
    let two = stage2(s, now, threshold);
    let three = stage3(s, now, threshold);
    if b != 0 {
        let j = choose|j: int| 0 <= j < 64 && #[trigger] bit(b, j);
        assert(three.contains(j as usize));
        assert(two.contains(j as usize));
        assert(one.contains(j as usize));
        assert(alive(s[j], now, threshold));
    }
    if exists|i: int| 0 <= i < NUM_WORKERS && alive(#[trigger] s[i], now, threshold) {
        let i = choose|i: int| 0 <= i < NUM_WORKERS && alive(#[trigger] s[i], now, threshold);
        assert(one.contains(i as usize));
        let c = lemma_filter_leaves_some(one, conn_loads(s));
        assert(two.contains(c));
        let e = lemma_filter_leaves_some(two, event_loads(s));
        assert(three.contains(e));
        assert(bit(b, e as int));
    }
}

/// Idle workers that are all alive are all published.
pub proof fn law_all_idle_all_published(s: Seq<WorkerSnapshot>, now: int, threshold: int)
    requires
        s.len() == NUM_WORKERS,
        forall|i: int|
            0 <= i < NUM_WORKERS ==> alive(#[trigger] s[i], now, threshold)
                && s[i].accumulated_conns == 0 && s[i].pending_events == 0,
    ensures
        pass(s, now, threshold).after_stage1 == NUM_WORKERS,
        pass(s, now, threshold).after_stage3 == NUM_WORKERS,
        forall|i: int|
            0 <= i < NUM_WORKERS ==> #[trigger] bit(pass(s, now, threshold).bitmap, i),
{
    lemma_all_workers();
    lemma_filter_keeps_all(all_workers(), |i: usize| alive(s[i as int], now, threshold));
    law_equal_loads_are_kept(all_workers(), conn_loads(s), 0);
    law_equal_loads_are_kept(all_workers(), event_loads(s), 0);
    law_bitmap_is_last_stage(s, now, threshold);
    assert forall|i: int| 0 <= i < NUM_WORKERS implies #[trigger] bit(
        pass(s, now, threshold).bitmap,
        i,
    ) by {
        assert(all_workers().contains(i as usize));
    }
}

proof fn lemma_filter_keeps_all(s: Seq<usize>, keep: spec_fn(usize) -> bool)
    requires
        forall|i: int| 0 <= i < s.len() ==> keep(#[trigger] s[i]),
    ensures
        s.filter(keep) == s,
    decreases s.len(),
{
    reveal(Seq::filter);
    if s.len() > 0 {
        let rest = s.drop_last();
        assert forall|i: int| 0 <= i < rest.len() implies keep(#[trigger] rest[i]) by {
            assert(rest[i] == s[i]);
        }
        lemma_filter_keeps_all(rest, keep);
        assert(keep(s[s.len() - 1]));
        assert(rest.push(s.last()) =~= s);
    }
}

proof fn lemma_sum_of_equal(candidates: Seq<usize>, loads: Seq<i64>, load: i64)
    requires
        forall|i: int|
            0 <= i < candidates.len() ==> loads[(#[trigger] candidates[i]) as int] == load,
    ensures
        load_sum(candidates, loads) == load * candidates.len(),
    decreases candidates.len(),
{
    if candidates.len() > 0 {
        let rest = candidates.drop_last();
        assert forall|i: int| 0 <= i < rest.len() implies loads[(#[trigger] rest[i]) as int]
            == load by {
            assert(rest[i] == candidates[i]);
        }
        lemma_sum_of_equal(rest, loads, load);
        assert(loads[candidates[candidates.len() - 1] as int] == load);
        let n = candidates.len() as int;
        assert(load * (n - 1) + load == load * n) by (nonlinear_arith);
    } else {
        assert(load * 0 == 0) by (nonlinear_arith);
    }
}

/// Some candidate carries no more than the average load.
pub proof fn lemma_some_at_most_average(candidates: Seq<usize>, loads: Seq<i64>) -> (k: int)
    requires
        candidates.len() > 0,
    ensures
        0 <= k < candidates.len(),
        loads[candidates[k] as int] * candidates.len() <= load_sum(candidates, loads),
    decreases candidates.len(),
{
    let n = candidates.len() as int;
    let last = loads[candidates.last() as int] as int;
    if n == 1 {
        assert(candidates.drop_last() =~= Seq::empty());
        assert(load_sum(candidates.drop_last(), loads) == 0);
        assert(candidates.last() == candidates[0]);
        assert(loads[candidates[0] as int] * candidates.len() == last) by (nonlinear_arith)
            requires
                candidates.len() == 1,
                loads[candidates[0] as int] == last,
        ;
        0
    } else {
        let rest = candidates.drop_last();
        let r = lemma_some_at_most_average(rest, loads);
        assert(rest[r] == candidates[r]);
        let low = loads[candidates[r] as int] as int;
        let part = load_sum(rest, loads);
        if low <= last {
            assert(low * n <= part + last) by (nonlinear_arith)
                requires
                    low * (n - 1) <= part,
                    low <= last,
            ;
            r
        } else {
            assert(last * n <= part + last) by (nonlinear_arith)
                requires
                    low * (n - 1) <= part,
                    low > last,
                    n > 1,
            ;
            n - 1
        }
    }
}

/// A load filter leaves someone of a non-empty list.
proof fn lemma_filter_leaves_some(candidates: Seq<usize>, loads: Seq<i64>) -> (c: usize)
    requires
        candidates.len() > 0,
        ascending_below(candidates, loads.len() as int),
    ensures
        lightly_loaded(candidates, loads).contains(c),
{
    let k = lemma_some_at_most_average(candidates, loads);
    law_average_load_is_kept(candidates, loads, k);
    candidates[k]
}

/// Filtering twice keeps what passes both filters.
pub proof fn lemma_filter_twice(
    s: Seq<usize>,
    p: spec_fn(usize) -> bool,
    q: spec_fn(usize) -> bool,
)
    ensures
        s.filter(p).filter(q) == s.filter(|x: usize| p(x) && q(x)),
    decreases s.len(),
{
    reveal(Seq::filter);
    if s.len() > 0 {
        lemma_filter_twice(s.drop_last(), p, q);
        let f = s.drop_last().filter(p);
        if p(s.last()) {
            assert(f.push(s.last()).drop_last() =~= f);
        }
    }
}

/// How many of four workers are in a group.
pub open spec fn group_size(group: Seq<bool>) -> int {
    group_total(group, seq![1i64, 1i64, 1i64, 1i64])
}

/// The loads of those of four workers that are in a group, added up.
pub open spec fn group_total(group: Seq<bool>, loads: Seq<i64>) -> int {
    (if group[0] {
        loads[0] as int
    } else {
        0
    }) + (if group[1] {
        loads[1] as int
    } else {
        0
    }) + (if group[2] {
        loads[2] as int
    } else {
        0
    }) + (if group[3] {
        loads[3] as int
    } else {
        0
    })
}

/// The bitmap of those of four workers that are in a group, worker zero in the lowest bit.
pub open spec fn group_bitmap(group: Seq<bool>) -> int {
    group_total(group, seq![1i64, 2i64, 4i64, 8i64])
}

/// Appending a worker to a list adds its load to the sum, and its bit to the bitmap of lower ones.
proof fn lemma_push_worker(t: Seq<usize>, x: usize, loads: Seq<i64>)
    requires
        x < 4,
        bitmap_of(t) < (1u64 << (x as u64)),
    ensures
        load_sum(t.push(x), loads) == load_sum(t, loads) + loads[x as int],
        bitmap_of(t.push(x)) == bitmap_of(t) + (1u64 << (x as u64)),
        bitmap_of(t.push(x)) < (1u64 << ((x + 1) as u64)),
        bitmap_of(t) < (1u64 << ((x + 1) as u64)),
{
    assert(t.push(x).drop_last() =~= t);
    let b = bitmap_of(t);
    let k = x as u64;
    let m = (x + 1) as u64;
    assert(b | (1u64 << k) == b + (1u64 << k) && b + (1u64 << k) < (1u64 << m) && b < (1u64 << m))
        by (bit_vector)
        requires
            k < 4,
            m == k + 1,
            b < (1u64 << k),
    ;
}

/// What a filter leaves of the four workers: how many, their loads, and their bitmap.
pub proof fn lemma_four_workers(keep: spec_fn(usize) -> bool, group: Seq<bool>, loads: Seq<i64>)
    requires
        group.len() == 4,
        forall|i: usize| i < 4 ==> #[trigger] keep(i) == group[i as int],
    ensures
        all_workers().filter(keep).len() == group_size(group),
        load_sum(all_workers().filter(keep), loads) == group_total(group, loads),
        bitmap_of(all_workers().filter(keep)) == group_bitmap(group),
{
    reveal(Seq::filter);
    let w = all_workers();
    assert(w.take(0) =~= Seq::empty());
    let t0 = w.take(0).filter(keep);
    lemma_filter_step(w, keep, 0);
    lemma_filter_step(w, keep, 1);
    lemma_filter_step(w, keep, 2);
    lemma_filter_step(w, keep, 3);
    assert(w.take(4) =~= w);
    assert(keep(0) == group[0] && keep(1) == group[1] && keep(2) == group[2] && keep(3) == group[3]);
    assert((1u64 << 0u64) == 1 && (1u64 << 1u64) == 2 && (1u64 << 2u64) == 4 && (1u64 << 3u64) == 8)
        by (bit_vector);
    assert(bitmap_of(t0) == 0 && load_sum(t0, loads) == 0);
    lemma_push_worker(t0, 0, loads);
    lemma_push_worker(w.take(1).filter(keep), 1, loads);
    lemma_push_worker(w.take(2).filter(keep), 2, loads);
    lemma_push_worker(w.take(3).filter(keep), 3, loads);
}

/// The margin of the filter is half the average, and at least one.
proof fn lemma_margin(load: int, sum: int, n: int)
    ensures
        below_baseline(load, sum, n) == (if sum >= 2 * n {
            2 * (n * load) < 3 * sum
        } else {
            n * load < sum + n
        }),
{
    assert(2 * n * load == 2 * (n * load)) by (nonlinear_arith);
}

/// A pass over four workers, from their status alone. A worker lives where it has not entered its
/// loop yet or entered it less than the threshold ago. Of the living, those are calm whose
/// connections are less than one and a half times the average of the living; where that average is
/// below two, those less than one above it. Of the calm, those are free whose pending events are
/// bounded in the same way by the average of the calm. The counts of a pass are the sizes of the
/// three groups, and its bitmap is the free workers.
pub proof fn law_pass_drops_the_overloaded(
    s: Seq<WorkerSnapshot>,
    now: int,
    threshold: int,
    live: Seq<bool>,
    calm: Seq<bool>,
    free: Seq<bool>,
)
    requires
        s.len() == 4,
        live.len() == 4,
        calm.len() == 4,
        free.len() == 4,
        forall|i: int|
            0 <= i < 4 ==> #[trigger] live[i] == (s[i].last_loop_entry == 0 || now
                - s[i].last_loop_entry < threshold),
        forall|i: int|
            0 <= i < 4 ==> #[trigger] calm[i] == (live[i] && {
                let sum = group_total(live, s.map_values(|w: WorkerSnapshot| w.accumulated_conns));
                let n = group_size(live);
                if sum >= 2 * n {
                    2 * (n * s[i].accumulated_conns) < 3 * sum
                } else {
                    n * s[i].accumulated_conns < sum + n
                }
            }),
        forall|i: int|
            0 <= i < 4 ==> #[trigger] free[i] == (calm[i] && {
                let sum = group_total(calm, s.map_values(|w: WorkerSnapshot| w.pending_events));
                let n = group_size(calm);
                if sum >= 2 * n {
                    2 * (n * s[i].pending_events) < 3 * sum
                } else {
                    n * s[i].pending_events < sum + n
                }
            }),
    ensures
        pass(s, now, threshold).after_stage1 == group_size(live),
        pass(s, now, threshold).after_stage2 == group_size(calm),
        pass(s, now, threshold).after_stage3 == group_size(free),
        pass(s, now, threshold).bitmap == group_bitmap(free),
{
    let c = conn_loads(s);
    let e = event_loads(s);
    assert(c == s.map_values(|w: WorkerSnapshot| w.accumulated_conns));
    assert(e == s.map_values(|w: WorkerSnapshot| w.pending_events));
    let one = stage1(s, now, threshold);
    let two = stage2(s, now, threshold);
    let p = |i: usize| alive(s[i as int], now, threshold);
    assert forall|i: usize| i < 4 implies #[trigger] p(i) == live[i as int] by {}
    lemma_four_workers(p, live, c);
    let q = |i: usize| below_baseline(c[i as int] as int, load_sum(one, c), one.len() as int);
    let pq = |i: usize| p(i) && q(i);
    lemma_filter_twice(all_workers(), p, q);
    assert forall|i: usize| i < 4 implies #[trigger] pq(i) == calm[i as int] by {
        lemma_margin(c[i as int] as int, load_sum(one, c), one.len() as int);
        assert(p(i) == live[i as int]);
    }
    assert(two == all_workers().filter(pq));
    lemma_four_workers(pq, calm, e);
    let r = |i: usize| below_baseline(e[i as int] as int, load_sum(two, e), two.len() as int);
    let pqr = |i: usize| pq(i) && r(i);
    lemma_filter_twice(all_workers(), pq, r);
    assert forall|i: usize| i < 4 implies #[trigger] pqr(i) == free[i as int] by {
        lemma_margin(e[i as int] as int, load_sum(two, e), two.len() as int);
        assert(pq(i) == calm[i as int]);
    }
    assert(stage3(s, now, threshold) == all_workers().filter(pqr));
    lemma_four_workers(pqr, free, e);
}

/// Loads add up: the sum over two lists is the sum of both, and that over one candidate its load.
pub proof fn law_loads_add_up(a: Seq<usize>, b: Seq<usize>, x: usize, loads: Seq<i64>)
    ensures
        load_sum(a + b, loads) == load_sum(a, loads) + load_sum(b, loads),
        load_sum(seq![x], loads) == loads[x as int],
    decreases b.len(),
{
    assert(seq![x].drop_last() =~= Seq::empty());
    assert(load_sum(Seq::empty(), loads) == 0);
    if b.len() == 0 {
        assert(a + b =~= a);
    } else {
        law_loads_add_up(a, b.drop_last(), x, loads);
        assert((a + b).drop_last() =~= a + b.drop_last());
    }
}

/// What a load filter keeps of any list of candidates. Where the average is two or more, exactly
/// those with less than one and a half times the average; where it is less, exactly those with less
/// than the average plus one.
pub proof fn law_filter_drops_the_overloaded(candidates: Seq<usize>, loads: Seq<i64>, x: usize)
    ensures
        load_sum(candidates, loads) >= 2 * candidates.len() ==> (lightly_loaded(
            candidates,
            loads,
        ).contains(x) <==> candidates.contains(x) && 2 * (candidates.len() * loads[x as int]) < 3
            * load_sum(candidates, loads)),
        load_sum(candidates, loads) < 2 * candidates.len() ==> (lightly_loaded(
            candidates,
            loads,
        ).contains(x) <==> candidates.contains(x) && candidates.len() * loads[x as int] < load_sum(
            candidates,
            loads,
        ) + candidates.len()),
{
    let n = candidates.len() as int;
    let sum = load_sum(candidates, loads);
    let keep = |i: usize| below_baseline(loads[i as int] as int, sum, n);
    lemma_margin(loads[x as int] as int, sum, n);
    let f = lightly_loaded(candidates, loads);
    assert(f == candidates.filter(keep));
    if f.contains(x) {
        let k = choose|k: int| 0 <= k < f.len() && f[k] == x;
        candidates.lemma_filter_pred(keep, k);
        candidates.lemma_filter_contains_rev(keep, x);
    }
    if candidates.contains(x) && keep(x) {
        let k = choose|k: int| 0 <= k < candidates.len() && candidates[k] == x;
        candidates.lemma_filter_contains(keep, k);
    }
}

/// A load filter keeps the order of the candidates, each as often as it was listed: it only leaves
/// out those with one and a half times the average or more, where that is at least two, and those
/// with the average plus one or more, where it is less.
pub proof fn law_filter_keeps_the_order(candidates: Seq<usize>, loads: Seq<i64>)
    ensures
        load_sum(candidates, loads) >= 2 * candidates.len() ==> lightly_loaded(candidates, loads)
            == candidates.filter(
            |i: usize|
                2 * (candidates.len() * loads[i as int]) < 3 * load_sum(candidates, loads),
        ),
        load_sum(candidates, loads) < 2 * candidates.len() ==> lightly_loaded(candidates, loads)
            == candidates.filter(
            |i: usize|
                candidates.len() * loads[i as int] < load_sum(candidates, loads)
                    + candidates.len(),
        ),
{
    let n = candidates.len() as int;
    let sum = load_sum(candidates, loads);
    let keep = |i: usize| below_baseline(loads[i as int] as int, sum, n);
    let high = |i: usize| 2 * (candidates.len() * loads[i as int]) < 3 * load_sum(candidates, loads);
    let low = |i: usize|
        candidates.len() * loads[i as int] < load_sum(candidates, loads) + candidates.len();
    assert forall|i: usize|
        #![trigger keep(i)]
        (sum >= 2 * n ==> keep(i) == high(i)) && (sum < 2 * n ==> keep(i) == low(i)) by {
        lemma_margin(loads[i as int] as int, sum, n);
    }
    if sum >= 2 * n {
        assert(keep =~= high);
    } else {
        assert(keep =~= low);
    }
}

/// The first stage lists the workers that live, ascending: those that have not entered their loop
/// yet or entered it less than the threshold ago.
pub proof fn law_first_stage_lists_the_living(
    s: Seq<WorkerSnapshot>,
    now: int,
    threshold: int,
    x: usize,
    i: int,
    j: int,
)
    ensures
        stage1(s, now, threshold).contains(x) <==> x < 4 && (s[x as int].last_loop_entry == 0 || now
            - s[x as int].last_loop_entry < threshold),
        0 <= i < j < stage1(s, now, threshold).len() ==> stage1(s, now, threshold)[i] < stage1(
            s,
            now,
            threshold,
        )[j],
{
    lemma_all_workers();
    let keep = |i: usize| alive(s[i as int], now, threshold);
    lemma_filter_ascends(all_workers(), keep, NUM_WORKERS as int);
    let f = all_workers().filter(keep);
    if f.contains(x) {
        let k = choose|k: int| 0 <= k < f.len() && f[k] == x;
        all_workers().lemma_filter_pred(keep, k);
        all_workers().lemma_filter_contains_rev(keep, x);
    }
    if x < 4 && keep(x) {
        assert(all_workers()[x as int] == x);
        all_workers().lemma_filter_contains(keep, x as int);
    }
}

} // verus!
