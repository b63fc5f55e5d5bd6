//! What a run records: one row per loop iteration of a worker, one row per handled event, and
//! their summary.
//!
//! Standard deviations are printed by the caller, which hands their text in.

use crate::csv::{hex_cell, join, Row};
use crate::policy::{policy_name, Policy};
use crate::scheduler::ScheduleResult;
use crate::text::{decimal, digits, push_right_aligned, push_right_aligned_u64, push_u64};
use crate::text::{push_zero_padded, right_aligned, zero_padded};
use crate::wst::{WorkerSnapshot, NUM_WORKERS};
use vstd::prelude::*;
use vstd::string::*;

verus! {

/// One row per loop iteration of a worker.
#[derive(Debug, Clone, Copy)]
pub struct TickRow {
    pub timestamp_ns: i64,
    pub worker_id: usize,
    pub iter: u32,
    pub snapshots: [WorkerSnapshot; NUM_WORKERS],
    pub queue_len: usize,
    /// The scheduling pass of this iteration; none under the baselines.
    pub result: Option<ScheduleResult>,
    pub policy: Policy,
}

/// One row per handled event: the first request of a connection, or its request in a burst. The
/// arrival time of the latter is the moment the burst fired.
#[derive(Debug, Clone, Copy)]
pub struct ConnRow {
    pub conn_id: u64,
    pub worker_id: usize,
    pub arrival_ns: i64,
    pub dequeue_ns: i64,
    pub done_ns: i64,
    pub service_us: u32,
    pub policy: Policy,
    pub kind: &'static str,
}

/// A span of nanoseconds in whole microseconds, cut towards zero.
pub open spec fn whole_micros(ns: int) -> int {
    if ns >= 0 {
        ns / 1_000
    } else {
        -((-ns) / 1_000)
    }
}

/// The whole microseconds from one time to another.
pub fn micros_between(from: i64, to: i64) -> (us: i64)
    ensures
        us == whole_micros(to - from),
{
    let span: i128 = to as i128 - from as i128;
    if span >= 0 {
        (span / 1_000) as i64
    } else {
        -(((-span) / 1_000) as i64)
    }
}

/// The columns of a scheduling pass; zeros where there was none.
pub open spec fn pass_columns(result: Option<ScheduleResult>) -> (u64, usize, usize, usize) {
    match result {
        Some(r) => (r.bitmap, r.after_stage1, r.after_stage2, r.after_stage3),
        None => (0, 0, 0, 0),
    }
}

/// The cells of the first `k` workers: connections and pending events of each.
pub open spec fn worker_cells(s: Seq<WorkerSnapshot>, k: nat) -> Seq<Seq<char>>
    decreases k,
{
    if k == 0 {
        Seq::empty()
    } else {
        worker_cells(s, (k - 1) as nat).push(decimal(s[k - 1].accumulated_conns as int)).push(
            decimal(s[k - 1].pending_events as int),
        )
    }
}

/// The cells of a tick row that has `depth` in the ninth column.
pub open spec fn tick_cells(
    timestamp_ns: i64,
    worker_id: usize,
    iter: u32,
    snapshots: Seq<WorkerSnapshot>,
    depth: usize,
    result: Option<ScheduleResult>,
    policy: Policy,
    conn_sd: Seq<char>,
    events_sd: Seq<char>,
) -> Seq<Seq<char>> {
    let (bitmap, s1, s2, s3) = pass_columns(result);
    seq![
        decimal(timestamp_ns as int),
        decimal(worker_id as int),
        decimal(iter as int),
        hex_cell(bitmap),
        zero_padded(digits(bitmap as nat, 2), NUM_WORKERS as nat),
        decimal(s1 as int),
        decimal(s2 as int),
        decimal(s3 as int),
        decimal(depth as int),
        policy_name(policy),
    ] + worker_cells(snapshots, NUM_WORKERS as nat) + seq![conn_sd, events_sd]
}

/// Writes a tick row that has `depth` in the ninth column.
pub fn tick_line(
    timestamp_ns: i64,
    worker_id: usize,
    iter: u32,
    snapshots: &[WorkerSnapshot; NUM_WORKERS],
    depth: usize,
    result: &Option<ScheduleResult>,
    policy: Policy,
    conn_sd: &str,
    events_sd: &str,
) -> (line: String)
    ensures
        line@ == join(
            tick_cells(
                timestamp_ns,
                worker_id,
                iter,
                snapshots@,
                depth,
                *result,
                policy,
                conn_sd@,
                events_sd@,
            ),
        ),
{
    let (bitmap, s1, s2, s3): (u64, usize, usize, usize) = match result {
        Some(r) => (r.bitmap, r.after_stage1, r.after_stage2, r.after_stage3),
        None => (0, 0, 0, 0),
    };
    let mut row: Row = Row::new();
    row.add_i64(timestamp_ns);
    row.add_u64(worker_id as u64);
    row.add_u64(iter as u64);
    row.add_hex(bitmap);
    row.add_binary(bitmap, NUM_WORKERS as u64);
    row.add_u64(s1 as u64);
    row.add_u64(s2 as u64);
    row.add_u64(s3 as u64);
    row.add_u64(depth as u64);
    row.add_text(policy.as_str());
    let ghost head = row@;
    let mut i: usize = 0;
    assert(head + worker_cells(snapshots@, 0) =~= head);
    while i < NUM_WORKERS
        invariant
            i <= NUM_WORKERS,
            row.inv(),
            row@ == head + worker_cells(snapshots@, i as nat),
        decreases NUM_WORKERS - i,
    {
        row.add_i64(snapshots[i].accumulated_conns);
        row.add_i64(snapshots[i].pending_events);
        i = i + 1;
        assert(row@ =~= head + worker_cells(snapshots@, i as nat));
    }
    row.add_text(conn_sd);
    row.add_text(events_sd);
    assert(row@ =~= tick_cells(
        timestamp_ns,
        worker_id,
        iter,
        snapshots@,
        depth,
        *result,
        policy,
        conn_sd@,
        events_sd@,
    ));
    row.finish()
}

/// The header cells of the first `k` workers.
pub open spec fn worker_header_cells(k: nat) -> Seq<Seq<char>>
    decreases k,
{
    if k == 0 {
        Seq::empty()
    } else {
        worker_header_cells((k - 1) as nat).push("w"@ + decimal(k - 1) + "_conns"@).push(
            "w"@ + decimal(k - 1) + "_events"@,
        )
    }
}

/// The header cells of tick rows whose ninth column has the given name.
pub open spec fn tick_header_cells(depth_name: Seq<char>) -> Seq<Seq<char>> {
    seq![
        "timestamp_ns"@,
        "worker_id"@,
        "iter"@,
        "bitmap_hex"@,
        "bitmap_bin"@,
        "after_stage1"@,
        "after_stage2"@,
        "after_stage3"@,
        depth_name,
        "policy"@,
    ] + worker_header_cells(NUM_WORKERS as nat) + seq!["conn_sd"@, "events_sd"@]
}

/// The header line of tick rows whose ninth column has the given name.
pub fn tick_header_line(depth_name: &str) -> (line: String)
    ensures
        line@ == join(tick_header_cells(depth_name@)),
{
    let mut row: Row = Row::new();
    row.add_text("timestamp_ns");
    row.add_text("worker_id");
    row.add_text("iter");
    row.add_text("bitmap_hex");
    row.add_text("bitmap_bin");
    row.add_text("after_stage1");
    row.add_text("after_stage2");
    row.add_text("after_stage3");
    row.add_text(depth_name);
    row.add_text("policy");
    let ghost head = row@;
    let mut i: usize = 0;
    assert(head + worker_header_cells(0) =~= head);
    while i < NUM_WORKERS
        invariant
            i <= NUM_WORKERS,
            row.inv(),
            row@ == head + worker_header_cells(i as nat),
        decreases NUM_WORKERS - i,
    {
        row.add_numbered("w", i as u64, "_conns");
        row.add_numbered("w", i as u64, "_events");
        i = i + 1;
        assert(row@ =~= head + worker_header_cells(i as nat));
    }
    row.add_text("conn_sd");
    row.add_text("events_sd");
    assert(row@ =~= tick_header_cells(depth_name@));
    row.finish()
}

/// The header line of the simulation's tick rows.
pub fn tick_header() -> (line: String)
    ensures
        line@ == join(tick_header_cells("queue_len"@)),
{
    tick_header_line("queue_len")
}

/// The header cells of the simulation's connection rows.
pub open spec fn conn_header_cells() -> Seq<Seq<char>> {
    seq![
        "conn_id"@,
        "worker_id"@,
        "arrival_ns"@,
        "dequeue_ns"@,
        "done_ns"@,
        "queue_wait_us"@,
        "service_us"@,
        "latency_us"@,
        "policy"@,
        "kind"@,
    ]
}

/// The header line of the simulation's connection rows.
pub fn conn_header() -> (line: String)
    ensures
        line@ == join(conn_header_cells()),
{
    let mut row: Row = Row::new();
    row.add_text("conn_id");
    row.add_text("worker_id");
    row.add_text("arrival_ns");
    row.add_text("dequeue_ns");
    row.add_text("done_ns");
    row.add_text("queue_wait_us");
    row.add_text("service_us");
    row.add_text("latency_us");
    row.add_text("policy");
    row.add_text("kind");
    assert(row@ =~= conn_header_cells());
    row.finish()
}

/// The cells of the simulation's tick row.
pub open spec fn tick_row_cells(
    row: TickRow,
    conn_sd: Seq<char>,
    events_sd: Seq<char>,
) -> Seq<Seq<char>> {
    tick_cells(
        row.timestamp_ns,
        row.worker_id,
        row.iter,
        row.snapshots@,
        row.queue_len,
        row.result,
        row.policy,
        conn_sd,
        events_sd,
    )
}

/// Writes a tick row, with the texts of the two standard deviations.
pub fn format_tick_row(row: &TickRow, conn_sd: &str, events_sd: &str) -> (line: String)
    ensures
        line@ == join(tick_row_cells(*row, conn_sd@, events_sd@)),
{
    tick_line(
        row.timestamp_ns,
        row.worker_id,
        row.iter,
        &row.snapshots,
        row.queue_len,
        &row.result,
        row.policy,
        conn_sd,
        events_sd,
    )
}

/// The cells of the simulation's connection row.
pub open spec fn conn_row_cells(row: ConnRow) -> Seq<Seq<char>> {
    seq![
        decimal(row.conn_id as int),
        decimal(row.worker_id as int),
        decimal(row.arrival_ns as int),
        decimal(row.dequeue_ns as int),
        decimal(row.done_ns as int),
        decimal(whole_micros(row.dequeue_ns - row.arrival_ns)),
        decimal(row.service_us as int),
        decimal(whole_micros(row.done_ns - row.arrival_ns)),
        policy_name(row.policy),
        row.kind@,
    ]
}

/// Writes a connection row.
pub fn format_conn_row(row: &ConnRow) -> (line: String)
    ensures
        line@ == join(conn_row_cells(*row)),
{
    let queue_wait_us: i64 = micros_between(row.arrival_ns, row.dequeue_ns);
    let latency_us: i64 = micros_between(row.arrival_ns, row.done_ns);
    let mut r: Row = Row::new();
    r.add_u64(row.conn_id);
    r.add_u64(row.worker_id as u64);
    r.add_i64(row.arrival_ns);
    r.add_i64(row.dequeue_ns);
    r.add_i64(row.done_ns);
    r.add_i64(queue_wait_us);
    r.add_u64(row.service_us as u64);
    r.add_i64(latency_us);
    r.add_text(row.policy.as_str());
    r.add_text(row.kind);
    assert(r@ =~= conn_row_cells(*row));
    r.finish()
}

/// The first `k` values, right-aligned to three characters, with a space between each two.
pub open spec fn spaced(values: Seq<i64>, k: nat) -> Seq<char>
    decreases k,
{
    if k == 0 {
        Seq::empty()
    } else if k == 1 {
        right_aligned(decimal(values[0] as int), 3)
    } else {
        spaced(values, (k - 1) as nat) + " "@ + right_aligned(decimal(values[k - 1] as int), 3)
    }
}

fn push_spaced(out: &mut String, values: &[i64; NUM_WORKERS])
    ensures
        final(out)@ == old(out)@ + spaced(values@, NUM_WORKERS as nat),
{
    let mut i: usize = 0;
    assert(out@ =~= old(out)@ + spaced(values@, 0));
    while i < NUM_WORKERS
        invariant
            i <= NUM_WORKERS,
            out@ == old(out)@ + spaced(values@, i as nat),
        decreases NUM_WORKERS - i,
    {
        if i > 0 {
            out.append(" ");
        }
        push_right_aligned(out, values[i], 3);
        i = i + 1;
        assert(out@ =~= old(out)@ + spaced(values@, i as nat));
    }
}

/// A scheduling pass in words.
pub open spec fn pass_text(result: Option<ScheduleResult>) -> Seq<char> {
    match result {
        Some(r) => "stages "@ + decimal(r.after_stage1 as int) + "/"@ + decimal(
            r.after_stage2 as int,
        ) + "/"@ + decimal(r.after_stage3 as int) + " bitmap="@ + zero_padded(
            digits(r.bitmap as nat, 2),
            NUM_WORKERS as nat,
        ),
        None => "(no scheduler)"@,
    }
}

fn pass_words(result: &Option<ScheduleResult>) -> (s: String)
    ensures
        s@ == pass_text(*result),
{
    let mut out: String = String::new();
    match result {
        Some(r) => {
            out.append("stages ");
            assert(out@ =~= "stages "@);
            push_u64(&mut out, r.after_stage1 as u64);
            out.append("/");
            push_u64(&mut out, r.after_stage2 as u64);
            out.append("/");
            push_u64(&mut out, r.after_stage3 as u64);
            out.append(" bitmap=");
            push_zero_padded(&mut out, r.bitmap, 2, NUM_WORKERS as u64);
        },
        None => {
            out.append("(no scheduler)");
            assert(out@ =~= "(no scheduler)"@);
        },
    }
    out
}

/// One console line for an iteration; `label` stands before the depth.
pub open spec fn console_text(
    worker_id: usize,
    policy: Policy,
    iter: u32,
    conns: Seq<i64>,
    events: Seq<i64>,
    label: Seq<char>,
    depth: usize,
    result: Option<ScheduleResult>,
) -> Seq<char> {
    "[w"@ + decimal(worker_id as int) + "]["@ + policy_name(policy) + "] iter "@ + right_aligned(
        decimal(iter as int),
        4,
    ) + " | conns=["@ + spaced(conns, NUM_WORKERS as nat) + "] events=["@ + spaced(
        events,
        NUM_WORKERS as nat,
    ) + "] "@ + label + right_aligned(decimal(depth as int), 3) + " | "@ + pass_text(result)
}

/// The console line of an iteration; `label` stands before the depth.
pub fn console_line_with(
    worker_id: usize,
    policy: Policy,
    iter: u32,
    snapshots: &[WorkerSnapshot; NUM_WORKERS],
    label: &str,
    depth: usize,
    result: &Option<ScheduleResult>,
) -> (line: String)
    ensures
        line@ == console_text(
            worker_id,
            policy,
            iter,
            crate::scheduler::conn_loads(snapshots@),
            crate::scheduler::event_loads(snapshots@),
            label@,
            depth,
            *result,
        ),
{
    let conns: [i64; NUM_WORKERS] = [
        snapshots[0].accumulated_conns,
        snapshots[1].accumulated_conns,
        snapshots[2].accumulated_conns,
        snapshots[3].accumulated_conns,
    ];
    let events: [i64; NUM_WORKERS] = [
        snapshots[0].pending_events,
        snapshots[1].pending_events,
        snapshots[2].pending_events,
        snapshots[3].pending_events,
    ];
    assert(conns@ =~= crate::scheduler::conn_loads(snapshots@));
    assert(events@ =~= crate::scheduler::event_loads(snapshots@));
    let words: String = pass_words(result);
    let mut out: String = String::new();
    out.append("[w");
    assert(out@ =~= "[w"@);
    push_u64(&mut out, worker_id as u64);
    out.append("][");
    out.append(policy.as_str());
    out.append("] iter ");
    push_right_aligned_u64(&mut out, iter as u64, 4);
    out.append(" | conns=[");
    push_spaced(&mut out, &conns);
    out.append("] events=[");
    push_spaced(&mut out, &events);
    out.append("] ");
    out.append(label);
    push_right_aligned_u64(&mut out, depth as u64, 3);
    out.append(" | ");
    out.append(words.as_str());
    out
}

impl TickRow {
    /// The console line of the iteration.
    pub fn console_line(&self) -> (line: String)
        ensures
            line@ == console_text(
                self.worker_id,
                self.policy,
                self.iter,
                crate::scheduler::conn_loads(self.snapshots@),
                crate::scheduler::event_loads(self.snapshots@),
                "qlen="@,
                self.queue_len,
                self.result,
            ),
    {
        console_line_with(
            self.worker_id,
            self.policy,
            self.iter,
            &self.snapshots,
            "qlen=",
            self.queue_len,
            &self.result,
        )
    }
}

/// The texts of a list of lines.
pub open spec fn lines_of(v: Seq<String>) -> Seq<Seq<char>> {
    v.map_values(|s: String| s@)
}

/// The rows of one worker, written out when it stops.
#[derive(Debug)]
pub struct MetricsShards {
    pub ticks: Vec<TickRow>,
    pub conns: Vec<ConnRow>,
}

/// The lines of tick rows, each with the texts of its standard deviations.
pub open spec fn tick_lines(
    ticks: Seq<TickRow>,
    deviations: Seq<(String, String)>,
) -> Seq<Seq<char>> {
    Seq::new(
        ticks.len(),
        |i: int| join(tick_row_cells(ticks[i], deviations[i].0@, deviations[i].1@)),
    )
}

/// The lines of connection rows.
pub open spec fn conn_lines(conns: Seq<ConnRow>) -> Seq<Seq<char>> {
    Seq::new(conns.len(), |i: int| join(conn_row_cells(conns[i])))
}

impl MetricsShards {
    /// No rows.
    pub fn new() -> (s: MetricsShards)
        ensures
            s.ticks@ == Seq::<TickRow>::empty(),
            s.conns@ == Seq::<ConnRow>::empty(),
    {
        MetricsShards { ticks: Vec::new(), conns: Vec::new() }
    }

    /// The lines of both shard files: tick rows, with the texts of their standard deviations, and
    /// connection rows.
    pub fn write(&self, deviations: &Vec<(String, String)>) -> (files: (Vec<String>, Vec<String>))
        requires
            deviations@.len() == self.ticks@.len(),
        ensures
            lines_of(files.0@) == tick_lines(self.ticks@, deviations@),
            lines_of(files.1@) == conn_lines(self.conns@),
    {
        let mut ticks: Vec<String> = Vec::new();
        let mut i: usize = 0;
        while i < self.ticks.len()
            invariant
                i <= self.ticks@.len(),
                deviations@.len() == self.ticks@.len(),
                lines_of(ticks@) == tick_lines(self.ticks@, deviations@).take(i as int),
            decreases self.ticks@.len() - i,
        {
            let ghost before = ticks@;
            let line: String = format_tick_row(
                &self.ticks[i],
                deviations[i].0.as_str(),
                deviations[i].1.as_str(),
            );
            ticks.push(line);
            i = i + 1;
            assert(lines_of(ticks@) =~= lines_of(before).push(line@));
            assert(lines_of(ticks@) =~= tick_lines(self.ticks@, deviations@).take(i as int));
        }
        assert(lines_of(ticks@) =~= tick_lines(self.ticks@, deviations@));
        let mut conns: Vec<String> = Vec::new();
        let mut j: usize = 0;
        while j < self.conns.len()
            invariant
                j <= self.conns@.len(),
                lines_of(conns@) == conn_lines(self.conns@).take(j as int),
            decreases self.conns@.len() - j,
        {
            let ghost before = conns@;
            let line: String = format_conn_row(&self.conns[j]);
            conns.push(line);
            j = j + 1;
            assert(lines_of(conns@) =~= lines_of(before).push(line@));
            assert(lines_of(conns@) =~= conn_lines(self.conns@).take(j as int));
        }
        assert(lines_of(conns@) =~= conn_lines(self.conns@));
        (ticks, conns)
    }
}

/// Header and rows of ticks have the same number of columns, whatever the policy and whether a
/// pass ran.
pub proof fn law_tick_columns_agree(
    row: TickRow,
    conn_sd: Seq<char>,
    events_sd: Seq<char>,
    depth_name: Seq<char>,
)
    ensures
        tick_row_cells(row, conn_sd, events_sd).len() == tick_header_cells(depth_name).len(),
{
    lemma_worker_columns(row.snapshots@, NUM_WORKERS as nat);
}

pub proof fn lemma_worker_columns(s: Seq<WorkerSnapshot>, k: nat)
    ensures
        worker_cells(s, k).len() == 2 * k,
        worker_header_cells(k).len() == 2 * k,
    decreases k,
{
    if k > 0 {
        lemma_worker_columns(s, (k - 1) as nat);
    }
}

/// Header and rows of connections have the same number of columns.
pub proof fn law_conn_columns_agree(row: ConnRow)
    ensures
        conn_row_cells(row).len() == conn_header_cells().len(),
{
}

/// Waiting and processing make up the latency, up to the rounding to microseconds.
pub proof fn law_latency_covers_wait(row: ConnRow)
    requires
        row.arrival_ns <= row.dequeue_ns <= row.done_ns,
    ensures
        0 <= whole_micros(row.dequeue_ns - row.arrival_ns) <= whole_micros(
            row.done_ns - row.arrival_ns,
        ),
{
}

/// Whole microseconds are thousands of nanoseconds, cut towards zero.
pub proof fn law_micros_are_thousands(ns: int)
    ensures
        ns >= 0 ==> 1_000 * whole_micros(ns) <= ns < 1_000 * (whole_micros(ns) + 1),
        whole_micros(-ns) == -whole_micros(ns),
{
}

/// A bitmap of the four workers in binary is four digits, that of the last worker first.
pub proof fn law_binary_column(bitmap: nat)
    requires
        bitmap < 16,
    ensures
        zero_padded(digits(bitmap, 2), 4).len() == 4,
        zero_padded(digits(bitmap, 2), 4)[3] == (if bitmap % 2 == 1 {
            '1'
        } else {
            '0'
        }),
        zero_padded(digits(bitmap, 2), 4)[2] == (if (bitmap / 2) % 2 == 1 {
            '1'
        } else {
            '0'
        }),
        zero_padded(digits(bitmap, 2), 4)[1] == (if (bitmap / 4) % 2 == 1 {
            '1'
        } else {
            '0'
        }),
        zero_padded(digits(bitmap, 2), 4)[0] == (if bitmap >= 8 {
            '1'
        } else {
            '0'
        }),
{
    reveal_with_fuel(digits, 5);
    let half = bitmap / 2;
    let quarter = half / 2;
    let eighth = quarter / 2;
    assert(quarter == bitmap / 4 && eighth == bitmap / 8);
    assert(crate::text::digit_char(0) == '0' && crate::text::digit_char(1) == '1');
    if bitmap >= 2 {
        assert(digits(bitmap, 2) == digits(half, 2).push(crate::text::digit_char(bitmap % 2)));
    }
    if half >= 2 {
        assert(digits(half, 2) == digits(quarter, 2).push(crate::text::digit_char(half % 2)));
    }
    if quarter >= 2 {
        assert(digits(quarter, 2) == digits(eighth, 2).push(crate::text::digit_char(quarter % 2)));
    }
}

/// A bitmap in hexadecimal is `0x` and at least four digits; one of the four workers is `0x000` and
/// one digit.
pub proof fn law_hexadecimal_column(bitmap: u64)
    ensures
        hex_cell(bitmap).take(2) == "0x"@,
        hex_cell(bitmap).skip(2) == zero_padded(digits(bitmap as nat, 16), 4),
        bitmap < 16 ==> hex_cell(bitmap).len() == 6,
        bitmap < 16 ==> hex_cell(bitmap).take(5) == "0x000"@,
        bitmap < 10 ==> hex_cell(bitmap)[5] as int == '0' as int + bitmap,
        10 <= bitmap < 16 ==> hex_cell(bitmap)[5] as int == 'a' as int + bitmap - 10,
{
    reveal_strlit("0x");
    reveal_strlit("0x000");
    assert(hex_cell(bitmap).take(2) =~= "0x"@);
    assert(hex_cell(bitmap).skip(2) =~= zero_padded(digits(bitmap as nat, 16), 4));
    if bitmap < 16 {
        assert(hex_cell(bitmap).take(5) =~= "0x000"@);
    }
}

/// What stands where in a tick row: time, worker and iteration; the bitmap twice and the sizes of
/// the three stages, zeros where no pass ran; the depth and the policy; connections and events of
/// each worker in turn; and the two deviations.
pub proof fn law_tick_columns(
    timestamp_ns: i64,
    worker_id: usize,
    iter: u32,
    snapshots: Seq<WorkerSnapshot>,
    depth: usize,
    result: Option<ScheduleResult>,
    policy: Policy,
    conn_sd: Seq<char>,
    events_sd: Seq<char>,
    w: int,
)
    requires
        0 <= w < 4,
    ensures
        tick_cells(
            timestamp_ns,
            worker_id,
            iter,
            snapshots,
            depth,
            result,
            policy,
            conn_sd,
            events_sd,
        ).take(3) == seq![
            decimal(timestamp_ns as int),
            decimal(worker_id as int),
            decimal(iter as int),
        ],
        result matches Some(r) ==> tick_cells(
            timestamp_ns,
            worker_id,
            iter,
            snapshots,
            depth,
            result,
            policy,
            conn_sd,
            events_sd,
        ).subrange(3, 8) == seq![
            hex_cell(r.bitmap),
            zero_padded(digits(r.bitmap as nat, 2), 4),
            decimal(r.after_stage1 as int),
            decimal(r.after_stage2 as int),
            decimal(r.after_stage3 as int),
        ],
        result.is_none() ==> tick_cells(
            timestamp_ns,
            worker_id,
            iter,
            snapshots,
            depth,
            result,
            policy,
            conn_sd,
            events_sd,
        ).subrange(3, 8) == seq![
            hex_cell(0),
            zero_padded(digits(0, 2), 4),
            decimal(0),
            decimal(0),
            decimal(0),
        ],
        tick_cells(
            timestamp_ns,
            worker_id,
            iter,
            snapshots,
            depth,
            result,
            policy,
            conn_sd,
            events_sd,
        ).subrange(8, 10) == seq![decimal(depth as int), policy_name(policy)],
        tick_cells(
            timestamp_ns,
            worker_id,
            iter,
            snapshots,
            depth,
            result,
            policy,
            conn_sd,
            events_sd,
        ).subrange(10 + 2 * w, 12 + 2 * w) == seq![
            decimal(snapshots[w].accumulated_conns as int),
            decimal(snapshots[w].pending_events as int),
        ],
        tick_cells(
            timestamp_ns,
            worker_id,
            iter,
            snapshots,
            depth,
            result,
            policy,
            conn_sd,
            events_sd,
        ).skip(18) == seq![conn_sd, events_sd],
{
    let cells = tick_cells(
        timestamp_ns,
        worker_id,
        iter,
        snapshots,
        depth,
        result,
        policy,
        conn_sd,
        events_sd,
    );
    lemma_worker_columns(snapshots, 4);
    lemma_worker_columns(snapshots, 3);
    lemma_worker_columns(snapshots, 2);
    lemma_worker_columns(snapshots, 1);
    reveal_with_fuel(worker_cells, 5);
    assert(cells.len() == 20);
    let (bitmap, s1, s2, s3) = pass_columns(result);
    assert(cells.take(3) =~= seq![
        decimal(timestamp_ns as int),
        decimal(worker_id as int),
        decimal(iter as int),
    ]);
    assert(cells.subrange(3, 8) =~= seq![
        hex_cell(bitmap),
        zero_padded(digits(bitmap as nat, 2), 4),
        decimal(s1 as int),
        decimal(s2 as int),
        decimal(s3 as int),
    ]);
    assert(cells.subrange(8, 10) =~= seq![decimal(depth as int), policy_name(policy)]);
    let all = worker_cells(snapshots, 4);
    assert(all[2 * w] == decimal(snapshots[w].accumulated_conns as int) && all[2 * w + 1]
        == decimal(snapshots[w].pending_events as int));
    assert(cells[10 + 2 * w] == all[2 * w] && cells[11 + 2 * w] == all[2 * w + 1]);
    assert(cells.subrange(10 + 2 * w, 12 + 2 * w) =~= seq![
        decimal(snapshots[w].accumulated_conns as int),
        decimal(snapshots[w].pending_events as int),
    ]);
    assert(cells.skip(18) =~= seq![conn_sd, events_sd]);
}

/// A simulation's tick row shows the length of the worker's queue as its depth.
pub proof fn law_tick_row_shows_the_queue(row: TickRow, conn_sd: Seq<char>, events_sd: Seq<char>)
    ensures
        tick_row_cells(row, conn_sd, events_sd) == tick_cells(
            row.timestamp_ns,
            row.worker_id,
            row.iter,
            row.snapshots@,
            row.queue_len,
            row.result,
            row.policy,
            conn_sd,
            events_sd,
        ),
{
}

/// Every row is written as one line, in order.
pub proof fn law_every_row_is_written(
    ticks: Seq<TickRow>,
    deviations: Seq<(String, String)>,
    conns: Seq<ConnRow>,
    i: int,
)
    ensures
        tick_lines(ticks, deviations).len() == ticks.len(),
        conn_lines(conns).len() == conns.len(),
        0 <= i < ticks.len() ==> tick_lines(ticks, deviations)[i] == join(
            tick_row_cells(ticks[i], deviations[i].0@, deviations[i].1@),
        ),
        0 <= i < conns.len() ==> conn_lines(conns)[i] == join(conn_row_cells(conns[i])),
{
}

/// The console shows the four values in order, each in a field of three, with blanks between.
pub proof fn law_console_values(values: Seq<i64>)
    ensures
        spaced(values, 4) == right_aligned(decimal(values[0] as int), 3) + " "@ + right_aligned(
            decimal(values[1] as int),
            3,
        ) + " "@ + right_aligned(decimal(values[2] as int), 3) + " "@ + right_aligned(
            decimal(values[3] as int),
            3,
        ),
{
    reveal_with_fuel(spaced, 5);
}

/// What a console line shows, from left to right: worker and policy, the iteration in a field of
/// four, connections and events of the four workers, the depth under its label, and the pass, with
/// the sizes of its stages and the bitmap in binary.
pub proof fn law_console_line_parts(
    worker_id: usize,
    policy: Policy,
    iter: u32,
    conns: Seq<i64>,
    events: Seq<i64>,
    label: Seq<char>,
    depth: usize,
    result: Option<ScheduleResult>,
)
    ensures
        console_text(worker_id, policy, iter, conns, events, label, depth, result) == ("[w"@
            + decimal(worker_id as int) + "]["@ + policy_name(policy) + "] iter "@ + right_aligned(
            decimal(iter as int),
            4,
        )) + (" | conns=["@ + spaced(conns, 4)) + ("] events=["@ + spaced(events, 4)) + ("] "@
            + label + right_aligned(decimal(depth as int), 3)) + (" | "@ + pass_text(result)),
        result.is_none() ==> pass_text(result) == "(no scheduler)"@,
        result matches Some(r) ==> pass_text(result) == "stages "@ + decimal(r.after_stage1 as int)
            + "/"@ + decimal(r.after_stage2 as int) + "/"@ + decimal(r.after_stage3 as int)
            + " bitmap="@ + zero_padded(digits(r.bitmap as nat, 2), 4),
{
    let a = "[w"@ + decimal(worker_id as int) + "]["@ + policy_name(policy) + "] iter "@
        + right_aligned(decimal(iter as int), 4);
    let b = " | conns=["@ + spaced(conns, 4);
    let c = "] events=["@ + spaced(events, 4);
    let d = "] "@ + label + right_aligned(decimal(depth as int), 3);
    let e = " | "@ + pass_text(result);
    assert(console_text(worker_id, policy, iter, conns, events, label, depth, result) =~= a + b + c
        + d + e);
}

} // verus!
