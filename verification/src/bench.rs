//! The load generator: when connections start, what they cost, and the figures of a run.

use crate::client::{latency_of, row_cells, ConnRow};
use crate::csv::join;
use crate::metrics::whole_micros;
use crate::generator::{hash_of, runnable, synthetic_hash};
use crate::summary::{figures_of, latency_figures, sum_of_values, LatencyFigures};
use crate::text::same_text;
use crate::workload::{as_micros32, due_at, due_time, is_profile, micros32, sample_of};
use crate::workload::{law_arrivals_are_evenly_spaced, law_due_within_duration};
use crate::workload::lemma_profiles_fill_duration;
use crate::workload::{ProcessingTime, WorkloadConfig, SECOND};
use vstd::prelude::*;

verus! {

/// How long connections may stay open after the last one has started, in nanoseconds.
pub const GRACE: u128 = 500_000_000;

/// How many rows are written between two flushes.
pub const FLUSH_EVERY: u32 = 256;

/// When connections close, from the start: after their lifetime, and no later than a grace period
/// behind the run.
pub open spec fn close_time(cfg: WorkloadConfig) -> int {
    if cfg.lifetime <= cfg.duration + GRACE {
        cfg.lifetime as int
    } else {
        cfg.duration + GRACE
    }
}

/// When connections close, from the start.
pub fn close_after(cfg: &WorkloadConfig) -> (ns: u128)
    requires
        cfg.duration + GRACE <= u128::MAX,
    ensures
        ns == close_time(*cfg),
{
    let latest: u128 = cfg.duration + GRACE;
    if cfg.lifetime <= latest {
        cfg.lifetime
    } else {
        latest
    }
}

/// A connection that is to be started.
#[derive(Debug, Clone, Copy, PartialEq, Eq, Structural)]
pub struct Arrival {
    /// When it starts, from the start of the run.
    pub at: u128,
    pub conn_id: u64,
    /// The cost of its first request.
    pub service_us: u32,
}

/// The connections of a run, one after the other.
#[derive(Debug)]
pub struct Arrivals {
    service: ProcessingTime,
    duration: u128,
    cps: u32,
    seed: u64,
    next: u128,
    conn_id: u64,
}

/// The connections of a run: what they are made of, and how many have started.
#[verifier::ext_equal]
pub struct ArrivalsView {
    pub service: ProcessingTime,
    pub duration: u128,
    pub cps: u32,
    pub seed: u64,
    pub started: int,
}

impl View for Arrivals {
    type V = ArrivalsView;

    closed spec fn view(&self) -> ArrivalsView {
        ArrivalsView {
            service: self.service,
            duration: self.duration,
            cps: self.cps,
            seed: self.seed,
            started: self.conn_id as int,
        }
    }
}

/// The connection that starts next: number `n` starts when it is due, while that is within the
/// duration.
pub open spec fn arrival_of(v: ArrivalsView) -> Option<Arrival> {
    if due_at(v.cps, v.started) < v.duration {
        Some(
            Arrival {
                at: due_at(v.cps, v.started) as u128,
                conn_id: v.started as u64,
                service_us: micros32(
                    sample_of(v.service, hash_of(v.started as u64, v.seed)),
                ),
            },
        )
    } else {
        None
    }
}

impl Arrivals {
    /// What holds of a run at any time.
    pub closed spec fn inv(&self) -> bool {
        &&& self.cps > 0
        &&& self.cps * self.duration <= u64::MAX * SECOND
        &&& self.next == due_at(self.cps, self.conn_id as int)
        &&& self.conn_id > 0 ==> due_at(self.cps, self.conn_id - 1) < self.duration
    }

    /// The connections of a run of the profile `cfg`.
    pub fn new(cfg: &WorkloadConfig, seed: u64) -> (a: Arrivals)
        requires
            runnable(*cfg),
        ensures
            a.inv(),
            a@ == (ArrivalsView {
                service: cfg.service,
                duration: cfg.duration,
                cps: cfg.cps,
                seed,
                started: 0,
            }),
    {
        Arrivals {
            service: cfg.service,
            duration: cfg.duration,
            cps: cfg.cps,
            seed,
            next: 0,
            conn_id: 0,
        }
    }

    /// The connection that starts next, if one does.
    pub fn next_arrival(&mut self) -> (r: Option<Arrival>)
        requires
            old(self).inv(),
        ensures
            final(self).inv(),
            r == arrival_of(old(self)@),
            final(self)@ == (if r.is_some() {
                ArrivalsView { started: old(self)@.started + 1, ..old(self)@ }
            } else {
                old(self)@
            }),
    {
        if self.next < self.duration {
            let conn_id: u64 = self.conn_id;
            let at: u128 = self.next;
            let hash: u64 = synthetic_hash(conn_id, self.seed);
            let service_us: u32 = as_micros32(self.service.sample(hash));
            proof {
                law_due_within_duration(self.cps, conn_id as int, self.duration);
            }
            self.conn_id = conn_id + 1;
            self.next = due_time(self.cps, self.conn_id);
            Some(Arrival { at, conn_id, service_us })
        } else {
            None
        }
    }

    /// How many connections have started.
    pub fn generated(&self) -> (n: u64)
        ensures
            n == self@.started,
    {
        self.conn_id
    }
}

/// The figures of a run.
#[derive(Debug, Clone, Copy, PartialEq, Eq, Structural)]
pub struct Summary {
    pub completed: usize,
    pub errors: usize,
    pub drops: usize,
    pub latency: LatencyFigures,
}

/// What becomes of a row: it counts as a drop, as an error, or as completed.
#[derive(Debug, Clone, Copy, PartialEq, Eq, Structural)]
pub enum Verdict {
    Drop,
    Error,
    Completed,
}

/// What a row counts as.
pub open spec fn verdict_of(kind: Seq<char>) -> Verdict {
    if kind == "drop"@ {
        Verdict::Drop
    } else if kind == "error"@ {
        Verdict::Error
    } else {
        Verdict::Completed
    }
}

/// The rows of a run so far: how many of each verdict, and the latencies of the completed ones.
#[verifier::ext_equal]
pub struct Tally {
    pub completed: int,
    pub errors: int,
    pub drops: int,
    pub latencies: Seq<i64>,
    pub unflushed: int,
}

/// Whether the count that a row belongs to can grow by one.
pub open spec fn room_for(t: Tally, row: ConnRow) -> bool {
    match verdict_of(row.kind@) {
        Verdict::Drop => t.drops < usize::MAX,
        Verdict::Error => t.errors < usize::MAX,
        Verdict::Completed => t.completed < usize::MAX,
    }
}

/// The tally with one row more.
pub open spec fn tally_after(t: Tally, row: ConnRow) -> Tally {
    let counted = match verdict_of(row.kind@) {
        Verdict::Drop => Tally { drops: t.drops + 1, ..t },
        Verdict::Error => Tally { errors: t.errors + 1, ..t },
        Verdict::Completed => Tally {
            completed: t.completed + 1,
            latencies: match latency_of(row) {
                Some(l) => t.latencies.push(l as i64),
                None => t.latencies,
            },
            ..t
        },
    };
    Tally {
        unflushed: if t.unflushed + 1 >= FLUSH_EVERY {
            0
        } else {
            t.unflushed + 1
        },
        ..counted
    }
}

/// The collector of a run's rows.
#[derive(Debug)]
pub struct Collector {
    completed: usize,
    errors: usize,
    drops: usize,
    latencies: Vec<i64>,
    since_flush: u32,
}

impl View for Collector {
    type V = Tally;

    closed spec fn view(&self) -> Tally {
        Tally {
            completed: self.completed as int,
            errors: self.errors as int,
            drops: self.drops as int,
            latencies: self.latencies@,
            unflushed: self.since_flush as int,
        }
    }
}

impl Collector {
    /// A collector without rows.
    pub fn new() -> (c: Collector)
        ensures
            c@ == (Tally {
                completed: 0,
                errors: 0,
                drops: 0,
                latencies: Seq::empty(),
                unflushed: 0,
            }),
    {
        let c: Collector = Collector {
            completed: 0,
            errors: 0,
            drops: 0,
            latencies: Vec::new(),
            since_flush: 0,
        };
        assert(c@.latencies =~= Seq::empty());
        c
    }

    /// Whether a row can be counted.
    pub fn has_room(&self, row: &ConnRow) -> (r: bool)
        ensures
            r == room_for(self@, *row),
    {
        if same_text(row.kind, "drop") {
            self.drops < usize::MAX
        } else if same_text(row.kind, "error") {
            self.errors < usize::MAX
        } else {
            self.completed < usize::MAX
        }
    }

    /// Counts a row. Gives its line, and says whether to flush behind it.
    pub fn record(&mut self, row: &ConnRow) -> (r: (String, bool))
        requires
            room_for(old(self)@, *row),
            0 <= old(self)@.unflushed < FLUSH_EVERY,
        ensures
            final(self)@ == tally_after(old(self)@, *row),
            0 <= final(self)@.unflushed < FLUSH_EVERY,
            r.0@ == join(row_cells(*row)),
            r.1 == (old(self)@.unflushed + 1 == FLUSH_EVERY),
            r.1 == (old(self)@.unflushed == 255),
    {
        let line: String = row.to_csv_line();
        if same_text(row.kind, "drop") {
            self.drops = self.drops + 1;
        } else if same_text(row.kind, "error") {
            self.errors = self.errors + 1;
        } else {
            self.completed = self.completed + 1;
            match row.latency_us() {
                Some(l) => self.latencies.push(l),
                None => {},
            }
        }
        self.since_flush = self.since_flush + 1;
        if self.since_flush >= FLUSH_EVERY {
            self.since_flush = 0;
            (line, true)
        } else {
            (line, false)
        }
    }

    /// The figures of the rows.
    pub fn finish(&self) -> (s: Summary)
        ensures
            s.completed == self@.completed,
            s.errors == self@.errors,
            s.drops == self@.drops,
            s.latency == figures_of(self@.latencies),
            s.latency.total_us == sum_of_values(self@.latencies),
    {
        Summary {
            completed: self.completed,
            errors: self.errors,
            drops: self.drops,
            latency: latency_figures(&self.latencies),
        }
    }

    /// How many latencies the mean is taken over.
    pub fn latency_count(&self) -> (n: usize)
        ensures
            n == self@.latencies.len(),
    {
        self.latencies.len()
    }
}

/// Every row counts once: the three counts grow by one together with each row.
pub proof fn law_rows_count_once(t: Tally, row: ConnRow)
    ensures
        tally_after(t, row).completed + tally_after(t, row).errors + tally_after(t, row).drops
            == t.completed + t.errors + t.drops + 1,
{
}

/// No connection outlives the run by more than the grace period, nor its own lifetime.
pub proof fn law_connections_close_in_time(cfg: WorkloadConfig)
    ensures
        close_time(cfg) <= cfg.lifetime,
        close_time(cfg) <= cfg.duration + GRACE,
{
}

/// A run that starts no more connections has started its rate times its duration, rounded up.
pub proof fn law_started_connections_are_complete(a: Arrivals)
    requires
        a.inv(),
        arrival_of(a@).is_none(),
    ensures
        a@.cps * a@.duration <= a@.started * SECOND,
        a@.started > 0 ==> (a@.started - 1) * SECOND < a@.cps * a@.duration,
{
    law_due_within_duration(a@.cps, a@.started, a@.duration);
    if a@.started > 0 {
        law_due_within_duration(a@.cps, a@.started - 1, a@.duration);
    }
}

/// A run that starts no more connections has started its rate times its duration, where that is a
/// whole number.
pub proof fn law_started_connections_keep_the_rate(a: Arrivals, n: int)
    requires
        a.inv(),
        arrival_of(a@).is_none(),
        n * SECOND == a@.cps * a@.duration,
    ensures
        a@.started == n,
{
    law_started_connections_are_complete(a);
    assert(n >= 0) by (nonlinear_arith)
        requires
            n * SECOND == a@.cps * a@.duration,
            a@.cps >= 0,
            a@.duration >= 0,
    ;
}

/// A run of any of the profiles that starts no more connections has started the profile's rate times
/// its duration.
pub proof fn law_started_profile_keeps_the_rate(a: Arrivals, cfg: WorkloadConfig)
    requires
        a.inv(),
        is_profile(cfg),
        a@.cps == cfg.cps,
        a@.duration == cfg.duration,
        arrival_of(a@).is_none(),
    ensures
        a@.started == cfg.cps * cfg.duration / SECOND as int,
{
    lemma_profiles_fill_duration(cfg);
    law_started_connections_keep_the_rate(a, cfg.cps * cfg.duration / SECOND as int);
}

/// The load generator starts the same connections as the simulation: same times, numbers and costs.
pub proof fn law_bench_matches_simulation(s: crate::generator::GenState, now_ns: i64)
    requires
        crate::generator::gen_inv(s),
        s.phase != crate::generator::GenPhase::Finished,
    ensures
        arrival_of(
            ArrivalsView {
                service: s.cfg.service,
                duration: s.cfg.duration,
                cps: s.cfg.cps,
                seed: s.seed,
                started: s.generated,
            },
        ) == Some(
            Arrival {
                at: s.next_arrival as u128,
                conn_id: crate::generator::next_desc(s, now_ns).conn_id,
                service_us: crate::generator::next_desc(s, now_ns).service_us,
            },
        ),
{
}

/// Connections close after their lifetime, or half a second behind the end of the run, whichever
/// comes first.
pub proof fn law_close_comes_first(cfg: WorkloadConfig)
    ensures
        close_time(cfg) == cfg.lifetime || close_time(cfg) == cfg.duration + 500_000_000,
        close_time(cfg) <= cfg.lifetime,
        close_time(cfg) <= cfg.duration + 500_000_000,
{
}

/// Which connections a run starts: connection number `n` exactly where `n` is less than the rate
/// times the duration, `n` shares of a second after the start, with its number and with the cost
/// that belongs to it, in whole microseconds.
pub proof fn law_arrivals_of_a_run(v: ArrivalsView)
    requires
        v.cps > 0,
        0 <= v.started <= u64::MAX,
    ensures
        arrival_of(v).is_some() <==> v.started * 1_000_000_000 < v.cps * v.duration,
        arrival_of(v) matches Some(a) ==> {
            &&& a.conn_id == v.started
            &&& v.cps * a.at <= v.started * 1_000_000_000 < v.cps * (a.at + 1)
            &&& sample_of(v.service, hash_of(v.started as u64, v.seed)) < 0x1_0000_0000 * 1_000
                ==> 1_000 * a.service_us <= sample_of(
                v.service,
                hash_of(v.started as u64, v.seed),
            ) < 1_000 * (a.service_us + 1)
        },
{
    law_due_within_duration(v.cps, v.started, v.duration);
    law_arrivals_are_evenly_spaced(v.cps, v.started);
}

/// The tally of a list of rows, from `t` on.
pub open spec fn tally_of(t: Tally, rows: Seq<ConnRow>) -> Tally
    decreases rows.len(),
{
    if rows.len() == 0 {
        t
    } else {
        tally_after(tally_of(t, rows.drop_last()), rows.last())
    }
}

/// Over any list of rows, drops are the rows of that kind, errors those of that kind, and all others
/// are completed; there is a latency for each of these that has a worker.
pub proof fn law_tally_counts_rows(t: Tally, rows: Seq<ConnRow>)
    ensures
        tally_of(t, rows).drops == t.drops + rows.filter(|r: ConnRow| r.kind@ == "drop"@).len(),
        tally_of(t, rows).errors == t.errors + rows.filter(|r: ConnRow| r.kind@ == "error"@).len(),
        tally_of(t, rows).completed == t.completed + rows.filter(
            |r: ConnRow| r.kind@ != "drop"@ && r.kind@ != "error"@,
        ).len(),
        tally_of(t, rows).latencies.len() == t.latencies.len() + rows.filter(
            |r: ConnRow| r.kind@ != "drop"@ && r.kind@ != "error"@ && r.worker_id.is_some(),
        ).len(),
    decreases rows.len(),
{
    reveal(Seq::filter);
    reveal_strlit("drop");
    reveal_strlit("error");
    assert("drop"@.len() == 4 && "error"@.len() == 5);
    if rows.len() > 0 {
        law_tally_counts_rows(t, rows.drop_last());
    }
}

/// What a row does to the tally. A completed request with a worker adds its latency, in whole
/// microseconds between its two times; the others leave the latencies alone.
pub proof fn law_row_adds_its_latency(t: Tally, row: ConnRow)
    ensures
        row.kind@ == "drop"@ || row.kind@ == "error"@ || row.worker_id.is_none() ==> tally_after(
            t,
            row,
        ).latencies == t.latencies,
        row.kind@ != "drop"@ && row.kind@ != "error"@ && row.worker_id.is_some() && row.send_ns
            <= row.recv_ns ==> {
            &&& tally_after(t, row).latencies.len() == t.latencies.len() + 1
            &&& tally_after(t, row).latencies.drop_last() == t.latencies
            &&& 1_000 * tally_after(t, row).latencies.last() <= row.recv_ns - row.send_ns
            &&& row.recv_ns - row.send_ns < 1_000 * (tally_after(t, row).latencies.last() + 1)
        },
{
    if row.kind@ != "drop"@ && row.kind@ != "error"@ && row.worker_id.is_some() {
        assert(tally_after(t, row).latencies.drop_last() =~= t.latencies);
    }
}

/// Every 256 rows are flushed: of any number of rows, the remainder by 256 waits.
pub proof fn law_rows_are_flushed(t: Tally, rows: Seq<ConnRow>)
    requires
        t.unflushed == 0,
    ensures
        tally_of(t, rows).unflushed == rows.len() % 256,
    decreases rows.len(),
{
    if rows.len() > 0 {
        law_rows_are_flushed(t, rows.drop_last());
    }
}

/// The latency of a completed request is the time between its two readings in whole microseconds,
/// also where the second comes before the first; without a worker there is none.
pub proof fn law_latency_of_a_row(t: Tally, row: ConnRow)
    ensures
        row.worker_id.is_some() ==> latency_of(row) == Some(
            whole_micros(row.recv_ns - row.send_ns),
        ),
        row.worker_id.is_none() ==> latency_of(row).is_none(),
        row.kind@ != "drop"@ && row.kind@ != "error"@ && row.worker_id.is_some() ==> tally_after(
            t,
            row,
        ).latencies == t.latencies.push(whole_micros(row.recv_ns - row.send_ns) as i64),
{
}

} // verus!
