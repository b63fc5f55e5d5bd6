//! What a worker of the load balancer records: one row per loop iteration, streamed to a file of
//! its own.

use crate::csv::join;
use crate::metrics::{console_line_with, console_text, tick_cells, tick_header_cells};
use crate::metrics::{tick_header_line, tick_line};
use crate::policy::Policy;
use crate::scheduler::{conn_loads, event_loads, ScheduleResult};
use crate::wst::{WorkerSnapshot, NUM_WORKERS};
use vstd::prelude::*;

verus! {

/// How many rows are written between two flushes.
pub const FLUSH_EVERY: u32 = 64;

/// One row per loop iteration.
#[derive(Debug, Clone, Copy)]
pub struct TickRow {
    pub timestamp_ns: i64,
    pub worker_id: usize,
    pub iter: u32,
    pub snapshots: [WorkerSnapshot; NUM_WORKERS],
    /// Connections that the worker holds open.
    pub open_conns: usize,
    /// The scheduling pass of this iteration; none under the baselines.
    pub result: Option<ScheduleResult>,
    pub policy: Policy,
}

/// The cells of a row.
pub open spec fn row_cells(
    row: TickRow,
    conn_sd: Seq<char>,
    events_sd: Seq<char>,
) -> Seq<Seq<char>> {
    tick_cells(
        row.timestamp_ns,
        row.worker_id,
        row.iter,
        row.snapshots@,
        row.open_conns,
        row.result,
        row.policy,
        conn_sd,
        events_sd,
    )
}

impl TickRow {
    /// The console line of the iteration.
    pub fn console_line(&self) -> (line: String)
        ensures
            line@ == console_text(
                self.worker_id,
                self.policy,
                self.iter,
                conn_loads(self.snapshots@),
                event_loads(self.snapshots@),
                "open="@,
                self.open_conns,
                self.result,
            ),
    {
        console_line_with(
            self.worker_id,
            self.policy,
            self.iter,
            &self.snapshots,
            "open=",
            self.open_conns,
            &self.result,
        )
    }
}

/// The header line.
pub fn tick_header() -> (line: String)
    ensures
        line@ == join(tick_header_cells("open_conns"@)),
{
    tick_header_line("open_conns")
}

/// Writes a row, with the texts of the two standard deviations.
pub fn format_tick_row(row: &TickRow, conn_sd: &str, events_sd: &str) -> (line: String)
    ensures
        line@ == join(row_cells(*row, conn_sd@, events_sd@)),
{
    tick_line(
        row.timestamp_ns,
        row.worker_id,
        row.iter,
        &row.snapshots,
        row.open_conns,
        &row.result,
        row.policy,
        conn_sd,
        events_sd,
    )
}

/// The writer of a worker's rows: what goes to the file, and when it is flushed.
#[derive(Debug)]
pub struct TickWriter {
    /// Rows written since the last flush.
    pending: u32,
}

impl TickWriter {
    /// Rows written since the last flush.
    pub closed spec fn unflushed(&self) -> int {
        self.pending as int
    }

    /// Whether fewer rows wait than make a flush due.
    pub open spec fn inv(&self) -> bool {
        0 <= self.unflushed() < FLUSH_EVERY
    }

    /// A writer, with the header line that starts its file.
    pub fn create() -> (r: (TickWriter, String))
        ensures
            r.0.inv(),
            r.0.unflushed() == 0,
            r.1@ == join(tick_header_cells("open_conns"@)),
    {
        (TickWriter { pending: 0 }, tick_header())
    }

    /// The line of a row, and whether to flush behind it.
    pub fn write(&mut self, row: &TickRow, conn_sd: &str, events_sd: &str) -> (r: (String, bool))
        requires
            old(self).inv(),
        ensures
            final(self).inv(),
            r.0@ == join(row_cells(*row, conn_sd@, events_sd@)),
            r.1 == (old(self).unflushed() + 1 == FLUSH_EVERY),
            r.1 == (old(self).unflushed() == 63),
            final(self).unflushed() == (if r.1 {
                0
            } else {
                old(self).unflushed() + 1
            }),
    {
        let line: String = format_tick_row(row, conn_sd, events_sd);
        self.pending = self.pending + 1;
        if self.pending >= FLUSH_EVERY {
            self.pending = 0;
            (line, true)
        } else {
            (line, false)
        }
    }
}

/// Header and rows have the same number of columns.
pub proof fn law_columns_agree(row: TickRow, conn_sd: Seq<char>, events_sd: Seq<char>)
    ensures
        row_cells(row, conn_sd, events_sd).len() == tick_header_cells("open_conns"@).len(),
{
    crate::metrics::lemma_worker_columns(row.snapshots@, NUM_WORKERS as nat);
}

/// A load balancer's row shows the connections that the worker holds open as its depth, between the
/// columns that it has in common with the simulation's.
pub proof fn law_row_shows_open_connections(
    row: TickRow,
    conn_sd: Seq<char>,
    events_sd: Seq<char>,
)
    ensures
        row_cells(row, conn_sd, events_sd) == tick_cells(
            row.timestamp_ns,
            row.worker_id,
            row.iter,
            row.snapshots@,
            row.open_conns,
            row.result,
            row.policy,
            conn_sd,
            events_sd,
        ),
{
}

} // verus!
