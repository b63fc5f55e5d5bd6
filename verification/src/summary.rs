//! Merging the workers' shard files, and the figures of a run.

use crate::csv::{are_cells, is_cell, join, law_first_cell_is_kept, law_split_undoes_join};
use crate::csv::{split, split_line, texts};
use crate::metrics::{conn_row_cells, lines_of, tick_row_cells, whole_micros, ConnRow, TickRow};
use crate::order::{ascending, is_stable_order, lemma_picked_multiset, picked};
use crate::order::{sorted_values, stable_order};
use crate::policy::policy_name;
use crate::text::{chars_of, decimal, digits, is_digit, law_digits_round_trip};
use crate::text::{law_signed_round_trip, law_unsigned_round_trip, parse_signed, parse_unsigned};
use crate::text::{lemma_signed_fits, signed_of, unsigned_of};
use crate::wst::NUM_WORKERS;
use vstd::prelude::*;
use vstd::relations::total_ordering;
use vstd::seq_lib::{lemma_multiset_commutative, to_multiset_build, to_multiset_contains};
use vstd::seq_lib::{to_multiset_len, to_multiset_remove};

verus! {

/// The number that a line is sorted by: its first cell, or zero where that is no number.
pub open spec fn key_of(line: Seq<char>) -> i64 {
    match signed_of(split(line)[0]) {
        Some(n) => n as i64,
        None => 0,
    }
}

/// The number that a line is sorted by.
pub fn line_key(line: &str) -> (key: i64)
    ensures
        key == key_of(line@),
{
    let cells: Vec<Vec<char>> = split_line(&chars_of(line));
    assert(texts(cells@)[0] == cells@[0]@);
    match parse_signed(&cells[0]) {
        Some(n) => n,
        None => 0,
    }
}

/// The lines of one shard that are not empty, in order.
pub open spec fn filled_lines(shard: Seq<Seq<char>>) -> Seq<Seq<char>> {
    shard.filter(|line: Seq<char>| line.len() > 0)
}

/// The texts of the shards' lines.
pub open spec fn shards_of(shards: Seq<Vec<String>>) -> Seq<Seq<Seq<char>>> {
    shards.map_values(|v: Vec<String>| lines_of(v@))
}

/// The lines of all shards that are not empty, shard by shard.
pub open spec fn all_lines(shards: Seq<Seq<Seq<char>>>) -> Seq<Seq<char>>
    decreases shards.len(),
{
    if shards.len() == 0 {
        Seq::empty()
    } else {
        all_lines(shards.drop_last()) + filled_lines(shards.last())
    }
}

/// The keys of a list of lines.
pub open spec fn keys_of(lines: Seq<Seq<char>>) -> Seq<i64> {
    lines.map_values(|line: Seq<char>| key_of(line))
}

/// The lines that a list of positions names.
pub open spec fn arranged(lines: Seq<Seq<char>>, p: Seq<usize>) -> Seq<Seq<char>> {
    Seq::new(p.len(), |i: int| lines[p[i] as int])
}

/// Whether `merged` is the lines in the stable order of their keys.
pub open spec fn is_merge_of(merged: Seq<Seq<char>>, lines: Seq<Seq<char>>) -> bool {
    exists|p: Seq<usize>| #[trigger]
        is_stable_order(p, keys_of(lines)) && merged == arranged(lines, p)
}

/// Merges the lines of all shards, sorted by the number in their first cell. Lines with equal
/// numbers keep their order; empty lines are left out.
pub fn merge_shards(shards: &Vec<Vec<String>>) -> (merged: Vec<String>)
    ensures
        is_merge_of(lines_of(merged@), all_lines(shards_of(shards@))),
        merged@.len() == filled_in_all(shards@),
        forall|s: int, j: int|
            0 <= s < shards@.len() && 0 <= j < shards@[s]@.len() && (
            #[trigger] shards@[s]@[j])@.len() > 0 ==> exists|m: int|
                0 <= m < merged@.len() && (#[trigger] merged@[m])@ == shards@[s]@[j]@,
{
    let lines: Vec<String> = collect_lines(shards);
    let mut keys: Vec<i64> = Vec::new();
    let mut i: usize = 0;
    while i < lines.len()
        invariant
            i <= lines@.len(),
            keys@ == keys_of(lines_of(lines@)).take(i as int),
        decreases lines@.len() - i,
    {
        keys.push(line_key(lines[i].as_str()));
        i = i + 1;
        assert(keys@ =~= keys_of(lines_of(lines@)).take(i as int));
    }
    assert(keys@ =~= keys_of(lines_of(lines@)));
    let p: Vec<usize> = stable_order(&keys);
    let mut merged: Vec<String> = Vec::new();
    let mut j: usize = 0;
    while j < p.len()
        invariant
            j <= p@.len(),
            is_stable_order(p@, keys_of(lines_of(lines@))),
            lines_of(merged@) == arranged(lines_of(lines@), p@).take(j as int),
        decreases p@.len() - j,
    {
        let ghost before = merged@;
        let line: String = lines[p[j]].clone();
        merged.push(line);
        j = j + 1;
        assert(lines_of(merged@) =~= lines_of(before).push(line@));
        assert(lines_of(merged@) =~= arranged(lines_of(lines@), p@).take(j as int));
    }
    assert(lines_of(merged@) =~= arranged(lines_of(lines@), p@));
    proof {
        law_merge_keeps_every_shard(merged, shards@, Seq::empty());
    }
    merged
}

/// The lines of all shards that are not empty, shard by shard.
fn collect_lines(shards: &Vec<Vec<String>>) -> (lines: Vec<String>)
    ensures
        lines_of(lines@) == all_lines(shards_of(shards@)),
{
    let mut lines: Vec<String> = Vec::new();
    let mut i: usize = 0;
    let ghost views = shards_of(shards@);
    assert(views.take(0) =~= Seq::empty());
    assert(lines_of(lines@) =~= Seq::empty());
    while i < shards.len()
        invariant
            i <= shards@.len(),
            views == shards_of(shards@),
            lines_of(lines@) == all_lines(views.take(i as int)),
        decreases shards@.len() - i,
    {
        let ghost head = all_lines(views.take(i as int));
        let ghost shard = lines_of(shards@[i as int]@);
        let ghost keep = |line: Seq<char>| line.len() > 0;
        let mut j: usize = 0;
        proof {
            reveal(Seq::filter);
            assert(shard.take(0) =~= Seq::empty());
            assert(head + shard.take(0).filter(keep) =~= head);
        }
        while j < shards[i].len()
            invariant
                i < shards@.len(),
                j <= shards@[i as int]@.len(),
                shard == lines_of(shards@[i as int]@),
                keep == (|line: Seq<char>| line.len() > 0),
                lines_of(lines@) == head + shard.take(j as int).filter(keep),
            decreases shards@[i as int]@.len() - j,
        {
            let ghost before = lines@;
            proof {
                reveal(Seq::filter);
                assert(shard.take(j + 1).drop_last() =~= shard.take(j as int));
                assert(shard.take(j + 1).last() == shards@[i as int]@[j as int]@);
            }
            let line: &String = &shards[i][j];
            if !is_blank(line.as_str()) {
                let copy: String = line.clone();
                lines.push(copy);
                assert(lines_of(lines@) =~= lines_of(before).push(copy@));
                assert(lines_of(lines@) =~= head + shard.take(j + 1).filter(keep));
            }
            j = j + 1;
        }
        assert(shard.take(j as int) =~= shard);
        assert(views.take(i + 1).drop_last() =~= views.take(i as int));
        assert(views.take(i + 1).last() == shard);
        i = i + 1;
    }
    assert(views.take(i as int) =~= views);
    lines
}

/// Whether a line is empty.
fn is_blank(line: &str) -> (r: bool)
    ensures
        r == (line@.len() == 0),
{
    chars_of(line).len() == 0
}

/// Merged lines are sorted by key.
pub proof fn law_merged_lines_ascend(merged: Seq<Seq<char>>, lines: Seq<Seq<char>>)
    requires
        is_merge_of(merged, lines),
    ensures
        forall|i: int, j: int|
            0 <= i < j < merged.len() ==> key_of(#[trigger] merged[i]) <= key_of(
                #[trigger] merged[j],
            ),
{
    let p = choose|p: Seq<usize>| #[trigger]
        is_stable_order(p, keys_of(lines)) && merged == arranged(lines, p);
    assert forall|i: int, j: int| 0 <= i < j < merged.len() implies key_of(#[trigger] merged[i])
        <= key_of(#[trigger] merged[j]) by {
        assert(crate::order::comes_before(keys_of(lines), p[i] as int, p[j] as int));
        assert(keys_of(lines)[p[i] as int] == key_of(lines[p[i] as int]));
        assert(keys_of(lines)[p[j] as int] == key_of(lines[p[j] as int]));
    }
}

/// Merging loses no line and adds none.
pub proof fn law_merge_keeps_lines(merged: Seq<Seq<char>>, lines: Seq<Seq<char>>)
    requires
        lines.len() <= usize::MAX,
        is_merge_of(merged, lines),
    ensures
        merged.len() == lines.len(),
        forall|line: Seq<char>| #[trigger] merged.contains(line) <==> lines.contains(line),
{
    let p = choose|p: Seq<usize>| #[trigger]
        is_stable_order(p, keys_of(lines)) && merged == arranged(lines, p);
    assert forall|line: Seq<char>| #[trigger] merged.contains(line) <==> lines.contains(line) by {
        if merged.contains(line) {
            let i = choose|i: int| 0 <= i < merged.len() && merged[i] == line;
            assert(lines[p[i] as int] == line);
        }
        if lines.contains(line) {
            let k = choose|k: int| 0 <= k < lines.len() && lines[k] == line;
            assert(p.contains(k as usize));
            let i = choose|i: int| 0 <= i < p.len() && p[i] == k as usize;
            assert(merged[i] == line);
        }
    }
}

/// There is only one merge of a list of lines.
pub proof fn law_merge_is_unique(a: Seq<Seq<char>>, b: Seq<Seq<char>>, lines: Seq<Seq<char>>)
    requires
        is_merge_of(a, lines),
        is_merge_of(b, lines),
    ensures
        a == b,
{
    let p = choose|p: Seq<usize>| #[trigger]
        is_stable_order(p, keys_of(lines)) && a == arranged(lines, p);
    let q = choose|q: Seq<usize>| #[trigger]
        is_stable_order(q, keys_of(lines)) && b == arranged(lines, q);
    crate::order::law_stable_order_is_unique(p, q, keys_of(lines));
}

/// What a connection line says: the worker and the latency; nothing where one of the two columns
/// is missing or no number.
pub open spec fn outcome_of(line: Seq<char>) -> Option<(int, i64)> {
    let cells = split(line);
    if cells.len() > 7 && unsigned_of(cells[1], usize::MAX as int).is_some() && signed_of(
        cells[7],
    ).is_some() {
        Some((unsigned_of(cells[1], usize::MAX as int).unwrap(), signed_of(cells[7]).unwrap() as i64))
    } else {
        None
    }
}

/// The outcomes of all lines that have one, in order.
pub open spec fn outcomes_of(lines: Seq<Seq<char>>) -> Seq<(int, i64)>
    decreases lines.len(),
{
    if lines.len() == 0 {
        Seq::empty()
    } else {
        match outcome_of(lines.last()) {
            Some(o) => outcomes_of(lines.drop_last()).push(o),
            None => outcomes_of(lines.drop_last()),
        }
    }
}

/// The latencies of a list of outcomes.
pub open spec fn latencies_of(outcomes: Seq<(int, i64)>) -> Seq<i64> {
    outcomes.map_values(|o: (int, i64)| o.1)
}

/// How many outcomes are of the given worker.
pub open spec fn count_of(outcomes: Seq<(int, i64)>, worker: int) -> nat
    decreases outcomes.len(),
{
    if outcomes.len() == 0 {
        0
    } else {
        count_of(outcomes.drop_last(), worker) + if outcomes.last().0 == worker {
            1nat
        } else {
            0nat
        }
    }
}

/// The sum of a list of numbers.
pub open spec fn sum_of_values(values: Seq<i64>) -> int
    decreases values.len(),
{
    if values.len() == 0 {
        0
    } else {
        sum_of_values(values.drop_last()) + values.last()
    }
}

/// The rank of a percentile among `len` values, counted from one: the least that is not below the
/// given percentage of `len`, and at least one.
pub open spec fn rank_of(len: int, percent: int) -> int {
    let rank = (len * percent + 99) / 100;
    if rank < 1 {
        1
    } else if rank > len {
        len
    } else {
        rank
    }
}

/// The nearest-rank percentile of a list of values.
pub open spec fn percentile_of(values: Seq<i64>, percent: int) -> i64 {
    ascending(values)[rank_of(values.len() as int, percent) - 1]
}

/// The nearest-rank percentile of a sorted list.
pub fn percentile(sorted: &Vec<i64>, percent: u8) -> (v: i64)
    requires
        sorted@.len() > 0,
    ensures
        v == sorted@[rank_of(sorted@.len() as int, percent as int) - 1],
        sorted@.contains(v),
        1 <= percent <= 100 && (forall|i: int, j: int|
            0 <= i <= j < sorted@.len() ==> #[trigger] sorted@[i] <= #[trigger] sorted@[j])
            ==> 100 * sorted@.filter(|x: i64| x <= v).len() >= percent * sorted@.len() && 100
            * sorted@.filter(|x: i64| x < v).len() < percent * sorted@.len(),
{
    proof {
        if 1 <= percent <= 100 && (forall|i: int, j: int|
            0 <= i <= j < sorted@.len() ==> #[trigger] sorted@[i] <= #[trigger] sorted@[j]) {
            lemma_rank_by_counting(sorted@, percent as int);
        }
    }
    let len: u128 = sorted.len() as u128;
    assert(len * percent <= 0xffff_ffff_ffff_ffff * 0xff) by (nonlinear_arith)
        requires
            len <= 0xffff_ffff_ffff_ffff,
            percent <= 0xff,
    ;
    assert(0 <= len * percent) by (nonlinear_arith);
    let rank: u128 = (len * percent as u128 + 99) / 100;
    let rank: u128 = if rank < 1 {
        1
    } else if rank > len {
        len
    } else {
        rank
    };
    sorted[(rank - 1) as usize]
}

/// Latency figures of a run. The mean is the total divided by the number of values.
#[derive(Debug, Clone, Copy, PartialEq, Eq, Structural)]
pub struct LatencyFigures {
    pub total_us: i128,
    pub p50_us: i64,
    pub p99_us: i64,
    pub max_us: i64,
}

/// The figures of a list of latencies; zeros where it is empty.
pub open spec fn figures_of(values: Seq<i64>) -> LatencyFigures {
    if values.len() == 0 {
        LatencyFigures { total_us: 0, p50_us: 0, p99_us: 0, max_us: 0 }
    } else {
        LatencyFigures {
            total_us: sum_of_values(values) as i128,
            p50_us: percentile_of(values, 50),
            p99_us: percentile_of(values, 99),
            max_us: ascending(values).last(),
        }
    }
}

/// Computes the figures of a list of latencies.
pub fn latency_figures(values: &Vec<i64>) -> (f: LatencyFigures)
    ensures
        f == figures_of(values@),
        f.total_us == sum_of_values(values@),
{
    if values.len() == 0 {
        return LatencyFigures { total_us: 0, p50_us: 0, p99_us: 0, max_us: 0 };
    }
    let total_us: i128 = total_of(values);
    let sorted: Vec<i64> = sorted_values(values);
    LatencyFigures {
        total_us,
        p50_us: percentile(&sorted, 50),
        p99_us: percentile(&sorted, 99),
        max_us: sorted[sorted.len() - 1],
    }
}

fn total_of(values: &Vec<i64>) -> (sum: i128)
    ensures
        sum == sum_of_values(values@),
{
    let n: usize = values.len();
    let mut sum: i128 = 0;
    let mut i: usize = 0;
    assert(values@.take(0) =~= Seq::empty());
    while i < n
        invariant
            i <= n == values@.len(),
            sum == sum_of_values(values@.take(i as int)),
            -0x8000_0000_0000_0000 * i <= sum <= 0x7fff_ffff_ffff_ffff * i,
        decreases values@.len() - i,
    {
        assert(values@.take(i + 1).drop_last() =~= values@.take(i as int));
        assert(0x7fff_ffff_ffff_ffff * i <= 0x7fff_ffff_ffff_ffff * 0xffff_ffff_ffff_fffe);
        assert(-0x8000_0000_0000_0000 * i >= -0x8000_0000_0000_0000 * 0xffff_ffff_ffff_fffe);
        sum = sum + values[i] as i128;
        i = i + 1;
    }
    assert(values@.take(i as int) =~= values@);
    sum
}

/// The figures of a run ascend: median, ninety-ninth percentile, maximum; and each of them is one
/// of the latencies.
pub proof fn law_figures_ascend(values: Seq<i64>)
    requires
        values.len() > 0,
    ensures
        figures_of(values).p50_us <= figures_of(values).p99_us,
        figures_of(values).p99_us <= figures_of(values).max_us,
        values.contains(figures_of(values).p50_us),
        values.contains(figures_of(values).p99_us),
        values.contains(figures_of(values).max_us),
        forall|i: int| 0 <= i < values.len() ==> #[trigger] values[i] <= figures_of(values).max_us,
{
    let leq = |a: i64, b: i64| a <= b;
    let s = ascending(values);
    assert(total_ordering(leq));
    values.lemma_sort_by_ensures(leq);
    to_multiset_len(values);
    to_multiset_len(s);
    let n = values.len() as int;
    let a = rank_of(n, 50) - 1;
    let b = rank_of(n, 99) - 1;
    assert(0 <= a <= b < n);
    if a < b {
        assert(leq(s[a], s[b]));
    }
    if b < n - 1 {
        assert(leq(s[b], s[n - 1]));
    }
    assert(s.contains(s[a]) && s.contains(s[b]) && s.contains(s[n - 1]));
    assert forall|i: int| 0 <= i < values.len() implies #[trigger] values[i]
        <= figures_of(values).max_us by {
        to_multiset_contains(values, values[i]);
        to_multiset_contains(s, values[i]);
        assert(values.contains(values[i]));
        let k = choose|k: int| 0 <= k < s.len() && s[k] == values[i];
        if k < n - 1 {
            assert(leq(s[k], s[n - 1]));
        }
    }
}

/// The figures of the connections of a run.
#[derive(Debug, Clone, Copy, PartialEq, Eq)]
pub struct ConnSummary {
    pub completed: usize,
    pub completed_per_worker: [usize; NUM_WORKERS],
    pub latency: LatencyFigures,
}

/// Reads worker and latency out of a connection line.
pub fn read_outcome(line: &str) -> (r: Option<(usize, i64)>)
    ensures
        r.is_some() == outcome_of(line@).is_some(),
        r.is_some() ==> r.unwrap().0 == outcome_of(line@).unwrap().0 && r.unwrap().1 == outcome_of(
            line@,
        ).unwrap().1,
{
    let cells: Vec<Vec<char>> = split_line(&chars_of(line));
    assert(texts(cells@).len() == cells@.len());
    if cells.len() <= 7 {
        return None;
    }
    assert(texts(cells@)[1] == cells@[1]@ && texts(cells@)[7] == cells@[7]@);
    match (parse_unsigned(&cells[1], usize::MAX as u64), parse_signed(&cells[7])) {
        (Some(worker), Some(latency)) => Some((worker as usize, latency)),
        _ => None,
    }
}

/// Sums up merged connection lines. Lines without worker or latency are passed over.
pub fn summarize_conns(lines: &Vec<String>) -> (s: ConnSummary)
    ensures
        s.completed == outcomes_of(lines_of(lines@)).len(),
        forall|w: int|
            0 <= w < NUM_WORKERS ==> #[trigger] s.completed_per_worker@[w] == count_of(
                outcomes_of(lines_of(lines@)),
                w,
            ),
        s.latency == figures_of(latencies_of(outcomes_of(lines_of(lines@)))),
        s.latency.total_us == sum_of_values(latencies_of(outcomes_of(lines_of(lines@)))),
{
    let mut per_worker: [usize; NUM_WORKERS] = [0, 0, 0, 0];
    let mut latencies: Vec<i64> = Vec::new();
    let ghost views = lines_of(lines@);
    let mut i: usize = 0;
    assert(views.take(0) =~= Seq::empty());
    assert(latencies@ =~= latencies_of(outcomes_of(views.take(0))));
    while i < lines.len()
        invariant
            i <= lines@.len(),
            views == lines_of(lines@),
            latencies@ == latencies_of(outcomes_of(views.take(i as int))),
            latencies@.len() <= i,
            forall|w: int|
                0 <= w < NUM_WORKERS ==> #[trigger] per_worker@[w] == count_of(
                    outcomes_of(views.take(i as int)),
                    w,
                ) && per_worker@[w] <= i,
        decreases lines@.len() - i,
    {
        let ghost before = outcomes_of(views.take(i as int));
        proof {
            assert(views.take(i + 1).drop_last() =~= views.take(i as int));
            assert(views.take(i + 1).last() == lines@[i as int]@);
        }
        match read_outcome(lines[i].as_str()) {
            Some((worker, latency)) => {
                let ghost o = (worker as int, latency);
                proof {
                    assert(outcomes_of(views.take(i + 1)) == before.push(o));
                    assert(before.push(o).drop_last() =~= before);
                    assert(latencies_of(before.push(o)) =~= latencies_of(before).push(latency));
                }
                if worker < NUM_WORKERS {
                    per_worker[worker] = per_worker[worker] + 1;
                }
                latencies.push(latency);
            },
            None => {},
        }
        i = i + 1;
    }
    assert(views.take(i as int) =~= views);
    ConnSummary {
        completed: latencies.len(),
        completed_per_worker: per_worker,
        latency: latency_figures(&latencies),
    }
}

/// A decimal number has no comma in it.
pub proof fn lemma_decimal_is_cell(n: int)
    ensures
        is_cell(decimal(n)),
{
    let m = (if n < 0 {
        -n
    } else {
        n
    }) as nat;
    law_digits_round_trip(m);
    assert forall|i: int| 0 <= i < decimal(n).len() implies #[trigger] decimal(n)[i] != ',' by {
        if n < 0 {
            if i > 0 {
                assert(decimal(n)[i] == digits(m, 10)[i - 1]);
                assert(is_digit(digits(m, 10)[i - 1]));
            }
        } else {
            assert(is_digit(digits(m, 10)[i]));
        }
    }
}

/// The cells of a connection row have no comma in them where the row's kind has none.
proof fn lemma_conn_cells(row: ConnRow)
    requires
        is_cell(row.kind@),
    ensures
        are_cells(conn_row_cells(row)),
{
    lemma_decimal_is_cell(row.conn_id as int);
    lemma_decimal_is_cell(row.worker_id as int);
    lemma_decimal_is_cell(row.arrival_ns as int);
    lemma_decimal_is_cell(row.dequeue_ns as int);
    lemma_decimal_is_cell(row.done_ns as int);
    lemma_decimal_is_cell(whole_micros(row.dequeue_ns - row.arrival_ns));
    lemma_decimal_is_cell(row.service_us as int);
    lemma_decimal_is_cell(whole_micros(row.done_ns - row.arrival_ns));
    reveal_strlit("hermes");
    reveal_strlit("lifo");
    reveal_strlit("reuseport");
    assert(is_cell(policy_name(row.policy)));
}

/// What the summary reads out of a written connection row is the row's worker and latency.
pub proof fn law_summary_reads_rows(row: ConnRow)
    requires
        is_cell(row.kind@),
    ensures
        outcome_of(join(conn_row_cells(row))) == Some(
            (row.worker_id as int, whole_micros(row.done_ns - row.arrival_ns) as i64),
        ),
{
    lemma_conn_cells(row);
    law_split_undoes_join(conn_row_cells(row));
    law_unsigned_round_trip(row.worker_id as nat, usize::MAX as int);
    law_signed_round_trip(whole_micros(row.done_ns - row.arrival_ns) as i64);
}

/// Merging sorts connection rows by connection: the key of a written row is its connection number,
/// where that fits the key's type.
pub proof fn law_rows_sort_by_conn_id(row: ConnRow)
    requires
        row.conn_id <= i64::MAX,
    ensures
        key_of(join(conn_row_cells(row))) == row.conn_id,
{
    lemma_decimal_is_cell(row.conn_id as int);
    law_first_cell_is_kept(conn_row_cells(row));
    law_signed_round_trip(row.conn_id as i64);
}

/// Merging sorts tick rows by time: the key of a written row is its timestamp.
pub proof fn law_ticks_sort_by_time(row: TickRow, conn_sd: Seq<char>, events_sd: Seq<char>)
    ensures
        key_of(join(tick_row_cells(row, conn_sd, events_sd))) == row.timestamp_ns,
{
    lemma_decimal_is_cell(row.timestamp_ns as int);
    law_first_cell_is_kept(tick_row_cells(row, conn_sd, events_sd));
    law_signed_round_trip(row.timestamp_ns);
}

/// As many values satisfy a condition in one list as in any other with the same values.
proof fn lemma_same_values_same_count(a: Seq<i64>, b: Seq<i64>, keep: spec_fn(i64) -> bool)
    requires
        a.to_multiset() == b.to_multiset(),
    ensures
        a.filter(keep).len() == b.filter(keep).len(),
    decreases a.len(),
{
    to_multiset_len(a);
    to_multiset_len(b);
    reveal(Seq::filter);
    if a.len() > 0 {
        let n = a.len() - 1;
        let x = a[n];
        to_multiset_contains(a, x);
        to_multiset_contains(b, x);
        assert(a.contains(x));
        let i = choose|i: int| 0 <= i < b.len() && b[i] == x;
        to_multiset_remove(a, n);
        to_multiset_remove(b, i);
        assert(a.remove(n) =~= a.drop_last());
        lemma_same_values_same_count(a.drop_last(), b.remove(i), keep);
        let head = b.take(i);
        let tail = b.skip(i + 1);
        assert(b =~= (head + seq![x]) + tail);
        assert(b.remove(i) =~= head + tail);
        Seq::filter_distributes_over_add(head + seq![x], tail, keep);
        Seq::filter_distributes_over_add(head, seq![x], keep);
        Seq::filter_distributes_over_add(head, tail, keep);
        assert(seq![x].drop_last() =~= Seq::<i64>::empty());
        assert(Seq::<i64>::empty().filter(keep) =~= Seq::<i64>::empty());
        assert(seq![x].filter(keep).len() == (if keep(x) {
            1nat
        } else {
            0nat
        }));
    }
}

/// A condition that holds of the first `r` values and of none from `q` on counts at least `r` and
/// at most `q`.
proof fn lemma_count_between(s: Seq<i64>, keep: spec_fn(i64) -> bool, r: int, q: int)
    requires
        0 <= r <= s.len(),
        0 <= q <= s.len(),
        forall|i: int| 0 <= i < r ==> keep(#[trigger] s[i]),
        forall|i: int| q <= i < s.len() ==> !keep(#[trigger] s[i]),
    ensures
        r <= s.filter(keep).len() <= q,
    decreases s.len(),
{
    reveal(Seq::filter);
    if s.len() > 0 {
        let rest = s.drop_last();
        let n = rest.len() as int;
        let r1 = if r <= n {
            r
        } else {
            n
        };
        let q1 = if q <= n {
            q
        } else {
            n
        };
        assert forall|i: int| 0 <= i < r1 implies keep(#[trigger] rest[i]) by {
            assert(rest[i] == s[i]);
        }
        assert forall|i: int| q1 <= i < rest.len() implies !keep(#[trigger] rest[i]) by {
            assert(rest[i] == s[i]);
        }
        lemma_count_between(rest, keep, r1, q1);
        assert(s[n] == s.last());
    }
}

/// In an ascending list the value at the rank of a percentage has that percentage of the values at
/// most it, and less than that below it.
proof fn lemma_rank_by_counting(s: Seq<i64>, percent: int)
    requires
        s.len() > 0,
        1 <= percent <= 100,
        forall|i: int, j: int| 0 <= i <= j < s.len() ==> #[trigger] s[i] <= #[trigger] s[j],
    ensures
        1 <= rank_of(s.len() as int, percent) <= s.len(),
        100 * s.filter(|x: i64| x <= s[rank_of(s.len() as int, percent) - 1]).len() >= percent
            * s.len(),
        100 * s.filter(|x: i64| x < s[rank_of(s.len() as int, percent) - 1]).len() < percent
            * s.len(),
{
    let n = s.len() as int;
    let r = rank_of(n, percent);
    let m = n * percent;
    assert(1 <= m <= 100 * n) by (nonlinear_arith)
        requires
            n >= 1,
            1 <= percent <= 100,
            m == n * percent,
    ;
    assert(percent * s.len() == m) by (nonlinear_arith)
        requires
            m == n * percent,
            n == s.len(),
    ;
    assert(r == (m + 99) / 100);
    let v = s[r - 1];
    assert forall|i: int| 0 <= i < r implies (#[trigger] s[i]) <= v by {
        assert(s[i] <= s[r - 1]);
    }
    assert forall|i: int| r - 1 <= i < s.len() implies !((#[trigger] s[i]) < v) by {
        assert(s[r - 1] <= s[i]);
    }
    lemma_count_between(s, |x: i64| x <= v, r, n);
    lemma_count_between(s, |x: i64| x < v, 0, r - 1);
}

/// What a percentile is, by counting. It is one of the values; at least the given percentage of the
/// values are at most it, and less than that percentage are below it.
pub proof fn law_percentile_by_counting(values: Seq<i64>, percent: int)
    requires
        values.len() > 0,
        1 <= percent <= 100,
    ensures
        values.contains(percentile_of(values, percent)),
        100 * values.filter(|x: i64| x <= percentile_of(values, percent)).len() >= percent
            * values.len(),
        100 * values.filter(|x: i64| x < percentile_of(values, percent)).len() < percent
            * values.len(),
{
    let leq = |a: i64, b: i64| a <= b;
    let s = ascending(values);
    assert(total_ordering(leq));
    values.lemma_sort_by_ensures(leq);
    to_multiset_len(values);
    to_multiset_len(s);
    assert forall|i: int, j: int| 0 <= i <= j < s.len() implies #[trigger] s[i] <= #[trigger] s[j] by {
        if i < j {
            assert(leq(s[i], s[j]));
        }
    }
    lemma_rank_by_counting(s, percent);
    let v = percentile_of(values, percent);
    assert(v == s[rank_of(s.len() as int, percent) - 1]);
    lemma_same_values_same_count(values, s, |x: i64| x <= v);
    lemma_same_values_same_count(values, s, |x: i64| x < v);
    assert(s.contains(v));
    to_multiset_contains(values, v);
    to_multiset_contains(s, v);
}

/// The same of an ascending list: the value that the percentile picks is one of the list, at least
/// the given percentage of the list is at most it, and less than that percentage is below it.
pub proof fn law_rank_by_counting(sorted: Seq<i64>, percent: int)
    requires
        sorted.len() > 0,
        1 <= percent <= 100,
        forall|i: int, j: int|
            0 <= i <= j < sorted.len() ==> #[trigger] sorted[i] <= #[trigger] sorted[j],
    ensures
        1 <= rank_of(sorted.len() as int, percent) <= sorted.len(),
        100 * sorted.filter(
            |x: i64| x <= sorted[rank_of(sorted.len() as int, percent) - 1],
        ).len() >= percent * sorted.len(),
        100 * sorted.filter(
            |x: i64| x < sorted[rank_of(sorted.len() as int, percent) - 1],
        ).len() < percent * sorted.len(),
{
    lemma_rank_by_counting(sorted, percent);
}

/// The figures of a run by counting. At least half of the latencies are at most the median and less
/// than half are below it; ninety-nine in a hundred are at most the ninety-ninth percentile and
/// fewer are below it; none is above the maximum.
pub proof fn law_figures_by_counting(values: Seq<i64>)
    requires
        values.len() > 0,
    ensures
        2 * values.filter(|x: i64| x <= figures_of(values).p50_us).len() >= values.len(),
        2 * values.filter(|x: i64| x < figures_of(values).p50_us).len() < values.len(),
        100 * values.filter(|x: i64| x <= figures_of(values).p99_us).len() >= 99 * values.len(),
        100 * values.filter(|x: i64| x < figures_of(values).p99_us).len() < 99 * values.len(),
        values.filter(|x: i64| x <= figures_of(values).max_us).len() == values.len(),
        values.contains(figures_of(values).max_us),
        figures_of(Seq::<i64>::empty()) == (LatencyFigures {
            total_us: 0,
            p50_us: 0,
            p99_us: 0,
            max_us: 0,
        }),
{
    law_percentile_by_counting(values, 50);
    law_percentile_by_counting(values, 99);
    law_figures_ascend(values);
    let n = values.len() as int;
    lemma_count_between(values, |x: i64| x <= figures_of(values).max_us, n, n);
}

/// The total is a sum: that of one latency is the latency, and that of two lists put together is
/// the sum of their totals.
pub proof fn law_totals_add_up(a: Seq<i64>, b: Seq<i64>, x: i64)
    ensures
        sum_of_values(Seq::empty()) == 0,
        sum_of_values(seq![x]) == x,
        sum_of_values(a + b) == sum_of_values(a) + sum_of_values(b),
    decreases b.len(),
{
    assert(seq![x].drop_last() =~= Seq::<i64>::empty());
    assert(sum_of_values(Seq::<i64>::empty()) == 0);
    assert(seq![x].last() == x);
    if b.len() == 0 {
        assert(a + b =~= a);
    } else {
        law_totals_add_up(a, b.drop_last(), x);
        assert((a + b).drop_last() =~= a + b.drop_last());
    }
}

/// How many lines of the shards are not empty, in all.
pub open spec fn filled_in_all(shards: Seq<Vec<String>>) -> nat
    decreases shards.len(),
{
    if shards.len() == 0 {
        0
    } else {
        filled_in_all(shards.drop_last()) + shards.last()@.filter(|line: String| line@.len() > 0).len()
    }
}

/// Whether a line has the given text.
pub open spec fn has_text(line: String, text: Seq<char>) -> bool {
    line@ == text
}

/// How often a text stands among the lines of the shards, in all.
pub open spec fn times_in_all(shards: Seq<Vec<String>>, text: Seq<char>) -> nat
    decreases shards.len(),
{
    if shards.len() == 0 {
        0
    } else {
        times_in_all(shards.drop_last(), text) + shards.last()@.filter(
            |line: String| has_text(line, text),
        ).len()
    }
}

proof fn lemma_filled_shard(shard: Seq<String>, text: Seq<char>)
    ensures
        filled_lines(lines_of(shard)).len() == shard.filter(|line: String| line@.len() > 0).len(),
        text.len() > 0 ==> filled_lines(lines_of(shard)).to_multiset().count(text)
            == shard.filter(|line: String| has_text(line, text)).len(),
        text.len() == 0 ==> filled_lines(lines_of(shard)).to_multiset().count(text) == 0,
    decreases shard.len(),
{
    reveal(Seq::filter);
    broadcast use vstd::multiset::group_multiset_axioms;

    if shard.len() == 0 {
        assert(lines_of(shard) =~= Seq::<Seq<char>>::empty());
        assert(filled_lines(lines_of(shard)) =~= Seq::<Seq<char>>::empty());
        vstd::seq_lib::to_multiset_contains(filled_lines(lines_of(shard)), text);
    } else {
        let rest = shard.drop_last();
        lemma_filled_shard(rest, text);
        assert(lines_of(shard).drop_last() =~= lines_of(rest));
        assert(lines_of(shard).last() == shard.last()@);
        let f = filled_lines(lines_of(rest));
        if shard.last()@.len() > 0 {
            to_multiset_build(f, shard.last()@);
            assert(filled_lines(lines_of(shard)) == f.push(shard.last()@));
        } else {
            assert(filled_lines(lines_of(shard)) == f);
        }
    }
}

proof fn lemma_all_lines(shards: Seq<Vec<String>>, text: Seq<char>)
    ensures
        all_lines(shards_of(shards)).len() == filled_in_all(shards),
        text.len() > 0 ==> all_lines(shards_of(shards)).to_multiset().count(text)
            == times_in_all(shards, text),
        text.len() == 0 ==> all_lines(shards_of(shards)).to_multiset().count(text) == 0,
    decreases shards.len(),
{
    broadcast use vstd::multiset::group_multiset_axioms;

    let views = shards_of(shards);
    if shards.len() == 0 {
        assert(all_lines(views) =~= Seq::<Seq<char>>::empty());
        to_multiset_contains(all_lines(views), text);
    } else {
        let rest = shards.drop_last();
        lemma_all_lines(rest, text);
        assert(views.drop_last() =~= shards_of(rest));
        assert(views.last() == lines_of(shards.last()@));
        lemma_filled_shard(shards.last()@, text);
        lemma_multiset_commutative(all_lines(shards_of(rest)), filled_lines(views.last()));
    }
}

proof fn lemma_times_at_least(shards: Seq<Vec<String>>, s: int, j: int)
    requires
        0 <= s < shards.len(),
        0 <= j < shards[s]@.len(),
    ensures
        times_in_all(shards, shards[s]@[j]@) > 0,
    decreases shards.len(),
{
    let text = shards[s]@[j]@;
    if s == shards.len() - 1 {
        let keep = |line: String| has_text(line, text);
        let shard = shards.last()@;
        shard.lemma_filter_contains(keep, j);
        assert(shard.filter(keep).len() > 0);
        assert(times_in_all(shards, text) == times_in_all(shards.drop_last(), text) + shard.filter(
            keep,
        ).len());
    } else {
        assert(shards.drop_last()[s] == shards[s]);
        lemma_times_at_least(shards.drop_last(), s, j);
    }
}

/// Merging keeps every line of every shard. Each text that is not empty stands in the merged lines
/// as often as in all shards together, so each line that is not empty of each shard is among them;
/// the number of merged lines is the sum over the shards of their lines that are not empty; and no
/// merged line is empty.
pub proof fn law_merge_keeps_every_shard(
    merged: Vec<String>,
    shards: Seq<Vec<String>>,
    text: Seq<char>,
)
    requires
        is_merge_of(lines_of(merged@), all_lines(shards_of(shards))),
    ensures
        merged@.len() == filled_in_all(shards),
        text.len() > 0 ==> lines_of(merged@).to_multiset().count(text) == times_in_all(
            shards,
            text,
        ),
        forall|s: int, j: int|
            0 <= s < shards.len() && 0 <= j < shards[s]@.len() && (
            #[trigger] shards[s]@[j])@.len() > 0 ==> exists|m: int|
                0 <= m < merged@.len() && (#[trigger] merged@[m])@ == shards[s]@[j]@,
        forall|m: int| 0 <= m < merged@.len() ==> (#[trigger] merged@[m])@.len() > 0,
{
    let lines = all_lines(shards_of(shards));
    let out = lines_of(merged@);
    let p = choose|p: Seq<usize>| #[trigger]
        is_stable_order(p, keys_of(lines)) && out == arranged(lines, p);
    assert(merged.len() == merged@.len());
    assert(out.len() == merged@.len());
    assert(lines.len() == out.len());
    assert(arranged(lines, p) =~= picked(lines, p));
    assert forall|i: int, j: int| 0 <= i < j < p.len() implies (#[trigger] p[i]) != (
    #[trigger] p[j]) by {
        assert(crate::order::comes_before(keys_of(lines), p[i] as int, p[j] as int));
    }
    lemma_picked_multiset(lines, p, lines.len() as int);
    assert(lines.take(lines.len() as int) =~= lines);
    lemma_all_lines(shards, text);
    assert forall|s: int, j: int|
        0 <= s < shards.len() && 0 <= j < shards[s]@.len() && (
        #[trigger] shards[s]@[j])@.len() > 0 implies exists|m: int|
        0 <= m < merged@.len() && (#[trigger] merged@[m])@ == shards[s]@[j]@ by {
        let x = shards[s]@[j]@;
        lemma_all_lines(shards, x);
        lemma_times_at_least(shards, s, j);
        to_multiset_contains(out, x);
        let m = choose|m: int| 0 <= m < out.len() && out[m] == x;
        assert(merged@[m]@ == x);
    }
    assert forall|m: int| 0 <= m < merged@.len() implies (#[trigger] merged@[m])@.len() > 0 by {
        let x = merged@[m]@;
        assert(out[m] == x);
        assert(out.contains(x));
        to_multiset_contains(out, x);
        lemma_all_lines(shards, x);
    }
}

/// Lines with equal keys keep their order: of two such lines, the one that comes first in the shards
/// comes first in the merged lines.
pub proof fn law_equal_keys_keep_their_order(
    merged: Seq<Seq<char>>,
    lines: Seq<Seq<char>>,
    i: int,
    j: int,
)
    requires
        is_merge_of(merged, lines),
        lines.len() <= usize::MAX,
        0 <= i < j < lines.len(),
        key_of(lines[i]) == key_of(lines[j]),
    ensures
        exists|a: int, b: int|
            0 <= a < b < merged.len() && #[trigger] merged[a] == lines[i] && #[trigger] merged[b]
                == lines[j],
{
    let p = choose|p: Seq<usize>| #[trigger]
        is_stable_order(p, keys_of(lines)) && merged == arranged(lines, p);
    assert(p.contains(i as usize) && p.contains(j as usize));
    let a = choose|a: int| 0 <= a < p.len() && p[a] == i as usize;
    let b = choose|b: int| 0 <= b < p.len() && p[b] == j as usize;
    if b < a {
        assert(crate::order::comes_before(keys_of(lines), p[b] as int, p[a] as int));
    }
    assert(merged[a] == lines[i] && merged[b] == lines[j]);
}

/// The lines of shards put side by side are the lines of the first shards, then those of the others,
/// each shard's own lines in their order.
pub proof fn law_shards_line_up(a: Seq<Seq<Seq<char>>>, b: Seq<Seq<Seq<char>>>, shard: Seq<Seq<char>>)
    ensures
        all_lines(a + b) == all_lines(a) + all_lines(b),
        all_lines(seq![shard]) == shard.filter(|line: Seq<char>| line.len() > 0),
        all_lines(Seq::empty()) == Seq::<Seq<char>>::empty(),
    decreases b.len(),
{
    assert(seq![shard].drop_last() =~= Seq::<Seq<Seq<char>>>::empty());
    assert(all_lines(Seq::empty()) == Seq::<Seq<char>>::empty());
    assert(seq![shard].last() == shard);
    assert(all_lines(seq![shard]) == Seq::<Seq<char>>::empty() + filled_lines(shard));
    assert(Seq::<Seq<char>>::empty() + filled_lines(shard) =~= filled_lines(shard));
    if b.len() == 0 {
        assert(a + b =~= a);
        assert(all_lines(a) + Seq::<Seq<char>>::empty() =~= all_lines(a));
    } else {
        law_shards_line_up(a, b.drop_last(), shard);
        assert((a + b).drop_last() =~= a + b.drop_last());
        assert((all_lines(a) + all_lines(b.drop_last())) + filled_lines(b.last()) =~= all_lines(a)
            + (all_lines(b.drop_last()) + filled_lines(b.last())));
    }
}

/// Every line counts once: the outcomes of two lists of lines put together are those of the first,
/// then those of the second, and so are the workers' counts.
pub proof fn law_outcomes_line_up(
    a: Seq<Seq<char>>,
    b: Seq<Seq<char>>,
    c: Seq<(int, i64)>,
    d: Seq<(int, i64)>,
    line: Seq<char>,
    worker: int,
    o: (int, i64),
)
    ensures
        outcomes_of(a + b) == outcomes_of(a) + outcomes_of(b),
        outcomes_of(seq![line]) == (match outcome_of(line) {
            Some(o) => seq![o],
            None => Seq::empty(),
        }),
        count_of(c + d, worker) == count_of(c, worker) + count_of(d, worker),
        count_of(seq![o], worker) == (if o.0 == worker {
            1nat
        } else {
            0
        }),
    decreases b.len() + d.len(),
{
    assert(seq![line].drop_last() =~= Seq::<Seq<char>>::empty());
    assert(outcomes_of(Seq::<Seq<char>>::empty()) =~= Seq::empty());
    if let Some(x) = outcome_of(line) {
        assert(Seq::<(int, i64)>::empty().push(x) =~= seq![x]);
    }
    assert(seq![o].drop_last() =~= Seq::<(int, i64)>::empty());
    assert(count_of(Seq::<(int, i64)>::empty(), worker) == 0);
    assert(seq![o].last() == o);
    if b.len() == 0 {
        assert(a + b =~= a);
        assert(outcomes_of(a) + outcomes_of(b) =~= outcomes_of(a));
    } else {
        law_outcomes_line_up(a, b.drop_last(), c, d, line, worker, o);
        assert((a + b).drop_last() =~= a + b.drop_last());
        assert((a + b).last() == b.last());
        if let Some(x) = outcome_of(b.last()) {
            assert((outcomes_of(a) + outcomes_of(b.drop_last())).push(x) =~= outcomes_of(a)
                + outcomes_of(b.drop_last()).push(x));
        }
    }
    if d.len() == 0 {
        assert(c + d =~= c);
    } else {
        law_outcomes_line_up(a, b, c, d.drop_last(), line, worker, o);
        assert((c + d).drop_last() =~= c + d.drop_last());
        assert((c + d).last() == d.last());
    }
}

/// What the summary makes of written rows: one outcome per row, in order, with the row's worker and
/// its latency in whole microseconds.
pub proof fn law_summary_reads_every_row(rows: Seq<ConnRow>)
    requires
        forall|i: int| 0 <= i < rows.len() ==> is_cell((#[trigger] rows[i]).kind@),
    ensures
        outcomes_of(rows.map_values(|row: ConnRow| join(conn_row_cells(row)))) == rows.map_values(
            |row: ConnRow|
                (row.worker_id as int, whole_micros(row.done_ns - row.arrival_ns) as i64),
        ),
    decreases rows.len(),
{
    let lines = rows.map_values(|row: ConnRow| join(conn_row_cells(row)));
    let outcomes = rows.map_values(
        |row: ConnRow| (row.worker_id as int, whole_micros(row.done_ns - row.arrival_ns) as i64),
    );
    if rows.len() == 0 {
        assert(outcomes_of(lines) =~= outcomes);
    } else {
        let rest = rows.drop_last();
        assert forall|i: int| 0 <= i < rest.len() implies is_cell((#[trigger] rest[i]).kind@) by {
            assert(rest[i] == rows[i]);
        }
        law_summary_reads_every_row(rest);
        assert(lines.drop_last() =~= rest.map_values(
            |row: ConnRow| join(conn_row_cells(row)),
        ));
        assert(is_cell(rows[rows.len() - 1].kind@));
        law_summary_reads_rows(rows.last());
        assert(outcomes_of(lines) =~= outcomes);
    }
}

/// A line has an outcome exactly if it has eight columns or more of which the second is a worker
/// number and the eighth a latency.
pub proof fn law_outcome_columns(line: Seq<char>)
    ensures
        outcome_of(line).is_some() <==> split(line).len() >= 8 && unsigned_of(
            split(line)[1],
            usize::MAX as int,
        ).is_some() && signed_of(split(line)[7]).is_some(),
        outcome_of(line).is_some() ==> unsigned_of(split(line)[1], usize::MAX as int) == Some(
            outcome_of(line).unwrap().0,
        ) && signed_of(split(line)[7]) == Some(outcome_of(line).unwrap().1 as int),
{
    if signed_of(split(line)[7]).is_some() {
        lemma_signed_fits(split(line)[7]);
    }
}

/// A written connection row can be read back column by column: numbers, times and worker as they
/// are; waiting time and latency in whole microseconds, thousands of nanoseconds, from the arrival.
pub proof fn law_conn_row_reads_back(row: ConnRow)
    requires
        is_cell(row.kind@),
    ensures
        split(join(conn_row_cells(row))).len() == 10,
        unsigned_of(split(join(conn_row_cells(row)))[0], u64::MAX as int) == Some(
            row.conn_id as int,
        ),
        unsigned_of(split(join(conn_row_cells(row)))[1], usize::MAX as int) == Some(
            row.worker_id as int,
        ),
        signed_of(split(join(conn_row_cells(row)))[2]) == Some(row.arrival_ns as int),
        signed_of(split(join(conn_row_cells(row)))[3]) == Some(row.dequeue_ns as int),
        signed_of(split(join(conn_row_cells(row)))[4]) == Some(row.done_ns as int),
        unsigned_of(split(join(conn_row_cells(row)))[6], u32::MAX as int) == Some(
            row.service_us as int,
        ),
        split(join(conn_row_cells(row)))[8] == policy_name(row.policy),
        split(join(conn_row_cells(row)))[9] == row.kind@,
        signed_of(split(join(conn_row_cells(row)))[5]) matches Some(wait) && (row.arrival_ns
            <= row.dequeue_ns ==> 1_000 * wait <= row.dequeue_ns - row.arrival_ns < 1_000 * (wait
            + 1)) && (row.dequeue_ns <= row.arrival_ns ==> 1_000 * (-wait) <= row.arrival_ns
            - row.dequeue_ns < 1_000 * (-wait + 1)),
        signed_of(split(join(conn_row_cells(row)))[7]) matches Some(latency) && (row.arrival_ns
            <= row.done_ns ==> 1_000 * latency <= row.done_ns - row.arrival_ns < 1_000 * (latency
            + 1)) && (row.done_ns <= row.arrival_ns ==> 1_000 * (-latency) <= row.arrival_ns
            - row.done_ns < 1_000 * (-latency + 1)),
{
    lemma_conn_cells(row);
    law_split_undoes_join(conn_row_cells(row));
    law_unsigned_round_trip(row.conn_id as nat, u64::MAX as int);
    law_unsigned_round_trip(row.worker_id as nat, usize::MAX as int);
    law_unsigned_round_trip(row.service_us as nat, u32::MAX as int);
    law_signed_round_trip(row.arrival_ns);
    law_signed_round_trip(row.dequeue_ns);
    law_signed_round_trip(row.done_ns);
    law_signed_round_trip(whole_micros(row.dequeue_ns - row.arrival_ns) as i64);
    law_signed_round_trip(whole_micros(row.done_ns - row.arrival_ns) as i64);
}

/// A line is sorted by the number in its first cell, and counts as zero where that is no number.
pub proof fn law_line_key(line: Seq<char>)
    ensures
        signed_of(split(line)[0]) matches Some(n) ==> key_of(line) == n,
        signed_of(split(line)[0]).is_none() ==> key_of(line) == 0,
{
    if signed_of(split(line)[0]).is_some() {
        lemma_signed_fits(split(line)[0]);
    }
}

/// Every outcome has its latency, in order.
pub proof fn law_latencies_of_outcomes(outcomes: Seq<(int, i64)>, i: int)
    ensures
        latencies_of(outcomes).len() == outcomes.len(),
        0 <= i < outcomes.len() ==> latencies_of(outcomes)[i] == outcomes[i].1,
{
}

} // verus!
