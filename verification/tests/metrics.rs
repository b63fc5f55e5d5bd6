//! Rows, their merging, and the figures of a run.

use micro_hermes::lb_metrics;
use micro_hermes::metrics::{
    conn_header, format_conn_row, format_tick_row, micros_between, tick_header, ConnRow,
    MetricsShards, TickRow,
};
use micro_hermes::order::{sorted_values, stable_order};
use micro_hermes::policy::Policy;
use micro_hermes::scheduler::ScheduleResult;
use micro_hermes::summary::{
    latency_figures, line_key, merge_shards, percentile, read_outcome, summarize_conns,
};
use micro_hermes::text::{
    chars_of, parse_signed, parse_unsigned, push_i64, push_right_aligned, push_right_aligned_u64,
    push_u64, push_zero_padded, same_text,
};
use micro_hermes::wst::{WorkerSnapshot, NUM_WORKERS};

fn snapshots() -> [WorkerSnapshot; NUM_WORKERS] {
    std::array::from_fn(|i| WorkerSnapshot {
        last_loop_entry: 0,
        pending_events: i as i64,
        accumulated_conns: 10 * i as i64 - 5,
    })
}

fn tick(result: Option<ScheduleResult>, policy: Policy) -> TickRow {
    TickRow {
        timestamp_ns: 123_456_789,
        worker_id: 2,
        iter: 7,
        snapshots: snapshots(),
        queue_len: 3,
        result,
        policy,
    }
}

fn pass() -> ScheduleResult {
    ScheduleResult { bitmap: 0b0101, after_stage1: 4, after_stage2: 3, after_stage3: 2 }
}

fn conn(conn_id: u64, worker_id: usize, arrival_ns: i64, done_ns: i64) -> ConnRow {
    ConnRow {
        conn_id,
        worker_id,
        arrival_ns,
        dequeue_ns: arrival_ns + 2_999,
        done_ns,
        service_us: 40,
        policy: Policy::Lifo,
        kind: "accept",
    }
}

#[test]
fn headers_name_the_columns() {
    assert_eq!(
        tick_header(),
        "timestamp_ns,worker_id,iter,bitmap_hex,bitmap_bin,after_stage1,after_stage2,after_stage3,\
         queue_len,policy,w0_conns,w0_events,w1_conns,w1_events,w2_conns,w2_events,w3_conns,\
         w3_events,conn_sd,events_sd"
    );
    assert_eq!(
        conn_header(),
        "conn_id,worker_id,arrival_ns,dequeue_ns,done_ns,queue_wait_us,service_us,latency_us,\
         policy,kind"
    );
    assert_eq!(lb_metrics::tick_header(), tick_header().replace("queue_len", "open_conns"));
}

#[test]
fn tick_rows_have_the_columns_of_their_header() {
    let row = tick(Some(pass()), Policy::Hermes);
    let line = format_tick_row(&row, "11.180", "1.118");
    assert_eq!(
        line,
        "123456789,2,7,0x0005,0101,4,3,2,3,hermes,-5,0,5,1,15,2,25,3,11.180,1.118"
    );
    assert_eq!(line.split(',').count(), tick_header().split(',').count());
    // Without a pass the columns are zero.
    let line = format_tick_row(&tick(None, Policy::ReuseportHash), "0.000", "0.000");
    assert!(line.starts_with("123456789,2,7,0x0000,0000,0,0,0,3,reuseport,"));
    // Wide bitmaps are not cut.
    let wide = ScheduleResult { bitmap: 0xabcde, ..pass() };
    let line = format_tick_row(&tick(Some(wide), Policy::Hermes), "a", "b");
    assert!(line.contains(",0xabcde,10101011110011011110,"));
}

#[test]
fn conn_rows_have_the_columns_of_their_header() {
    let line = format_conn_row(&conn(9, 1, 1_000, 5_000_999));
    assert_eq!(line, "9,1,1000,3999,5000999,2,40,4999,lifo,accept");
    assert_eq!(line.split(',').count(), conn_header().split(',').count());
}

#[test]
fn microseconds_are_cut_towards_zero() {
    assert_eq!(micros_between(0, 1_999), 1);
    assert_eq!(micros_between(1_999, 0), -1);
    assert_eq!(micros_between(0, -999), 0);
    assert_eq!(micros_between(i64::MIN, i64::MAX), 18_446_744_073_709_551);
}

#[test]
fn console_lines() {
    assert_eq!(
        tick(Some(pass()), Policy::Hermes).console_line(),
        "[w2][hermes] iter    7 | conns=[ -5   5  15  25] events=[  0   1   2   3] qlen=  3 | \
         stages 4/3/2 bitmap=0101"
    );
    let row = lb_metrics::TickRow {
        timestamp_ns: 1,
        worker_id: 0,
        iter: 12_345,
        snapshots: snapshots(),
        open_conns: 1_000,
        result: None,
        policy: Policy::Lifo,
    };
    assert_eq!(
        row.console_line(),
        "[w0][lifo] iter 12345 | conns=[ -5   5  15  25] events=[  0   1   2   3] open=1000 | \
         (no scheduler)"
    );
}

#[test]
fn shards_are_written_row_by_row() {
    let mut shards = MetricsShards::new();
    assert!(shards.ticks.is_empty() && shards.conns.is_empty());
    shards.ticks.push(tick(None, Policy::Lifo));
    shards.ticks.push(tick(Some(pass()), Policy::Hermes));
    shards.conns.push(conn(1, 0, 0, 10));
    let deviations = vec![
        ("1.000".to_string(), "2.000".to_string()),
        ("3.000".to_string(), "4.000".to_string()),
    ];
    let (ticks, conns) = shards.write(&deviations);
    assert_eq!(ticks.len(), 2);
    assert!(ticks[0].ends_with(",1.000,2.000"));
    assert_eq!(ticks[1], format_tick_row(&shards.ticks[1], "3.000", "4.000"));
    assert_eq!(conns, vec![format_conn_row(&shards.conns[0])]);
}

#[test]
fn tick_writer_flushes_every_64_rows() {
    let (mut writer, header) = lb_metrics::TickWriter::create();
    assert_eq!(header, lb_metrics::tick_header());
    let row = lb_metrics::TickRow {
        timestamp_ns: 5,
        worker_id: 1,
        iter: 0,
        snapshots: snapshots(),
        open_conns: 8,
        result: None,
        policy: Policy::ReuseportHash,
    };
    for n in 1..=200 {
        let (line, flush) = writer.write(&row, "0.000", "0.000");
        assert_eq!(flush, n % 64 == 0);
        assert_eq!(line, lb_metrics::format_tick_row(&row, "0.000", "0.000"));
    }
}

fn lines(texts: &[&str]) -> Vec<String> {
    texts.iter().map(|s| s.to_string()).collect()
}

#[test]
fn shards_merge_in_stable_key_order() {
    let shards = vec![
        lines(&["10,a", "3,b", "", "x,c"]),
        Vec::new(),
        lines(&["3,d", "-7,e", "+3,f", "9223372036854775808,g"]),
    ];
    let merged = merge_shards(&shards);
    assert_eq!(
        merged,
        lines(&["-7,e", "x,c", "9223372036854775808,g", "3,b", "3,d", "+3,f", "10,a"])
    );
    assert_eq!(merge_shards(&Vec::new()), Vec::<String>::new());
}

#[test]
fn line_keys_are_the_first_cell() {
    assert_eq!(line_key("42,7"), 42);
    assert_eq!(line_key("42"), 42);
    assert_eq!(line_key("-9223372036854775808,"), i64::MIN);
    assert_eq!(line_key("4 2,7"), 0);
    assert_eq!(line_key(""), 0);
    assert_eq!(line_key(",5"), 0);
    assert_eq!(line_key("--5"), 0);
    assert_eq!(line_key("-"), 0);
}

#[test]
fn written_rows_are_sorted_by_their_first_column() {
    let row = tick(None, Policy::Hermes);
    assert_eq!(line_key(&format_tick_row(&row, "0,5", "x")), row.timestamp_ns);
    assert_eq!(line_key(&format_conn_row(&conn(42, 1, 0, 5))), 42);
}

#[test]
fn sorting_keeps_equal_keys_in_order() {
    assert_eq!(stable_order(&vec![5, 1, 5, 0, 1]), vec![3, 1, 4, 0, 2]);
    assert_eq!(sorted_values(&vec![5, 1, 5, 0, 1]), vec![0, 1, 1, 5, 5]);
    let keys: Vec<i64> = (0..500i64).map(|i| (i * 7919) % 101).collect();
    let mut expected: Vec<usize> = (0..500).collect();
    expected.sort_by_key(|&i| keys[i]);
    assert_eq!(stable_order(&keys), expected);
}

#[test]
fn percentiles_agree_with_floating_point_ranks() {
    for n in 1..700usize {
        let sorted: Vec<i64> = (0..n as i64).collect();
        for (percent, p) in [(50u8, 0.50f64), (99, 0.99)] {
            let rank = ((n as f64 * p).ceil() as usize).clamp(1, n);
            assert_eq!(percentile(&sorted, percent), sorted[rank - 1]);
        }
    }
    assert_eq!(percentile(&vec![4, 9], 0), 4);
    assert_eq!(percentile(&vec![4, 9], 100), 9);
}

#[test]
fn figures_of_latencies() {
    let f = latency_figures(&vec![30, 10, 20]);
    assert_eq!((f.total_us, f.p50_us, f.p99_us, f.max_us), (60, 20, 30, 30));
    let none = latency_figures(&Vec::new());
    assert_eq!((none.total_us, none.p50_us, none.p99_us, none.max_us), (0, 0, 0, 0));
}

#[test]
fn summaries_read_what_rows_write() {
    let rows = [conn(0, 0, 0, 4_000), conn(1, 3, 0, 9_000), conn(2, 3, 500, 1_000_500)];
    let mut text: Vec<String> = rows.iter().map(format_conn_row).collect();
    for (row, line) in rows.iter().zip(&text) {
        let latency = micros_between(row.arrival_ns, row.done_ns);
        assert_eq!(read_outcome(line), Some((row.worker_id, latency)));
    }
    text.push("no,row".to_string());
    text.push("1,x,0,0,0,0,0,5,lifo,accept".to_string());
    text.push("1,9,0,0,0,0,0,7,lifo,accept".to_string());
    let s = summarize_conns(&text);
    // The last line counts, but for none of the workers.
    assert_eq!(s.completed, 4);
    assert_eq!(s.completed_per_worker, [1, 0, 0, 2]);
    assert_eq!(s.latency.total_us, 4 + 9 + 1000 + 7);
    assert_eq!((s.latency.p50_us, s.latency.max_us), (7, 1000));
    let empty = summarize_conns(&Vec::new());
    assert_eq!((empty.completed, empty.completed_per_worker), (0, [0; 4]));
}

#[test]
fn numbers_are_written_and_read_back() {
    for n in [0i64, 7, -7, 10, 99, 100, i64::MAX, i64::MIN] {
        let mut s = String::new();
        push_i64(&mut s, n);
        assert_eq!(s, n.to_string());
        assert_eq!(parse_signed(&chars_of(&s)), Some(n));
        let mut padded = String::new();
        push_right_aligned(&mut padded, n, 4);
        assert_eq!(padded, format!("{n:>4}"));
    }
    for n in [0u64, 1, 15, 16, 0xdead_beef, u64::MAX] {
        let mut s = String::from("<");
        push_u64(&mut s, n);
        assert_eq!(s, format!("<{n}"));
        assert_eq!(parse_unsigned(&chars_of(&s[1..]), u64::MAX), Some(n));
        let mut hex = String::new();
        push_zero_padded(&mut hex, n, 16, 4);
        assert_eq!(hex, format!("{n:04x}"));
        let mut bin = String::new();
        push_zero_padded(&mut bin, n, 2, 4);
        assert_eq!(bin, format!("{n:04b}"));
        let mut padded = String::new();
        push_right_aligned_u64(&mut padded, n, 3);
        assert_eq!(padded, format!("{n:>3}"));
    }
    assert_eq!(parse_unsigned(&chars_of("256"), 255), None);
    assert_eq!(parse_signed(&chars_of("-9223372036854775809")), None);
    assert!(same_text("ab", "ab") && !same_text("ab", "aB"));
}
