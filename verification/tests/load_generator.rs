//! Connections of the load generator, and the figures of a run.

use micro_hermes::bench::{close_after, Arrivals, Collector, GRACE};
use micro_hermes::client::{
    csv_header, now_ns, Client, ClientAction, ClientEvent, ConnRow,
};
use micro_hermes::generator::synthetic_hash;
use micro_hermes::wire::{decode_request, encode_response, RESPONSE_LEN};
use micro_hermes::workload::{
    as_micros32, bench_config, BurstSpec, WorkloadCase, WorkloadConfig, MILLI, SECOND,
};

fn response(seq: u32, worker: u32, ns: i64) -> Option<[u8; RESPONSE_LEN]> {
    let mut buf = [0u8; RESPONSE_LEN];
    encode_response(seq, worker, ns, &mut buf);
    Some(buf)
}

fn label() -> String {
    "run".to_string()
}

#[test]
fn rows_as_csv() {
    assert_eq!(
        csv_header(),
        "conn_id,seq,kind,worker_id,send_ns,recv_ns,latency_us,service_us,label"
    );
    let row = ConnRow::ok(4, 1, "burst", 2, 1_000, 6_999, 40, &label());
    assert_eq!(row.latency_us(), Some(5));
    assert_eq!(row.to_csv_line(), "4,1,burst,2,1000,6999,5,40,run");
    let row = ConnRow::failed(4, 0, "drop", &label());
    assert_eq!(row.latency_us(), None);
    assert_eq!(row.to_csv_line(), "4,0,drop,,0,0,,0,run");
    assert_eq!(row.to_csv_line().split(',').count(), csv_header().split(',').count());
}

#[test]
fn timestamps_are_cut_to_64_bits() {
    assert_eq!(now_ns(0), 0);
    assert_eq!(now_ns(i64::MAX as u128), i64::MAX);
    assert_eq!(now_ns(i64::MAX as u128 + 1), i64::MIN);
    assert_eq!(now_ns(u64::MAX as u128), -1);
    assert_eq!(now_ns(1u128 << 64), 0);
}

#[test]
fn connection_sends_its_request_and_closes() {
    let mut c = Client::new(9, 250, None, label());
    assert!(matches!(c.wants(), ClientAction::Connect));
    let (a, row) = c.step(ClientEvent::Connected { ok: true });
    assert!(matches!(a, ClientAction::ReadClock) && row.is_none());
    let (a, _) = c.step(ClientEvent::Clock { elapsed: 1_000 });
    let ClientAction::Send { bytes } = a else { panic!("{a:?}") };
    assert_eq!(decode_request(&bytes), Some((0, 250, 1_000)));
    assert!(matches!(c.step(ClientEvent::Sent { ok: true }).0, ClientAction::Receive));
    let (a, row) = c.step(ClientEvent::Received { bytes: response(0, 3, 1_000) });
    assert!(matches!(a, ClientAction::ReadClock) && row.is_none());
    let (a, row) = c.step(ClientEvent::Clock { elapsed: 301_000 });
    assert!(matches!(a, ClientAction::Wait { burst_at: None }));
    assert_eq!(row.unwrap().to_csv_line(), "9,0,accept,3,1000,301000,300,250,run");
    // No burst is to come.
    assert!(matches!(c.step(ClientEvent::BurstDue).0, ClientAction::Wait { burst_at: None }));
    assert!(matches!(c.step(ClientEvent::CloseDue).0, ClientAction::Finish));
}

#[test]
fn connection_takes_part_in_the_burst_once() {
    let burst = BurstSpec { at: 2500 * MILLI, service: 5 * MILLI };
    let mut c = Client::new(1, 10, Some(burst), label());
    c.step(ClientEvent::Connected { ok: true });
    c.step(ClientEvent::Clock { elapsed: 5 });
    c.step(ClientEvent::Sent { ok: true });
    c.step(ClientEvent::Received { bytes: response(0, 0, 5) });
    let (a, _) = c.step(ClientEvent::Clock { elapsed: 6 });
    assert!(matches!(a, ClientAction::Wait { burst_at: Some(at) } if at == burst.at));
    assert!(matches!(c.step(ClientEvent::BurstDue).0, ClientAction::ReadClock));
    let (a, _) = c.step(ClientEvent::Clock { elapsed: 7 });
    let ClientAction::Send { bytes } = a else { panic!("{a:?}") };
    assert_eq!(decode_request(&bytes), Some((1, 5_000, 7)));
    c.step(ClientEvent::Sent { ok: true });
    c.step(ClientEvent::Received { bytes: response(1, 2, 7) });
    let (a, row) = c.step(ClientEvent::Clock { elapsed: 9 });
    assert!(matches!(a, ClientAction::Wait { burst_at: None }));
    let row = row.unwrap();
    assert_eq!((row.seq, row.kind, row.worker_id), (1, "burst", Some(2)));
    assert!(matches!(c.step(ClientEvent::BurstDue).0, ClientAction::Wait { burst_at: None }));
}

#[test]
fn failures_end_the_connection_with_a_row() {
    let mut c = Client::new(2, 10, None, label());
    let (a, row) = c.step(ClientEvent::Connected { ok: false });
    assert!(matches!(a, ClientAction::Finish));
    assert_eq!(row.unwrap().kind, "drop");

    let mut c = Client::new(2, 10, None, label());
    c.step(ClientEvent::Connected { ok: true });
    c.step(ClientEvent::Clock { elapsed: 1 });
    let (a, row) = c.step(ClientEvent::Sent { ok: false });
    assert!(matches!(a, ClientAction::Finish));
    assert_eq!(row.unwrap().kind, "error");

    let mut c = Client::new(2, 10, None, label());
    c.step(ClientEvent::Connected { ok: true });
    c.step(ClientEvent::Clock { elapsed: 1 });
    c.step(ClientEvent::Sent { ok: true });
    let (a, row) = c.step(ClientEvent::Received { bytes: None });
    assert!(matches!(a, ClientAction::Finish));
    let row = row.unwrap();
    assert_eq!((row.kind, row.seq, row.worker_id), ("error", 0, None));
    assert!(c.step(ClientEvent::CloseDue).1.is_none());
}

#[test]
fn connections_start_when_they_are_due() {
    let cfg = WorkloadConfig {
        cps: 250,
        duration: 10 * MILLI,
        ..WorkloadConfig::for_case(WorkloadCase::Case2)
    };
    let mut arrivals = Arrivals::new(&cfg, 3);
    for n in 0..3u64 {
        let a = arrivals.next_arrival().unwrap();
        assert_eq!((a.at, a.conn_id), (n as u128 * 4 * MILLI, n));
        assert_eq!(a.service_us, as_micros32(cfg.service.sample(synthetic_hash(n, 3))));
    }
    assert_eq!(arrivals.next_arrival(), None);
    assert_eq!(arrivals.generated(), 3);
}

#[test]
fn runs_start_their_rate_times_their_duration() {
    for (load, expected) in [("light", 120), ("medium", 240), ("heavy", 600)] {
        let cfg = bench_config(Some("3"), Some(load)).unwrap();
        let mut arrivals = Arrivals::new(&cfg, 0);
        while arrivals.next_arrival().is_some() {}
        assert_eq!(arrivals.generated(), expected);
    }
}

#[test]
fn connections_close_in_time() {
    let short = WorkloadConfig::for_case(WorkloadCase::Case1);
    assert_eq!(close_after(&short), 150 * MILLI);
    let long = WorkloadConfig::for_case(WorkloadCase::Case3);
    assert_eq!(close_after(&long), 4 * SECOND + GRACE);
    assert_eq!(GRACE, 500 * MILLI);
}

#[test]
fn collector_counts_and_flushes() {
    let mut c = Collector::new();
    for n in 1..=600i64 {
        let row = match n % 10 {
            0 => ConnRow::failed(n as u64, 0, "drop", &label()),
            1 => ConnRow::failed(n as u64, 0, "error", &label()),
            _ => ConnRow::ok(n as u64, 0, "accept", 1, 0, n * 1_000, 5, &label()),
        };
        assert!(c.has_room(&row));
        let (line, flush) = c.record(&row);
        assert_eq!(line, row.to_csv_line());
        assert_eq!(flush, n % 256 == 0);
    }
    let s = c.finish();
    assert_eq!((s.completed, s.errors, s.drops), (480, 60, 60));
    assert_eq!(c.latency_count(), 480);
    let mut latencies: Vec<i64> = (1..=600).filter(|n| n % 10 > 1).collect();
    latencies.sort();
    assert_eq!(s.latency.total_us, latencies.iter().map(|&l| l as i128).sum::<i128>());
    assert_eq!(s.latency.p50_us, latencies[239]);
    assert_eq!(s.latency.p99_us, latencies[475]);
    assert_eq!(s.latency.max_us, 599);
    assert_eq!(Collector::new().finish().latency.p50_us, 0);
}
