//! Traffic profiles, their selection, and the arrival of connections.

use micro_hermes::dispatcher::Backlog;
use micro_hermes::generator::{
    parse_seed, synthetic_hash, GenAction, GenEvent, Generator, HASH_FACTOR,
};
use micro_hermes::policy::Policy;
use micro_hermes::scheduler::HANG_THRESHOLD_NS;
use micro_hermes::workload::{
    as_micros32, as_millis32, bench_config, draw, due_time, simulation_config, BurstSpec,
    ConfigError,
    HangSpec, LoadLevel, ProcessingTime, WorkloadCase, WorkloadConfig, DRAW_RANGE, MILLI,
    ONE_IN_FOUR, ONE_IN_TEN, SECOND, THREE_IN_TEN,
};
use std::collections::HashSet;

const CASES: [WorkloadCase; 5] = [
    WorkloadCase::Case1,
    WorkloadCase::Case2,
    WorkloadCase::Case3,
    WorkloadCase::Case4,
    WorkloadCase::Case5,
];
const LEVELS: [LoadLevel; 3] = [LoadLevel::Light, LoadLevel::Medium, LoadLevel::Heavy];

/// The draw as a fraction of one.
fn lcg_float(seed: u64) -> f64 {
    let x = seed.wrapping_mul(6364136223846793005).wrapping_add(1442695040888963407);
    (x >> 11) as f64 / (1u64 << 53) as f64
}

#[test]
fn thresholds_are_the_probabilities() {
    for (threshold, p) in [(ONE_IN_FOUR, 0.25f64), (THREE_IN_TEN, 0.3), (ONE_IN_TEN, 0.1)] {
        assert_eq!(threshold as f64, (p * DRAW_RANGE as f64).ceil());
        for seed in 0..20_000u64 {
            let hash = seed.wrapping_mul(0x9e3779b97f4a7c15);
            assert_eq!(draw(hash) < threshold, lcg_float(hash) < p);
        }
        // around the threshold itself
        assert!(((threshold - 1) as f64 / DRAW_RANGE as f64) < p);
        assert!((threshold as f64 / DRAW_RANGE as f64) >= p);
    }
}

#[test]
fn draw_is_one_step_of_the_generator() {
    assert_eq!(draw(0), 1442695040888963407 >> 11);
    assert_eq!(draw(1), (6364136223846793005u64.wrapping_add(1442695040888963407)) >> 11);
    assert!(draw(u64::MAX) < DRAW_RANGE);
}

#[test]
fn samples_are_slow_about_as_often_as_they_should() {
    let p = ProcessingTime::Bimodal { fast: 1, slow: 2, slow_below: ONE_IN_FOUR };
    let slow = (0..10_000u64).filter(|&i| p.sample(synthetic_hash(i, 0)) == 2).count();
    assert!((2_300..2_700).contains(&slow), "{slow} of 10000");
    assert_eq!(ProcessingTime::Fixed(7).sample(123), 7);
}

#[test]
fn profiles_are_as_described() {
    let c1 = WorkloadConfig::for_case(WorkloadCase::Case1);
    assert_eq!((c1.cps, c1.duration, c1.lifetime), (400, 3 * SECOND, 150 * MILLI));
    assert_eq!(c1.service, ProcessingTime::Fixed(MILLI));
    let c2 = WorkloadConfig::for_case(WorkloadCase::Case2);
    assert_eq!((c2.cps, c2.duration, c2.lifetime), (100, 4 * SECOND, 200 * MILLI));
    assert_eq!(
        c2.hang,
        Some(HangSpec { worker_id: 0, at: 1500 * MILLI, duration: 400 * MILLI })
    );
    let c3 = WorkloadConfig::for_case(WorkloadCase::Case3);
    assert_eq!((c3.cps, c3.lifetime), (60, 60 * SECOND));
    let c4 = WorkloadConfig::for_case(WorkloadCase::Case4);
    assert_eq!(c4.cps, 40);
    assert_eq!(
        c4.service,
        ProcessingTime::Bimodal { fast: 20 * MILLI, slow: 200 * MILLI, slow_below: THREE_IN_TEN }
    );
    let c5 = WorkloadConfig::for_case(WorkloadCase::Case5);
    assert_eq!(c5.burst, Some(BurstSpec { at: 2500 * MILLI, service: 5 * MILLI }));
    assert_eq!(WorkloadConfig { burst: None, ..c5 }, c3);
    let mixed = WorkloadConfig::default_case();
    assert_eq!((mixed.cps, mixed.duration, mixed.lifetime), (150, 2500 * MILLI, 250 * MILLI));
}

#[test]
fn load_levels_set_the_rate_only() {
    let rates: Vec<Vec<u32>> = CASES
        .iter()
        .map(|&c| LEVELS.iter().map(|&l| WorkloadConfig::for_case_with_load(c, l).cps).collect())
        .collect();
    assert_eq!(
        rates,
        vec![
            vec![400, 1600, 3000],
            vec![40, 75, 100],
            vec![30, 60, 150],
            vec![15, 40, 50],
            vec![60, 60, 60],
        ]
    );
    for case in CASES {
        for load in LEVELS {
            let cfg = WorkloadConfig::for_case_with_load(case, load);
            let base = WorkloadConfig::base_case(case);
            assert_eq!(WorkloadConfig { cps: base.cps, ..cfg }, base);
        }
        assert_eq!(WorkloadConfig::for_case(case), WorkloadConfig::base_case(case));
    }
}

#[test]
fn hangs_exceed_the_threshold() {
    for case in CASES {
        if let Some(h) = WorkloadConfig::for_case(case).hang {
            assert!(h.duration > HANG_THRESHOLD_NS as u128);
        }
    }
}

#[test]
fn names_of_cases_and_levels() {
    assert_eq!(WorkloadCase::from_str("1"), Some(WorkloadCase::Case1));
    assert_eq!(WorkloadCase::from_str("5"), Some(WorkloadCase::Case5));
    assert_eq!(WorkloadCase::from_str("6"), None);
    assert_eq!(WorkloadCase::from_str(""), None);
    assert_eq!(LoadLevel::from_str("light"), Some(LoadLevel::Light));
    assert_eq!(LoadLevel::from_env_str("medium"), Some(LoadLevel::Medium));
    assert_eq!(LoadLevel::from_env_str("heavy"), Some(LoadLevel::Heavy));
    assert_eq!(LoadLevel::from_str("Heavy"), None);
    assert_eq!(Policy::parse("hermes"), Some(Policy::Hermes));
    assert_eq!(Policy::parse("lifo"), Some(Policy::Lifo));
    assert_eq!(Policy::parse("reuseport"), Some(Policy::ReuseportHash));
    assert_eq!(Policy::parse("random"), None);
    assert_eq!(Policy::from_env_str("random"), Policy::Hermes);
    assert_eq!(Policy::from_env_str("lifo"), Policy::Lifo);
    for p in [Policy::Hermes, Policy::Lifo, Policy::ReuseportHash] {
        assert_eq!(Policy::parse(p.as_str()), Some(p));
        assert_eq!(p.runs_scheduler(), p == Policy::Hermes);
    }
}

#[test]
fn simulation_settings_choose_the_profile() {
    let heavy = WorkloadConfig::for_case_with_load(WorkloadCase::Case2, LoadLevel::Heavy);
    assert_eq!(simulation_config("2", Some("heavy")), heavy);
    assert_eq!(simulation_config("2", None), WorkloadConfig::for_case(WorkloadCase::Case2));
    assert_eq!(simulation_config("3", Some("huge")), WorkloadConfig::for_case(WorkloadCase::Case3));
    assert_eq!(simulation_config("default", Some("heavy")), WorkloadConfig::default_case());
    assert_eq!(simulation_config("5", None), WorkloadConfig::for_case(WorkloadCase::Case5));
}

#[test]
fn bench_settings_choose_the_profile_or_fail() {
    assert_eq!(bench_config(None, Some("huge")), Ok(WorkloadConfig::default_case()));
    assert_eq!(
        bench_config(Some("1"), None),
        Ok(WorkloadConfig::for_case(WorkloadCase::Case1))
    );
    assert_eq!(
        bench_config(Some("1"), Some("medium")),
        Ok(WorkloadConfig::for_case_with_load(WorkloadCase::Case1, LoadLevel::Medium))
    );
    assert_eq!(bench_config(Some("7"), Some("huge")), Err(ConfigError::UnknownCase));
    assert_eq!(bench_config(Some("1"), Some("huge")), Err(ConfigError::UnknownLoad));
}

#[test]
fn durations_are_cut_to_32_bits() {
    assert_eq!(as_micros32(1_999), 1);
    assert_eq!(as_micros32(150 * MILLI), 150_000);
    assert_eq!(as_micros32((1u128 << 32) * 1_000 + 5_000), 5);
    assert_eq!(as_millis32(60 * SECOND), 60_000);
    assert_eq!(as_millis32((1u128 << 32) * 1_000_000), 0);
}

#[test]
fn seeds_come_from_a_setting() {
    assert_eq!(parse_seed(None), 0);
    assert_eq!(parse_seed(Some("17")), 17);
    assert_eq!(parse_seed(Some("+17")), 17);
    assert_eq!(parse_seed(Some("18446744073709551615")), u64::MAX);
    assert_eq!(parse_seed(Some("18446744073709551616")), 0);
    assert_eq!(parse_seed(Some("-1")), 0);
    assert_eq!(parse_seed(Some("")), 0);
    assert_eq!(parse_seed(Some("+")), 0);
}

#[test]
fn hashes_differ_within_and_between_trials() {
    assert_eq!(synthetic_hash(3, 0), 3u64.wrapping_mul(HASH_FACTOR));
    let s = 5u64.wrapping_mul(0xff51afd7ed558ccd);
    assert_eq!(synthetic_hash(3, 5), (3 ^ s).wrapping_mul(0x9e3779b97f4a7c15));
    let mut seen = HashSet::new();
    for id in 0..5_000 {
        assert!(seen.insert(synthetic_hash(id, 42)));
        assert_ne!(synthetic_hash(id, 1), synthetic_hash(id, 2));
    }
}

fn idle() -> Backlog {
    Backlog { queue_lens: [0; 4], pending_events: [0; 4] }
}

#[test]
fn generator_paces_dispatches_and_counts() {
    let cfg = WorkloadConfig {
        cps: 250,
        duration: 10 * MILLI,
        ..WorkloadConfig::for_case(WorkloadCase::Case1)
    };
    let mut g = Generator::new(cfg, Policy::ReuseportHash, 0);
    assert_eq!(g.wants(), GenAction::ReadClock);

    // The first connection is due at once.
    assert_eq!(g.step(GenEvent::Clock { elapsed: 10 }), GenAction::Observe);
    let offer = g.step(GenEvent::Observed { bitmap: 0, backlog: idle(), now_ns: 77 });
    let GenAction::Offer { target, desc } = offer else { panic!("{offer:?}") };
    assert_eq!(target, 0);
    assert_eq!((desc.conn_id, desc.hash, desc.arrival_ns), (0, 0, 77));
    assert_eq!((desc.service_us, desc.lifetime_ms), (1_000, 150));
    // Another event than the one awaited changes nothing.
    assert_eq!(g.step(GenEvent::Slept), offer);
    assert_eq!(g.step(GenEvent::Offered { accepted: true }), GenAction::ReadClock);

    // The second is due a 250th of a second later.
    let rest = g.step(GenEvent::Clock { elapsed: MILLI });
    assert_eq!(rest, GenAction::Sleep { ns: 3 * MILLI });
    assert_eq!(g.step(GenEvent::Slept), GenAction::Observe);
    let offer = g.step(GenEvent::Observed { bitmap: 0, backlog: idle(), now_ns: 78 });
    let GenAction::Offer { target, desc } = offer else { panic!("{offer:?}") };
    assert_eq!(desc.hash, HASH_FACTOR);
    assert_eq!(target, 1); // low half 0x7f4a7c15
    assert_eq!(g.step(GenEvent::Offered { accepted: false }), GenAction::ReadClock);

    // The third is late: no sleep.
    assert_eq!(g.step(GenEvent::Clock { elapsed: 9 * MILLI }), GenAction::Observe);
    g.step(GenEvent::Observed { bitmap: 0, backlog: idle(), now_ns: 79 });
    assert_eq!(g.step(GenEvent::Offered { accepted: true }), GenAction::Finish);

    let stats = g.stats();
    assert_eq!((stats.generated, stats.dropped), (3, 1));
    assert_eq!(stats.dispatched_per_worker.iter().sum::<u64>(), 3);
    assert_eq!(g.drops(), &vec![0, 1, 0, 0]);
}

#[test]
fn generator_without_duration_is_finished() {
    let cfg = WorkloadConfig { duration: 0, ..WorkloadConfig::default_case() };
    let mut g = Generator::new(cfg, Policy::Hermes, 0);
    assert_eq!(g.wants(), GenAction::Finish);
    assert_eq!(g.step(GenEvent::Slept), GenAction::Finish);
}

#[test]
fn arrivals_are_rounded_one_by_one() {
    assert_eq!(due_time(1, 7), 7 * SECOND);
    assert_eq!(due_time(400, 1), 2_500_000);
    assert_eq!(due_time(30, 1), 33_333_333);
    assert_eq!(due_time(30, 2), 66_666_666);
    assert_eq!(due_time(30, 3), 100_000_000);
    assert_eq!(due_time(30, 120), 4 * SECOND);
    assert_eq!(due_time(999_999, 3_999_996), 4 * SECOND);
    assert_eq!(due_time(999_999, 3_999_995), 3_999_998_999);
    assert_eq!(due_time(4_000_000_000, 5), 1);
    assert_eq!(due_time(1, u64::MAX), u64::MAX as u128 * SECOND);
}

#[test]
fn runs_generate_their_rate_times_their_duration() {
    let profiles = [
        (WorkloadConfig::default_case(), 375),
        (WorkloadConfig::for_case_with_load(WorkloadCase::Case1, LoadLevel::Heavy), 9_000),
        (WorkloadConfig::for_case_with_load(WorkloadCase::Case2, LoadLevel::Medium), 300),
        (WorkloadConfig::for_case_with_load(WorkloadCase::Case3, LoadLevel::Light), 120),
        (WorkloadConfig::for_case_with_load(WorkloadCase::Case3, LoadLevel::Medium), 240),
        (WorkloadConfig::for_case_with_load(WorkloadCase::Case3, LoadLevel::Heavy), 600),
        (WorkloadConfig::for_case_with_load(WorkloadCase::Case4, LoadLevel::Light), 60),
        (WorkloadConfig::for_case(WorkloadCase::Case5), 240),
        // Rates that no profile has, one of them faster than the clock ticks.
        (WorkloadConfig { cps: 999_999, duration: SECOND, ..WorkloadConfig::default_case() }, 999_999),
        (WorkloadConfig { cps: 4_000_000_000, duration: 10, ..WorkloadConfig::default_case() }, 40),
        // A duration that ends between two arrivals.
        (WorkloadConfig { cps: 3, duration: SECOND + 1, ..WorkloadConfig::default_case() }, 4),
    ];
    for (cfg, expected) in profiles {
        let mut g = Generator::new(cfg, Policy::ReuseportHash, 0);
        let mut action = g.wants();
        while action != GenAction::Finish {
            action = g.step(match action {
                GenAction::ReadClock => GenEvent::Clock { elapsed: u128::MAX },
                GenAction::Sleep { .. } => GenEvent::Slept,
                GenAction::Observe => GenEvent::Observed { bitmap: 0, backlog: idle(), now_ns: 1 },
                _ => GenEvent::Offered { accepted: true },
            });
        }
        assert_eq!(g.stats().generated, expected);
    }
}

#[test]
fn generator_follows_the_published_bitmap() {
    let cfg = WorkloadConfig::for_case(WorkloadCase::Case2);
    let mut g = Generator::new(cfg, Policy::Hermes, 9);
    for round in 0..50 {
        while let GenAction::ReadClock = g.wants() {
            g.step(GenEvent::Clock { elapsed: 10 * MILLI * round });
        }
        let offer = g.step(GenEvent::Observed { bitmap: 0b1010, backlog: idle(), now_ns: 1 });
        let GenAction::Offer { target, desc } = offer else { panic!("{offer:?}") };
        assert!(target == 1 || target == 3);
        assert_eq!(desc.hash, synthetic_hash(round as u64, 9));
        assert_eq!(desc.service_us, as_micros32(cfg.service.sample(desc.hash)));
        g.step(GenEvent::Offered { accepted: true });
    }
    assert_eq!(g.stats().generated, 50);
}
