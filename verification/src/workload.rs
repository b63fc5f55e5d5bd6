//! Traffic profiles: how many connections arrive, and what each costs.
//!
//! Durations are whole nanoseconds. Probabilities are thresholds on draws from `0..DRAW_RANGE`: a
//! probability `p` is the least whole number not below `p * DRAW_RANGE`, so that a draw is below
//! the threshold exactly when the draw divided by `DRAW_RANGE` is below `p`.

use crate::scheduler::HANG_THRESHOLD_NS;
use crate::text::same_text;
use vstd::arithmetic::div_mod::{lemma_div_pos_is_pos, lemma_fundamental_div_mod};
use vstd::prelude::*;

verus! {

/// How many values a draw can have.
pub const DRAW_RANGE: u64 = 0x20_0000_0000_0000;

/// A quarter, as a threshold on draws.
pub const ONE_IN_FOUR: u64 = 2_251_799_813_685_248;

/// Three tenths, as a threshold on draws.
pub const THREE_IN_TEN: u64 = 2_702_159_776_422_298;

/// One tenth, as a threshold on draws.
pub const ONE_IN_TEN: u64 = 900_719_925_474_100;

/// Nanoseconds per millisecond.
pub const MILLI: u128 = 1_000_000;

/// Nanoseconds per second.
pub const SECOND: u128 = 1_000_000_000;

/// Per-connection processing time.
#[derive(Debug, Clone, Copy, PartialEq, Eq, Structural)]
pub enum ProcessingTime {
    /// The same for all connections.
    Fixed(u128),
    /// Most connections fast, some slow.
    Bimodal {
        fast: u128,
        slow: u128,
        /// Draws below this are slow.
        slow_below: u64,
    },
}

/// The draw that belongs to a seed: the high bits of one step of a linear congruential generator.
pub open spec fn draw_of(seed: u64) -> int {
    ((seed * 6364136223846793005 + 1442695040888963407) % 0x1_0000_0000_0000_0000) / 2048
}

/// The draw that belongs to a seed.
pub fn draw(seed: u64) -> (d: u64)
    ensures
        d == draw_of(seed),
        d < DRAW_RANGE,
{
    let scaled: u64 = seed.wrapping_mul(6364136223846793005);
    let x: u64 = scaled.wrapping_add(1442695040888963407);
    proof {
        lemma_wrapped_sum(
            seed * 6364136223846793005,
            1442695040888963407,
            scaled as int,
            x as int,
        );
    }
    assert(x >> 11 == x / 2048 && x >> 11 < 0x20_0000_0000_0000) by (bit_vector);
    x >> 11
}

/// Adding to a remainder and wrapping once is the remainder of the sum.
proof fn lemma_wrapped_sum(a: int, c: int, r: int, x: int)
    requires
        r == a % 0x1_0000_0000_0000_0000,
        0 <= c < 0x1_0000_0000_0000_0000,
        x == r + c || x == r + c - 0x1_0000_0000_0000_0000,
        0 <= x < 0x1_0000_0000_0000_0000,
    ensures
        x == (a + c) % 0x1_0000_0000_0000_0000,
{
}

/// The processing time that belongs to a seed.
pub open spec fn sample_of(p: ProcessingTime, seed: u64) -> u128 {
    match p {
        ProcessingTime::Fixed(d) => d,
        ProcessingTime::Bimodal { fast, slow, slow_below } => if draw_of(seed) < slow_below {
            slow
        } else {
            fast
        },
    }
}

impl ProcessingTime {
    /// The processing time that belongs to a seed.
    pub fn sample(&self, seed: u64) -> (d: u128)
        ensures
            d == sample_of(*self, seed),
    {
        match self {
            ProcessingTime::Fixed(d) => *d,
            ProcessingTime::Bimodal { fast, slow, slow_below } => {
                if draw(seed) < *slow_below {
                    *slow
                } else {
                    *fast
                }
            },
        }
    }
}

/// A duration in whole microseconds, cut to 32 bits.
pub open spec fn micros32(ns: u128) -> u32 {
    ((ns as int / 1_000) % 0x1_0000_0000) as u32
}

/// A duration in whole microseconds, cut to 32 bits.
pub fn as_micros32(ns: u128) -> (us: u32)
    ensures
        us == micros32(ns),
{
    ((ns / 1_000) % 0x1_0000_0000) as u32
}

/// A duration in whole milliseconds, cut to 32 bits.
pub open spec fn millis32(ns: u128) -> u32 {
    ((ns as int / 1_000_000) % 0x1_0000_0000) as u32
}

/// A duration in whole milliseconds, cut to 32 bits.
pub fn as_millis32(ns: u128) -> (ms: u32)
    ensures
        ms == millis32(ns),
{
    ((ns / 1_000_000) % 0x1_0000_0000) as u32
}

/// Offered load within a case. It sets the arrival rate only.
#[derive(Debug, Clone, Copy, PartialEq, Eq, Structural)]
pub enum LoadLevel {
    Light,
    Medium,
    Heavy,
}

/// The load level with the given name.
pub open spec fn load_named(s: Seq<char>) -> Option<LoadLevel> {
    if s == "light"@ {
        Some(LoadLevel::Light)
    } else if s == "medium"@ {
        Some(LoadLevel::Medium)
    } else if s == "heavy"@ {
        Some(LoadLevel::Heavy)
    } else {
        None
    }
}

impl LoadLevel {
    /// The load level with the given name.
    pub fn from_str(s: &str) -> (r: Option<LoadLevel>)
        ensures
            r == load_named(s@),
    {
        if same_text(s, "light") {
            Some(LoadLevel::Light)
        } else if same_text(s, "medium") {
            Some(LoadLevel::Medium)
        } else if same_text(s, "heavy") {
            Some(LoadLevel::Heavy)
        } else {
            None
        }
    }

    /// The load level that an environment variable names.
    pub fn from_env_str(s: &str) -> (r: Option<LoadLevel>)
        ensures
            r == load_named(s@),
    {
        Self::from_str(s)
    }
}

/// A traffic scenario.
#[derive(Debug, Clone, Copy, PartialEq, Eq, Structural)]
pub enum WorkloadCase {
    /// Many cheap connections.
    Case1,
    /// Many expensive connections: overload, with an injected hang.
    Case2,
    /// Few cheap connections that stay open.
    Case3,
    /// Few expensive connections.
    Case4,
    /// As the third, then a burst on every open connection.
    Case5,
}

/// The case with the given number.
pub open spec fn case_named(s: Seq<char>) -> Option<WorkloadCase> {
    if s == "1"@ {
        Some(WorkloadCase::Case1)
    } else if s == "2"@ {
        Some(WorkloadCase::Case2)
    } else if s == "3"@ {
        Some(WorkloadCase::Case3)
    } else if s == "4"@ {
        Some(WorkloadCase::Case4)
    } else if s == "5"@ {
        Some(WorkloadCase::Case5)
    } else {
        None
    }
}

impl WorkloadCase {
    /// The case with the given number.
    pub fn from_str(s: &str) -> (r: Option<WorkloadCase>)
        ensures
            r == case_named(s@),
    {
        if same_text(s, "1") {
            Some(WorkloadCase::Case1)
        } else if same_text(s, "2") {
            Some(WorkloadCase::Case2)
        } else if same_text(s, "3") {
            Some(WorkloadCase::Case3)
        } else if same_text(s, "4") {
            Some(WorkloadCase::Case4)
        } else if same_text(s, "5") {
            Some(WorkloadCase::Case5)
        } else {
            None
        }
    }
}

/// A hang injected into one worker.
#[derive(Debug, Clone, Copy, PartialEq, Eq, Structural)]
pub struct HangSpec {
    pub worker_id: usize,
    /// When the hang starts, from the worker's start.
    pub at: u128,
    /// How long the worker stays stuck.
    pub duration: u128,
}

/// A burst: at time `at` every open connection has one more request.
#[derive(Debug, Clone, Copy, PartialEq, Eq, Structural)]
pub struct BurstSpec {
    /// When the burst fires, from the start.
    pub at: u128,
    /// Processing cost of each request of the burst.
    pub service: u128,
}

/// A full traffic profile.
#[derive(Debug, Clone, Copy, PartialEq, Eq, Structural)]
pub struct WorkloadConfig {
    /// New connections per second.
    pub cps: u32,
    /// How long connections arrive.
    pub duration: u128,
    /// Processing cost of each connection.
    pub service: ProcessingTime,
    /// How long each connection stays open after its request.
    pub lifetime: u128,
    pub hang: Option<HangSpec>,
    pub burst: Option<BurstSpec>,
}

/// The profile of each case, at its own arrival rate.
pub open spec fn base_profile(case: WorkloadCase) -> WorkloadConfig {
    match case {
        WorkloadCase::Case1 => WorkloadConfig {
            cps: 400,
            duration: (3 * SECOND) as u128,
            service: ProcessingTime::Fixed(MILLI),
            lifetime: (150 * MILLI) as u128,
            hang: None,
            burst: None,
        },
        WorkloadCase::Case2 => WorkloadConfig {
            cps: 100,
            duration: (4 * SECOND) as u128,
            service: ProcessingTime::Bimodal {
                fast: (10 * MILLI) as u128,
                slow: (150 * MILLI) as u128,
                slow_below: ONE_IN_FOUR,
            },
            lifetime: (200 * MILLI) as u128,
            hang: Some(
                HangSpec {
                    worker_id: 0,
                    at: (1500 * MILLI) as u128,
                    duration: (400 * MILLI) as u128,
                },
            ),
            burst: None,
        },
        WorkloadCase::Case3 => long_lived_profile(),
        WorkloadCase::Case4 => WorkloadConfig {
            cps: 40,
            duration: (4 * SECOND) as u128,
            service: ProcessingTime::Bimodal {
                fast: (20 * MILLI) as u128,
                slow: (200 * MILLI) as u128,
                slow_below: THREE_IN_TEN,
            },
            lifetime: (400 * MILLI) as u128,
            hang: None,
            burst: None,
        },
        WorkloadCase::Case5 => WorkloadConfig {
            burst: Some(
                BurstSpec { at: (2500 * MILLI) as u128, service: (5 * MILLI) as u128 },
            ),
            ..long_lived_profile()
        },
    }
}

/// The profile with long-lived connections, which the third and the last case share.
pub open spec fn long_lived_profile() -> WorkloadConfig {
    WorkloadConfig {
        cps: 60,
        duration: (4 * SECOND) as u128,
        service: ProcessingTime::Fixed((2 * MILLI) as u128),
        lifetime: (60 * SECOND) as u128,
        hang: None,
        burst: None,
    }
}

/// Arrivals per second of each case at each load level. The last case has one level only.
pub open spec fn cps_of(case: WorkloadCase, load: LoadLevel) -> u32 {
    match (case, load) {
        (WorkloadCase::Case1, LoadLevel::Light) => 400,
        (WorkloadCase::Case1, LoadLevel::Medium) => 1600,
        (WorkloadCase::Case1, LoadLevel::Heavy) => 3000,
        (WorkloadCase::Case2, LoadLevel::Light) => 40,
        (WorkloadCase::Case2, LoadLevel::Medium) => 75,
        (WorkloadCase::Case2, LoadLevel::Heavy) => 100,
        (WorkloadCase::Case3, LoadLevel::Light) => 30,
        (WorkloadCase::Case3, LoadLevel::Medium) => 60,
        (WorkloadCase::Case3, LoadLevel::Heavy) => 150,
        (WorkloadCase::Case4, LoadLevel::Light) => 15,
        (WorkloadCase::Case4, LoadLevel::Medium) => 40,
        (WorkloadCase::Case4, LoadLevel::Heavy) => 50,
        (WorkloadCase::Case5, _) => base_profile(WorkloadCase::Case5).cps,
    }
}

/// The load level that a case is described at.
pub open spec fn characteristic(case: WorkloadCase) -> LoadLevel {
    match case {
        WorkloadCase::Case1 => LoadLevel::Light,
        WorkloadCase::Case2 => LoadLevel::Heavy,
        _ => LoadLevel::Medium,
    }
}

/// The profile of a case at a load level.
pub open spec fn profile(case: WorkloadCase, load: LoadLevel) -> WorkloadConfig {
    WorkloadConfig { cps: cps_of(case, load), ..base_profile(case) }
}

/// The mixed profile for quick runs.
pub open spec fn mixed_profile() -> WorkloadConfig {
    WorkloadConfig {
        cps: 150,
        duration: (2500 * MILLI) as u128,
        service: ProcessingTime::Bimodal {
            fast: (2 * MILLI) as u128,
            slow: (40 * MILLI) as u128,
            slow_below: ONE_IN_TEN,
        },
        lifetime: (250 * MILLI) as u128,
        hang: None,
        burst: None,
    }
}

/// Whether a profile is one of the cases at some load level, or the mixed one.
pub open spec fn is_profile(cfg: WorkloadConfig) -> bool {
    ||| cfg == mixed_profile()
    ||| exists|case: WorkloadCase, load: LoadLevel| cfg == #[trigger] profile(case, load)
}

/// When arrival number `n` of `cps` arrivals per second is due, from the start, in whole nanoseconds.
/// Each arrival is rounded by itself, so rounding does not add up.
pub open spec fn due_at(cps: u32, n: int) -> int {
    n * SECOND / (cps as int)
}

/// When arrival number `n` of `cps` arrivals per second is due, from the start, in nanoseconds.
pub fn due_time(cps: u32, n: u64) -> (ns: u128)
    requires
        cps > 0,
    ensures
        ns == due_at(cps, n as int),
{
    n as u128 * SECOND / (cps as u128)
}

/// Which arrivals are due within a duration: those whose number is less than the duration times the
/// rate.
pub proof fn law_due_within_duration(cps: u32, n: int, duration: u128)
    requires
        cps > 0,
        n >= 0,
    ensures
        due_at(cps, n) >= 0,
        due_at(cps, n) < duration <==> n * SECOND < cps * duration,
{
    let c = cps as int;
    let d = duration as int;
    let q = due_at(cps, n);
    lemma_fundamental_div_mod(n * SECOND, c);
    lemma_div_pos_is_pos(n * SECOND, c);
    if q < d {
        assert(c * q + c <= c * d) by (nonlinear_arith)
            requires
                q + 1 <= d,
                c > 0,
        ;
    } else {
        assert(c * q >= c * d) by (nonlinear_arith)
            requires
                q >= d,
                c > 0,
        ;
    }
}

/// Every profile runs for a whole number of arrivals.
pub proof fn lemma_profiles_fill_duration(cfg: WorkloadConfig)
    requires
        is_profile(cfg),
    ensures
        cfg.cps > 0,
        (cfg.cps * cfg.duration / SECOND as int) * SECOND == cfg.cps * cfg.duration,
        cfg.cps * cfg.duration <= 9000 * SECOND,
{
    let c = cfg.cps as int;
    if cfg == mixed_profile() {
        assert(c * cfg.duration == c * 2_500_000_000) by (nonlinear_arith)
            requires
                cfg.duration == 2_500_000_000,
        ;
    } else if cfg.duration == 3_000_000_000 {
        assert(c * cfg.duration == c * 3_000_000_000) by (nonlinear_arith)
            requires
                cfg.duration == 3_000_000_000,
        ;
    } else {
        lemma_four_seconds(cfg);
    }
}

/// How many connections a profile that runs for four seconds has.
pub proof fn lemma_four_seconds(cfg: WorkloadConfig)
    requires
        cfg.duration == 4 * SECOND,
    ensures
        cfg.cps * cfg.duration == 4 * cfg.cps * SECOND,
{
    let c = cfg.cps as int;
    assert(c * cfg.duration == c * 4_000_000_000) by (nonlinear_arith)
        requires
            cfg.duration == 4_000_000_000,
    ;
}

impl WorkloadConfig {
    /// The profile of a case at its characteristic load level.
    pub fn for_case(case: WorkloadCase) -> (c: WorkloadConfig)
        ensures
            c == profile(case, characteristic(case)),
    {
        let level: LoadLevel = match case {
            WorkloadCase::Case1 => LoadLevel::Light,
            WorkloadCase::Case2 => LoadLevel::Heavy,
            _ => LoadLevel::Medium,
        };
        Self::for_case_with_load(case, level)
    }

    /// The profile of a case at a load level.
    pub fn for_case_with_load(case: WorkloadCase, load: LoadLevel) -> (c: WorkloadConfig)
        ensures
            c == profile(case, load),
    {
        let mut config: WorkloadConfig = Self::base_case(case);
        config.cps = match case {
            WorkloadCase::Case1 => match load {
                LoadLevel::Light => 400,
                LoadLevel::Medium => 1600,
                LoadLevel::Heavy => 3000,
            },
            WorkloadCase::Case2 => match load {
                LoadLevel::Light => 40,
                LoadLevel::Medium => 75,
                LoadLevel::Heavy => 100,
            },
            WorkloadCase::Case3 => match load {
                LoadLevel::Light => 30,
                LoadLevel::Medium => 60,
                LoadLevel::Heavy => 150,
            },
            WorkloadCase::Case4 => match load {
                LoadLevel::Light => 15,
                LoadLevel::Medium => 40,
                LoadLevel::Heavy => 50,
            },
            WorkloadCase::Case5 => config.cps,
        };
        config
    }

    /// The profile of a case, at its own arrival rate.
    pub fn base_case(case: WorkloadCase) -> (c: WorkloadConfig)
        ensures
            c == base_profile(case),
    {
        match case {
            WorkloadCase::Case1 => WorkloadConfig {
                cps: 400,
                duration: 3 * SECOND,
                service: ProcessingTime::Fixed(MILLI),
                lifetime: 150 * MILLI,
                hang: None,
                burst: None,
            },
            WorkloadCase::Case2 => WorkloadConfig {
                cps: 100,
                duration: 4 * SECOND,
                service: ProcessingTime::Bimodal {
                    fast: 10 * MILLI,
                    slow: 150 * MILLI,
                    slow_below: ONE_IN_FOUR,
                },
                lifetime: 200 * MILLI,
                hang: Some(HangSpec { worker_id: 0, at: 1500 * MILLI, duration: 400 * MILLI }),
                burst: None,
            },
            WorkloadCase::Case3 => WorkloadConfig {
                cps: 60,
                duration: 4 * SECOND,
                service: ProcessingTime::Fixed(2 * MILLI),
                lifetime: 60 * SECOND,
                hang: None,
                burst: None,
            },
            WorkloadCase::Case4 => WorkloadConfig {
                cps: 40,
                duration: 4 * SECOND,
                service: ProcessingTime::Bimodal {
                    fast: 20 * MILLI,
                    slow: 200 * MILLI,
                    slow_below: THREE_IN_TEN,
                },
                lifetime: 400 * MILLI,
                hang: None,
                burst: None,
            },
            WorkloadCase::Case5 => WorkloadConfig {
                cps: 60,
                duration: 4 * SECOND,
                service: ProcessingTime::Fixed(2 * MILLI),
                lifetime: 60 * SECOND,
                hang: None,
                burst: Some(BurstSpec { at: 2500 * MILLI, service: 5 * MILLI }),
            },
        }
    }

    /// The mixed profile for quick runs.
    pub fn default_case() -> (c: WorkloadConfig)
        ensures
            c == mixed_profile(),
    {
        WorkloadConfig {
            cps: 150,
            duration: 2500 * MILLI,
            service: ProcessingTime::Bimodal {
                fast: 2 * MILLI,
                slow: 40 * MILLI,
                slow_below: ONE_IN_TEN,
            },
            lifetime: 250 * MILLI,
            hang: None,
            burst: None,
        }
    }
}

/// The profile that a simulation runs: the named case, at the named load level or else its
/// characteristic one; the mixed profile where the name is no case.
pub open spec fn simulation_profile(case: Seq<char>, load: Option<Seq<char>>) -> WorkloadConfig {
    match case_named(case) {
        None => mixed_profile(),
        Some(c) => match load {
            None => profile(c, characteristic(c)),
            Some(l) => match load_named(l) {
                None => profile(c, characteristic(c)),
                Some(level) => profile(c, level),
            },
        },
    }
}

/// The profile that a simulation runs with the given settings.
pub fn simulation_config(case: &str, load: Option<&str>) -> (c: WorkloadConfig)
    ensures
        c == simulation_profile(
            case@,
            match load {
                Some(l) => Some(l@),
                None => None,
            },
        ),
{
    match WorkloadCase::from_str(case) {
        None => WorkloadConfig::default_case(),
        Some(c) => match load {
            None => WorkloadConfig::for_case(c),
            Some(l) => match LoadLevel::from_env_str(l) {
                None => WorkloadConfig::for_case(c),
                Some(level) => WorkloadConfig::for_case_with_load(c, level),
            },
        },
    }
}

/// Why no profile belongs to the given settings.
#[derive(Debug, Clone, Copy, PartialEq, Eq, Structural)]
pub enum ConfigError {
    UnknownCase,
    UnknownLoad,
}

/// The profile that the load generator runs: the mixed one where no case is named; otherwise the
/// named case at the named load level, or at its characteristic one where none is named.
pub open spec fn bench_profile(
    case: Option<Seq<char>>,
    load: Option<Seq<char>>,
) -> Result<WorkloadConfig, ConfigError> {
    match case {
        None => Ok(mixed_profile()),
        Some(name) => match case_named(name) {
            None => Err(ConfigError::UnknownCase),
            Some(c) => match load {
                None => Ok(profile(c, characteristic(c))),
                Some(l) => match load_named(l) {
                    None => Err(ConfigError::UnknownLoad),
                    Some(level) => Ok(profile(c, level)),
                },
            },
        },
    }
}

/// The profile that the load generator runs with the given settings.
pub fn bench_config(case: Option<&str>, load: Option<&str>) -> (r: Result<
    WorkloadConfig,
    ConfigError,
>)
    ensures
        r == bench_profile(
            match case {
                Some(c) => Some(c@),
                None => None,
            },
            match load {
                Some(l) => Some(l@),
                None => None,
            },
        ),
{
    match case {
        None => Ok(WorkloadConfig::default_case()),
        Some(name) => match WorkloadCase::from_str(name) {
            None => Err(ConfigError::UnknownCase),
            Some(c) => match load {
                None => Ok(WorkloadConfig::for_case(c)),
                Some(l) => match LoadLevel::from_str(l) {
                    None => Err(ConfigError::UnknownLoad),
                    Some(level) => Ok(WorkloadConfig::for_case_with_load(c, level)),
                },
            },
        },
    }
}

/// A load level changes the arrival rate of a case and nothing else.
pub proof fn law_load_sets_rate_only(case: WorkloadCase, a: LoadLevel, b: LoadLevel)
    ensures
        profile(case, a).duration == profile(case, b).duration,
        profile(case, a).service == profile(case, b).service,
        profile(case, a).lifetime == profile(case, b).lifetime,
        profile(case, a).hang == profile(case, b).hang,
        profile(case, a).burst == profile(case, b).burst,
{
}

/// The base profile of every case is the one at its characteristic load level.
pub proof fn law_base_is_characteristic(case: WorkloadCase)
    ensures
        profile(case, characteristic(case)) == base_profile(case),
{
}

/// The load levels of a case ascend, but for the last case, which has one only.
pub proof fn law_levels_ascend(case: WorkloadCase)
    ensures
        case != WorkloadCase::Case5 ==> cps_of(case, LoadLevel::Light) < cps_of(
            case,
            LoadLevel::Medium,
        ) < cps_of(case, LoadLevel::Heavy),
        case == WorkloadCase::Case5 ==> cps_of(case, LoadLevel::Light) == cps_of(
            case,
            LoadLevel::Heavy,
        ) == cps_of(case, LoadLevel::Medium),
{
}

/// An injected hang is long enough for the scheduler to see it.
pub proof fn law_hangs_are_detectable(case: WorkloadCase, load: LoadLevel)
    ensures
        profile(case, load).hang matches Some(h) ==> h.duration > HANG_THRESHOLD_NS && h.at
            + h.duration < profile(case, load).duration,
{
}

/// A burst fires while connections still arrive, and no connection of its case closes before.
pub proof fn law_bursts_find_connections_open(case: WorkloadCase, load: LoadLevel)
    ensures
        profile(case, load).burst matches Some(b) ==> b.at < profile(case, load).duration && b.at
            < profile(case, load).lifetime,
{
}

/// A threshold of `p` draws out of all is met by exactly the draws below it, whatever the seed: a
/// bimodal time is slow for these and fast for the others.
pub proof fn law_sample_is_slow_or_fast(fast: u128, slow: u128, slow_below: u64, seed: u64)
    ensures
        0 <= draw_of(seed) < DRAW_RANGE,
        draw_of(seed) < slow_below ==> sample_of(
            ProcessingTime::Bimodal { fast, slow, slow_below },
            seed,
        ) == slow,
        draw_of(seed) >= slow_below ==> sample_of(
            ProcessingTime::Bimodal { fast, slow, slow_below },
            seed,
        ) == fast,
{
}

/// The draw that belongs to a seed is the upper 53 bits of a 64-bit number: multiplier times seed
/// plus increment, wrapped.
pub proof fn law_draw_is_upper_bits(seed: u64)
    ensures
        2048 * draw_of(seed) <= (seed * 6364136223846793005 + 1442695040888963407)
            % 0x1_0000_0000_0000_0000,
        (seed * 6364136223846793005 + 1442695040888963407) % 0x1_0000_0000_0000_0000 < 2048 * (
        draw_of(seed) + 1),
        0 <= draw_of(seed) < 0x20_0000_0000_0000,
{
}

/// Durations in whole units, cut to 32 bits: one that fits is the number of full units in it, and
/// `2^32` units more change nothing.
pub proof fn law_units_are_whole(ns: u128)
    ensures
        ns < 0x1_0000_0000 * 1_000 ==> 1_000 * micros32(ns) <= ns < 1_000 * (micros32(ns) + 1),
        ns < 0x1_0000_0000 * 1_000_000 ==> 1_000_000 * millis32(ns) <= ns < 1_000_000 * (millis32(
            ns,
        ) + 1),
        ns + 0x1_0000_0000 * 1_000 <= u128::MAX ==> micros32(
            (ns + 0x1_0000_0000 * 1_000) as u128,
        ) == micros32(ns),
        ns + 0x1_0000_0000 * 1_000_000 <= u128::MAX ==> millis32(
            (ns + 0x1_0000_0000 * 1_000_000) as u128,
        ) == millis32(ns),
{
}

/// Arrivals are evenly spaced: number `n` is due `n` shares of a second after the start, rounded
/// down to the nanosecond, and `cps` arrivals later exactly a second has passed.
pub proof fn law_arrivals_are_evenly_spaced(cps: u32, n: int)
    requires
        cps > 0,
        n >= 0,
    ensures
        cps * due_at(cps, n) <= n * 1_000_000_000 < cps * (due_at(cps, n) + 1),
        due_at(cps, n + cps) == due_at(cps, n) + 1_000_000_000,
        due_at(cps, 0) == 0,
{
    let c = cps as int;
    let q = due_at(cps, n);
    let r = due_at(cps, n + cps);
    lemma_fundamental_div_mod(n * SECOND, c);
    lemma_fundamental_div_mod((n + c) * SECOND, c);
    assert(c * (q + 1) == c * q + c) by (nonlinear_arith);
    assert(c * (r + 1) == c * r + c) by (nonlinear_arith);
    assert(r == q + 1_000_000_000) by (nonlinear_arith)
        requires
            c > 0,
            c * q <= n * 1_000_000_000,
            n * 1_000_000_000 < c * q + c,
            c * r <= (n + c) * 1_000_000_000,
            (n + c) * 1_000_000_000 < c * r + c,
    ;
    assert(0 * SECOND == 0);
    assert(due_at(cps, 0) == 0int / c);
    assert(0int / c == 0) by (nonlinear_arith)
        requires
            c > 0,
    ;
}

/// Cases and load levels have one name each, and no other text names one.
pub proof fn law_settings_have_one_name(s: Seq<char>)
    ensures
        case_named("1"@) == Some(WorkloadCase::Case1),
        case_named("2"@) == Some(WorkloadCase::Case2),
        case_named("3"@) == Some(WorkloadCase::Case3),
        case_named("4"@) == Some(WorkloadCase::Case4),
        case_named("5"@) == Some(WorkloadCase::Case5),
        case_named(s).is_some() ==> s.len() == 1 && '1' <= s[0] <= '5',
        load_named("light"@) == Some(LoadLevel::Light),
        load_named("medium"@) == Some(LoadLevel::Medium),
        load_named("heavy"@) == Some(LoadLevel::Heavy),
        load_named(s).is_some() ==> s == "light"@ || s == "medium"@ || s == "heavy"@,
{
    reveal_strlit("1");
    reveal_strlit("2");
    reveal_strlit("3");
    reveal_strlit("4");
    reveal_strlit("5");
    reveal_strlit("light");
    reveal_strlit("medium");
    reveal_strlit("heavy");
    assert("1"@[0] == '1' && "2"@[0] == '2' && "3"@[0] == '3' && "4"@[0] == '4' && "5"@[0] == '5');
    assert("light"@.len() == 5 && "medium"@.len() == 6 && "heavy"@.len() == 5);
    assert("light"@[0] == 'l' && "heavy"@[0] == 'h');
}

/// What each case is made of, in milliseconds: how long connections arrive and stay open, what they
/// cost, and the hang or burst. Slow connections are a quarter, three tenths and a tenth of all.
pub proof fn law_what_the_cases_are(load: LoadLevel)
    ensures
        ({
            let p = profile(WorkloadCase::Case1, load);
            &&& p.duration == 3_000 * 1_000_000
            &&& p.lifetime == 150 * 1_000_000
            &&& p.service == ProcessingTime::Fixed(1_000_000)
            &&& p.hang.is_none() && p.burst.is_none()
        }),
        ({
            let p = profile(WorkloadCase::Case2, load);
            &&& p.duration == 4_000 * 1_000_000
            &&& p.lifetime == 200 * 1_000_000
            &&& p.service matches ProcessingTime::Bimodal { fast, slow, slow_below } && fast == 10
                * 1_000_000 && slow == 150 * 1_000_000 && 4 * slow_below == 0x20_0000_0000_0000
            &&& p.hang matches Some(h) && h.worker_id == 0 && h.at == 1_500 * 1_000_000
                && h.duration == 400 * 1_000_000
            &&& p.burst.is_none()
        }),
        ({
            let p = profile(WorkloadCase::Case3, load);
            &&& p.duration == 4_000 * 1_000_000
            &&& p.lifetime == 60_000 * 1_000_000
            &&& p.service == ProcessingTime::Fixed(2_000_000)
            &&& p.hang.is_none() && p.burst.is_none()
        }),
        ({
            let p = profile(WorkloadCase::Case4, load);
            &&& p.duration == 4_000 * 1_000_000
            &&& p.lifetime == 400 * 1_000_000
            &&& p.service matches ProcessingTime::Bimodal { fast, slow, slow_below } && fast == 20
                * 1_000_000 && slow == 200 * 1_000_000 && 10 * (slow_below - 1) < 3
                * 0x20_0000_0000_0000 <= 10 * slow_below
            &&& p.hang.is_none() && p.burst.is_none()
        }),
        ({
            let p = profile(WorkloadCase::Case5, load);
            &&& p.duration == profile(WorkloadCase::Case3, load).duration
            &&& p.lifetime == profile(WorkloadCase::Case3, load).lifetime
            &&& p.service == profile(WorkloadCase::Case3, load).service
            &&& p.hang.is_none()
            &&& p.burst matches Some(b) && b.at == 2_500 * 1_000_000 && b.service == 5 * 1_000_000
        }),
        ({
            let p = mixed_profile();
            &&& p.cps == 150
            &&& p.duration == 2_500 * 1_000_000
            &&& p.lifetime == 250 * 1_000_000
            &&& p.service matches ProcessingTime::Bimodal { fast, slow, slow_below } && fast == 2
                * 1_000_000 && slow == 40 * 1_000_000 && 10 * (slow_below - 1)
                < 0x20_0000_0000_0000 <= 10 * slow_below
            &&& p.hang.is_none() && p.burst.is_none()
        }),
{
}

/// How many connections each case offers per second, light, medium and heavy.
pub proof fn law_rates_of_the_cases(load: LoadLevel)
    ensures
        profile(WorkloadCase::Case1, LoadLevel::Light).cps == 400,
        profile(WorkloadCase::Case1, LoadLevel::Medium).cps == 4 * 400,
        profile(WorkloadCase::Case1, LoadLevel::Heavy).cps == 3_000,
        profile(WorkloadCase::Case2, LoadLevel::Light).cps == 40,
        profile(WorkloadCase::Case2, LoadLevel::Medium).cps == 75,
        profile(WorkloadCase::Case2, LoadLevel::Heavy).cps == 100,
        profile(WorkloadCase::Case3, LoadLevel::Light).cps == 30,
        profile(WorkloadCase::Case3, LoadLevel::Medium).cps == 60,
        profile(WorkloadCase::Case3, LoadLevel::Heavy).cps == 150,
        profile(WorkloadCase::Case4, LoadLevel::Light).cps == 15,
        profile(WorkloadCase::Case4, LoadLevel::Medium).cps == 40,
        profile(WorkloadCase::Case4, LoadLevel::Heavy).cps == 50,
        profile(WorkloadCase::Case5, load).cps == 60,
{
}

/// Which profile the settings select. A simulation runs the mixed one where the name is no case, and
/// the characteristic level where the load is no level; the load generator refuses both.
pub proof fn law_settings_select_profiles(
    name: Seq<char>,
    case: WorkloadCase,
    level_name: Seq<char>,
    level: LoadLevel,
    load: Option<Seq<char>>,
)
    ensures
        case_named(name) == Some(case) && load_named(level_name) == Some(level)
            ==> simulation_profile(name, Some(level_name)) == profile(case, level) && bench_profile(
            Some(name),
            Some(level_name),
        ) == Ok::<WorkloadConfig, ConfigError>(profile(case, level)),
        case_named(name) == Some(case) && load_named(level_name).is_none() ==> simulation_profile(
            name,
            Some(level_name),
        ) == base_profile(case) && bench_profile(Some(name), Some(level_name)) == Err::<
            WorkloadConfig,
            ConfigError,
        >(ConfigError::UnknownLoad),
        case_named(name) == Some(case) ==> simulation_profile(name, None) == base_profile(case)
            && bench_profile(Some(name), None) == Ok::<WorkloadConfig, ConfigError>(
            base_profile(case),
        ),
        case_named(name).is_none() ==> simulation_profile(name, load) == mixed_profile()
            && bench_profile(Some(name), load) == Err::<WorkloadConfig, ConfigError>(
            ConfigError::UnknownCase,
        ),
        bench_profile(None, load) == Ok::<WorkloadConfig, ConfigError>(mixed_profile()),
{
}

/// A fixed processing time is that of every connection.
pub proof fn law_fixed_time_is_fixed(d: u128, seed: u64)
    ensures
        sample_of(ProcessingTime::Fixed(d), seed) == d,
{
}

} // verus!
