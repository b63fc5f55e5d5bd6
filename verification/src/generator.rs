//! The arrival of connections: pacing, the synthetic hash, and handing each connection to a worker.
//!
//! The generator alternates between decisions and outside work. `Generator::step` takes the outcome
//! of the last piece of outside work and says what to do next.

use crate::dispatcher::{choice_of, law_choice_is_unique, lemma_some_choice, pick_worker, Backlog};
use crate::policy::Policy;
use crate::shm::ConnDesc;
use crate::text::{chars_of, parse_unsigned, unsigned_of};
use crate::workload::{due_at, due_time, is_profile, law_due_within_duration};
use crate::workload::{as_micros32, as_millis32, micros32, millis32, sample_of, WorkloadConfig};
use crate::workload::{lemma_four_seconds, lemma_profiles_fill_duration, profile};
use crate::workload::{LoadLevel, WorkloadCase, SECOND};
use crate::wst::NUM_WORKERS;
use vstd::arithmetic::div_mod::{lemma_mul_mod_noop_left, lemma_mul_mod_noop_right, lemma_small_mod};
use vstd::prelude::*;

verus! {

/// Spreads the trial number over all bits.
pub const SEED_FACTOR: u64 = 0xff51_afd7_ed55_8ccd;

/// Spreads consecutive connection numbers over all bits.
pub const HASH_FACTOR: u64 = 0x9e37_79b9_7f4a_7c15;

/// The product of two numbers, cut to 64 bits.
pub open spec fn product64(a: u64, b: u64) -> u64 {
    ((a as int * b as int) % 0x1_0000_0000_0000_0000) as u64
}

/// The hash of connection `conn_id` in trial `seed`.
pub open spec fn hash_of(conn_id: u64, seed: u64) -> u64 {
    product64(conn_id ^ product64(seed, SEED_FACTOR), HASH_FACTOR)
}

/// The hash of connection `conn_id` in trial `seed`.
pub fn synthetic_hash(conn_id: u64, seed: u64) -> (hash: u64)
    ensures
        hash == hash_of(conn_id, seed),
{
    let scrambled: u64 = seed.wrapping_mul(SEED_FACTOR);
    (conn_id ^ scrambled).wrapping_mul(HASH_FACTOR)
}

/// The trial number that a setting names; zero where it is missing or no number.
pub open spec fn seed_of(setting: Option<Seq<char>>) -> int {
    match setting {
        Some(s) => match unsigned_of(s, u64::MAX as int) {
            Some(n) => n,
            None => 0,
        },
        None => 0,
    }
}

/// The trial number that a setting names.
pub fn parse_seed(setting: Option<&str>) -> (seed: u64)
    ensures
        seed == seed_of(
            match setting {
                Some(s) => Some(s@),
                None => None,
            },
        ),
{
    match setting {
        Some(s) => match parse_unsigned(&chars_of(s), u64::MAX) {
            Some(n) => n,
            None => 0,
        },
        None => 0,
    }
}

/// The outcome of one run.
#[derive(Debug, PartialEq, Eq)]
pub struct GenStats {
    pub generated: u64,
    pub dropped: u64,
    /// Connections handed to each worker, those it refused among them.
    pub dispatched_per_worker: Vec<u64>,
}

/// What the generator waits for.
#[derive(Debug, Clone, Copy, PartialEq, Eq, Structural)]
pub enum GenPhase {
    /// The time since the start.
    Pacing,
    /// The end of a sleep.
    Waiting { ns: u128 },
    /// What the workers look like.
    Observing,
    /// Whether a worker's queue took a connection.
    Offering { target: usize, desc: ConnDesc },
    /// Nothing: all connections have arrived.
    Finished,
}

/// What the generator asks for.
#[derive(Debug, Clone, Copy, PartialEq, Eq, Structural)]
pub enum GenAction {
    /// Read the clock.
    ReadClock,
    /// Sleep.
    Sleep { ns: u128 },
    /// Read the published bitmap, the workers' backlogs and the clock.
    Observe,
    /// Push a connection to a worker's queue.
    Offer { target: usize, desc: ConnDesc },
    /// Ask the workers to stop.
    Finish,
}

/// The outcome of what the generator asked for.
#[derive(Debug, Clone, Copy)]
pub enum GenEvent {
    /// The time since the start.
    Clock { elapsed: u128 },
    Slept,
    /// The published bitmap, the backlogs and the monotonic time.
    Observed { bitmap: u64, backlog: Backlog, now_ns: i64 },
    Offered { accepted: bool },
}

/// The state of a generator.
#[verifier::ext_equal]
pub struct GenState {
    pub cfg: WorkloadConfig,
    pub policy: Policy,
    pub seed: u64,
    pub phase: GenPhase,
    /// When the next connection arrives, from the start.
    pub next_arrival: int,
    pub generated: int,
    pub dropped: int,
    pub dispatched: Seq<u64>,
    pub drops: Seq<u64>,
}

/// The phase in which the next connection is awaited.
pub open spec fn next_phase(next_arrival: int, duration: u128) -> GenPhase {
    if next_arrival < duration {
        GenPhase::Pacing
    } else {
        GenPhase::Finished
    }
}

/// The state before the first connection.
pub open spec fn gen_start(cfg: WorkloadConfig, policy: Policy, seed: u64) -> GenState {
    GenState {
        cfg,
        policy,
        seed,
        phase: next_phase(0, cfg.duration),
        next_arrival: 0,
        generated: 0,
        dropped: 0,
        dispatched: Seq::new(NUM_WORKERS as nat, |i: int| 0u64),
        drops: Seq::new(NUM_WORKERS as nat, |i: int| 0u64),
    }
}

/// What a state asks for.
pub open spec fn gen_wants(s: GenState) -> GenAction {
    match s.phase {
        GenPhase::Pacing => GenAction::ReadClock,
        GenPhase::Waiting { ns } => GenAction::Sleep { ns },
        GenPhase::Observing => GenAction::Observe,
        GenPhase::Offering { target, desc } => GenAction::Offer { target, desc },
        GenPhase::Finished => GenAction::Finish,
    }
}

/// The connection that arrives next.
pub open spec fn next_desc(s: GenState, now_ns: i64) -> ConnDesc {
    let hash = hash_of(s.generated as u64, s.seed);
    ConnDesc {
        conn_id: s.generated as u64,
        hash,
        arrival_ns: now_ns,
        service_us: micros32(sample_of(s.cfg.service, hash)),
        lifetime_ms: millis32(s.cfg.lifetime),
    }
}

/// One more in the place of `target`.
pub open spec fn one_more(counts: Seq<u64>, target: int) -> Seq<u64> {
    counts.update(target, (counts[target] + 1) as u64)
}

/// The state after an event. An event that the state does not wait for changes nothing.
pub open spec fn gen_after(s: GenState, e: GenEvent) -> GenState {
    match (s.phase, e) {
        (GenPhase::Pacing, GenEvent::Clock { elapsed }) => GenState {
            phase: if s.next_arrival > elapsed {
                GenPhase::Waiting { ns: (s.next_arrival - elapsed) as u128 }
            } else {
                GenPhase::Observing
            },
            ..s
        },
        (GenPhase::Waiting { .. }, GenEvent::Slept) => GenState { phase: GenPhase::Observing, ..s },
        (GenPhase::Observing, GenEvent::Observed { bitmap, backlog, now_ns }) => GenState {
            phase: GenPhase::Offering {
                target: choice_of(
                    s.policy,
                    bitmap,
                    backlog.lens(),
                    backlog.pending(),
                    next_desc(s, now_ns).hash,
                ) as usize,
                desc: next_desc(s, now_ns),
            },
            ..s
        },
        (GenPhase::Offering { target, .. }, GenEvent::Offered { accepted }) => GenState {
            phase: next_phase(due_at(s.cfg.cps, s.generated + 1), s.cfg.duration),
            next_arrival: due_at(s.cfg.cps, s.generated + 1),
            generated: s.generated + 1,
            dropped: if accepted {
                s.dropped
            } else {
                s.dropped + 1
            },
            dispatched: one_more(s.dispatched, target as int),
            drops: if accepted {
                s.drops
            } else {
                one_more(s.drops, target as int)
            },
            ..s
        },
        _ => s,
    }
}

/// Whether connections arrive at all, and their number fits its type.
pub open spec fn runnable(cfg: WorkloadConfig) -> bool {
    &&& cfg.cps > 0
    &&& cfg.cps * cfg.duration <= u64::MAX * SECOND
}

/// The sum of a list of counts.
pub open spec fn total(counts: Seq<u64>) -> int
    decreases counts.len(),
{
    if counts.len() == 0 {
        0
    } else {
        total(counts.drop_last()) + counts.last()
    }
}

/// What holds of a run at any time: every connection is counted once, for the worker it was
/// handed to, and every refused one among the drops of that worker.
pub open spec fn gen_inv(s: GenState) -> bool {
    &&& runnable(s.cfg)
    &&& s.dispatched.len() == NUM_WORKERS
    &&& s.drops.len() == NUM_WORKERS
    &&& 0 <= s.generated <= u64::MAX
    &&& s.next_arrival == due_at(s.cfg.cps, s.generated)
    &&& s.generated > 0 ==> due_at(s.cfg.cps, s.generated - 1) < s.cfg.duration
    &&& s.phase == GenPhase::Finished <==> s.next_arrival >= s.cfg.duration
    &&& total(s.dispatched) == s.generated
    &&& total(s.drops) == s.dropped
    &&& forall|i: int|
        0 <= i < NUM_WORKERS ==> (#[trigger] s.drops[i]) <= s.dispatched[i]
            && s.dispatched[i] <= s.generated
    &&& s.phase matches GenPhase::Offering { target, .. } ==> target < NUM_WORKERS
}

/// The generator of one run.
#[derive(Debug)]
pub struct Generator {
    cfg: WorkloadConfig,
    policy: Policy,
    seed: u64,
    phase: GenPhase,
    next_arrival: u128,
    stats: GenStats,
    drops: Vec<u64>,
}

impl View for Generator {
    type V = GenState;

    closed spec fn view(&self) -> GenState {
        GenState {
            cfg: self.cfg,
            policy: self.policy,
            seed: self.seed,
            phase: self.phase,
            next_arrival: self.next_arrival as int,
            generated: self.stats.generated as int,
            dropped: self.stats.dropped as int,
            dispatched: self.stats.dispatched_per_worker@,
            drops: self.drops@,
        }
    }
}

impl Generator {
    /// A generator for the profile `cfg`.
    pub fn new(cfg: WorkloadConfig, policy: Policy, seed: u64) -> (g: Generator)
        requires
            runnable(cfg),
        ensures
            g@ == gen_start(cfg, policy, seed),
            gen_inv(g@),
    {
        let mut dispatched_per_worker: Vec<u64> = Vec::new();
        let mut drops: Vec<u64> = Vec::new();
        let mut i: usize = 0;
        assert(total(dispatched_per_worker@) == 0);
        while i < NUM_WORKERS
            invariant
                i <= NUM_WORKERS,
                dispatched_per_worker@ == Seq::new(i as nat, |k: int| 0u64),
                drops@ == Seq::new(i as nat, |k: int| 0u64),
                total(dispatched_per_worker@) == 0,
                total(drops@) == 0,
            decreases NUM_WORKERS - i,
        {
            let ghost zeros = drops@;
            dispatched_per_worker.push(0);
            drops.push(0);
            i = i + 1;
            assert(drops@.drop_last() =~= zeros);
            assert(dispatched_per_worker@.drop_last() =~= zeros);
            assert(dispatched_per_worker@ =~= Seq::new(i as nat, |k: int| 0u64));
            assert(drops@ =~= Seq::new(i as nat, |k: int| 0u64));
        }
        let phase: GenPhase = if 0 < cfg.duration {
            GenPhase::Pacing
        } else {
            GenPhase::Finished
        };
        let g: Generator = Generator {
            cfg,
            policy,
            seed,
            phase,
            next_arrival: 0,
            stats: GenStats { generated: 0, dropped: 0, dispatched_per_worker },
            drops,
        };
        assert(g@ =~= gen_start(cfg, policy, seed));
        g
    }

    /// What the generator asks for now.
    pub fn wants(&self) -> (a: GenAction)
        ensures
            a == gen_wants(self@),
    {
        match self.phase {
            GenPhase::Pacing => GenAction::ReadClock,
            GenPhase::Waiting { ns } => GenAction::Sleep { ns },
            GenPhase::Observing => GenAction::Observe,
            GenPhase::Offering { target, desc } => GenAction::Offer { target, desc },
            GenPhase::Finished => GenAction::Finish,
        }
    }

    /// Takes the outcome of what was asked for and says what is next.
    pub fn step(&mut self, event: GenEvent) -> (a: GenAction)
        requires
            gen_inv(old(self)@),
        ensures
            final(self)@ == gen_after(old(self)@, event),
            gen_inv(final(self)@),
            a == gen_wants(final(self)@),
    {
        let ghost before = self@;
        proof {
            law_generator_accounts(before, event);
        }
        match (self.phase, event) {
            (GenPhase::Pacing, GenEvent::Clock { elapsed }) => {
                self.phase = if self.next_arrival > elapsed {
                    GenPhase::Waiting { ns: self.next_arrival - elapsed }
                } else {
                    GenPhase::Observing
                };
            },
            (GenPhase::Waiting { .. }, GenEvent::Slept) => {
                self.phase = GenPhase::Observing;
            },
            (GenPhase::Observing, GenEvent::Observed { bitmap, backlog, now_ns }) => {
                let conn_id: u64 = self.stats.generated;
                let hash: u64 = synthetic_hash(conn_id, self.seed);
                let service: u128 = self.cfg.service.sample(hash);
                let target: usize = pick_worker(self.policy, bitmap, &backlog, hash);
                proof {
                    law_choice_is_unique(
                        target as int,
                        self.policy,
                        bitmap,
                        backlog.lens(),
                        backlog.pending(),
                        hash,
                    );
                }
                let desc: ConnDesc = ConnDesc {
                    conn_id,
                    hash,
                    arrival_ns: now_ns,
                    service_us: as_micros32(service),
                    lifetime_ms: as_millis32(self.cfg.lifetime),
                };
                self.phase = GenPhase::Offering { target, desc };
            },
            (GenPhase::Offering { target, .. }, GenEvent::Offered { accepted }) => {
                proof {
                    lemma_room_for_one_more(before);
                    assert(before.drops[target as int] <= before.dispatched[target as int]);
                }
                let count: u64 = self.stats.dispatched_per_worker[target];
                self.stats.dispatched_per_worker.set(target, count + 1);
                if !accepted {
                    proof {
                        lemma_drops_bounded(before.drops, before.dispatched);
                    }
                    let refused: u64 = self.drops[target];
                    self.drops.set(target, refused + 1);
                    self.stats.dropped = self.stats.dropped + 1;
                }
                self.stats.generated = self.stats.generated + 1;
                self.next_arrival = due_time(self.cfg.cps, self.stats.generated);
                self.phase = if self.next_arrival < self.cfg.duration {
                    GenPhase::Pacing
                } else {
                    GenPhase::Finished
                };
            },
            _ => {},
        }
        assert(self@ =~= gen_after(before, event));
        self.wants()
    }

    /// The counts so far.
    pub fn stats(&self) -> (s: &GenStats)
        ensures
            s.generated == self@.generated,
            s.dropped == self@.dropped,
            s.dispatched_per_worker@ == self@.dispatched,
    {
        &self.stats
    }

    /// Per worker, the connections that its queue refused.
    pub fn drops(&self) -> (d: &Vec<u64>)
        ensures
            d@ == self@.drops,
    {
        &self.drops
    }
}

/// While connections are awaited, their number can still grow by one.
proof fn lemma_room_for_one_more(s: GenState)
    requires
        gen_inv(s),
        s.phase != GenPhase::Finished,
    ensures
        s.generated < u64::MAX,
{
    law_due_within_duration(s.cfg.cps, s.generated, s.cfg.duration);
}

proof fn lemma_total_one_more(counts: Seq<u64>, target: int)
    requires
        0 <= target < counts.len(),
        counts[target] < u64::MAX,
    ensures
        total(one_more(counts, target)) == total(counts) + 1,
    decreases counts.len(),
{
    let more = one_more(counts, target);
    if target == counts.len() - 1 {
        assert(more.drop_last() =~= counts.drop_last());
    } else {
        lemma_total_one_more(counts.drop_last(), target);
        assert(more.drop_last() =~= one_more(counts.drop_last(), target));
    }
}

proof fn lemma_drops_bounded(drops: Seq<u64>, dispatched: Seq<u64>)
    requires
        drops.len() == dispatched.len(),
        forall|i: int| 0 <= i < drops.len() ==> (#[trigger] drops[i]) <= dispatched[i],
    ensures
        0 <= total(drops) <= total(dispatched),
    decreases drops.len(),
{
    if drops.len() > 0 {
        let a = drops.drop_last();
        let b = dispatched.drop_last();
        assert forall|i: int| 0 <= i < a.len() implies (#[trigger] a[i]) <= b[i] by {
            assert(a[i] == drops[i]);
        }
        lemma_drops_bounded(a, b);
        assert(drops[drops.len() - 1] <= dispatched[dispatched.len() - 1]);
    }
}

/// Whatever happens, every connection stays counted once: the counts of the workers add up to the
/// connections generated, the refused ones to the drops, and connection number `n` arrives
/// when it is due.
pub proof fn law_generator_accounts(s: GenState, e: GenEvent)
    requires
        gen_inv(s),
    ensures
        gen_inv(gen_after(s, e)),
{
    match (s.phase, e) {
        (GenPhase::Observing, GenEvent::Observed { bitmap, backlog, now_ns }) => {
            let hash = next_desc(s, now_ns).hash;
            let w = lemma_some_choice(
                s.policy,
                bitmap,
                backlog.lens(),
                backlog.pending(),
                hash,
            );
            law_choice_is_unique(w, s.policy, bitmap, backlog.lens(), backlog.pending(), hash);
        },
        (GenPhase::Offering { target, .. }, GenEvent::Offered { accepted }) => {
            lemma_room_for_one_more(s);
            assert(s.drops[target as int] <= s.dispatched[target as int]);
            lemma_total_one_more(s.dispatched, target as int);
            let t = gen_after(s, e);
            if !accepted {
                lemma_total_one_more(s.drops, target as int);
            }
            assert forall|i: int| 0 <= i < NUM_WORKERS implies (#[trigger] t.drops[i])
                <= t.dispatched[i] && t.dispatched[i] <= t.generated by {
                assert(s.drops[i] <= s.dispatched[i]);
            }
        },
        _ => {},
    }
}

/// A finished run has generated the profile's rate times its duration, rounded up.
pub proof fn law_finished_run_is_complete(s: GenState)
    requires
        gen_inv(s),
        s.phase == GenPhase::Finished,
    ensures
        s.cfg.cps * s.cfg.duration <= s.generated * SECOND,
        s.generated > 0 ==> (s.generated - 1) * SECOND < s.cfg.cps * s.cfg.duration,
{
    law_due_within_duration(s.cfg.cps, s.generated, s.cfg.duration);
    if s.generated > 0 {
        law_due_within_duration(s.cfg.cps, s.generated - 1, s.cfg.duration);
    }
}

/// A finished run has generated the profile's rate times its duration, where that is a whole number.
pub proof fn law_finished_run_keeps_the_rate(s: GenState, n: int)
    requires
        gen_inv(s),
        s.phase == GenPhase::Finished,
        n * SECOND == s.cfg.cps * s.cfg.duration,
    ensures
        s.generated == n,
{
    law_finished_run_is_complete(s);
    assert(n >= 0) by (nonlinear_arith)
        requires
            n * SECOND == s.cfg.cps * s.cfg.duration,
            s.cfg.cps >= 0,
            s.cfg.duration >= 0,
    ;
}

/// A finished run of any of the profiles has generated its rate times its duration.
pub proof fn law_finished_profile_keeps_the_rate(s: GenState)
    requires
        gen_inv(s),
        s.phase == GenPhase::Finished,
        is_profile(s.cfg),
    ensures
        s.generated == s.cfg.cps * s.cfg.duration / SECOND as int,
{
    lemma_profiles_fill_duration(s.cfg);
    law_finished_run_keeps_the_rate(s, s.cfg.cps * s.cfg.duration / SECOND as int);
}

/// A finished run of the case with long-lived connections has opened 120, 240 or 600 of them.
pub proof fn law_long_lived_connections_accumulate(s: GenState, load: LoadLevel)
    requires
        gen_inv(s),
        s.phase == GenPhase::Finished,
        s.cfg == profile(WorkloadCase::Case3, load),
    ensures
        s.generated == match load {
            LoadLevel::Light => 120int,
            LoadLevel::Medium => 240,
            LoadLevel::Heavy => 600,
        },
{
    lemma_four_seconds(s.cfg);
    law_finished_profile_keeps_the_rate(s);
}

/// Every profile can be run.
pub proof fn law_profiles_are_runnable(cfg: WorkloadConfig)
    requires
        is_profile(cfg),
    ensures
        runnable(cfg),
{
    lemma_profiles_fill_duration(cfg);
}

/// In the trial with number zero the hash is the connection number times the factor.
pub proof fn law_seed_zero_is_canonical(conn_id: u64)
    ensures
        hash_of(conn_id, 0) == product64(conn_id, HASH_FACTOR),
{
    assert(product64(0, SEED_FACTOR) == 0);
    assert(conn_id ^ 0 == conn_id) by (bit_vector);
}

/// Within a trial no two connections have the same hash.
pub proof fn law_hashes_differ(a: u64, b: u64, seed: u64)
    requires
        hash_of(a, seed) == hash_of(b, seed),
    ensures
        a == b,
{
    let k = product64(seed, SEED_FACTOR);
    lemma_factor_is_injective(a ^ k, b ^ k, HASH_FACTOR, 0xf1de_83e1_9937_733d);
    assert(a ^ k == b ^ k ==> a == b) by (bit_vector);
}

/// Two trials with different numbers give every connection different hashes.
pub proof fn law_trials_differ(conn_id: u64, s: u64, t: u64)
    requires
        hash_of(conn_id, s) == hash_of(conn_id, t),
    ensures
        s == t,
{
    let j = product64(s, SEED_FACTOR);
    let k = product64(t, SEED_FACTOR);
    lemma_factor_is_injective(conn_id ^ j, conn_id ^ k, HASH_FACTOR, 0xf1de_83e1_9937_733d);
    assert(conn_id ^ j == conn_id ^ k ==> j == k) by (bit_vector);
    lemma_factor_is_injective(s, t, SEED_FACTOR, 0x4f74_430c_22a5_4005);
}

/// A factor with an inverse maps different numbers to different products.
proof fn lemma_factor_is_injective(x: u64, y: u64, factor: u64, inverse: u64)
    requires
        (factor as int * inverse as int) % 0x1_0000_0000_0000_0000 == 1,
        product64(x, factor) == product64(y, factor),
    ensures
        x == y,
{
    lemma_inverse_undoes(x, factor, inverse);
    lemma_inverse_undoes(y, factor, inverse);
}

proof fn lemma_inverse_undoes(x: u64, factor: u64, inverse: u64)
    requires
        (factor as int * inverse as int) % 0x1_0000_0000_0000_0000 == 1,
    ensures
        (product64(x, factor) as int * inverse as int) % 0x1_0000_0000_0000_0000 == x,
{
    let m: int = 0x1_0000_0000_0000_0000;
    let f = factor as int;
    let g = inverse as int;
    let n = x as int;
    lemma_mul_mod_noop_left(n * f, g, m);
    assert((n * f) * g == n * (f * g)) by (nonlinear_arith);
    lemma_mul_mod_noop_right(n, f * g, m);
    assert(n * 1 == n);
    lemma_small_mod(x as nat, m as nat);
}

/// In the trial with number zero hashes add up as the connection numbers do, from the factor on; and
/// a trial hashes each connection as trial zero hashes its number with the spread trial number
/// exclusive-or-ed into it.
pub proof fn law_hashes_add_up(a: u64, b: u64, seed: u64, spread: u64)
    requires
        a + b <= u64::MAX,
        spread == (seed * 0xff51_afd7_ed55_8ccd) % 0x1_0000_0000_0000_0000,
    ensures
        hash_of(0, 0) == 0,
        hash_of(1, 0) == 0x9e37_79b9_7f4a_7c15,
        hash_of((a + b) as u64, 0) == (hash_of(a, 0) + hash_of(b, 0)) % 0x1_0000_0000_0000_0000,
        hash_of(a, seed) == hash_of(a ^ spread, 0),
{
    law_seed_zero_is_canonical(0);
    law_seed_zero_is_canonical(1);
    law_seed_zero_is_canonical(a);
    law_seed_zero_is_canonical(b);
    law_seed_zero_is_canonical((a + b) as u64);
    law_seed_zero_is_canonical(a ^ spread);
    let m: int = 0x1_0000_0000_0000_0000;
    let f = HASH_FACTOR as int;
    vstd::arithmetic::div_mod::lemma_add_mod_noop(a * f, b * f, m);
    assert((a + b) * f == a * f + b * f) by (nonlinear_arith);
    assert(product64(seed, SEED_FACTOR) == spread);
}

/// The connection that arrives has the number of those before it, the time that was read, the hash
/// and the cost that belong to its number in this trial, and the profile's lifetime in milliseconds;
/// it is offered to the worker that the policy chooses by that hash.
pub proof fn law_arriving_connection(s: GenState, bitmap: u64, backlog: Backlog, now_ns: i64)
    requires
        gen_inv(s),
        s.phase == GenPhase::Observing,
    ensures
        gen_wants(s) == GenAction::Observe,
        gen_wants(
            gen_after(s, GenEvent::Observed { bitmap, backlog, now_ns }),
        ) matches GenAction::Offer { target, desc } && {
            &&& target == choice_of(
                s.policy,
                bitmap,
                backlog.lens(),
                backlog.pending(),
                hash_of(s.generated as u64, s.seed),
            )
            &&& desc.conn_id == s.generated
            &&& desc.arrival_ns == now_ns
            &&& desc.hash == hash_of(s.generated as u64, s.seed)
            &&& sample_of(s.cfg.service, desc.hash) < 0x1_0000_0000 * 1_000 ==> 1_000
                * desc.service_us <= sample_of(s.cfg.service, desc.hash) < 1_000 * (desc.service_us
                + 1)
            &&& s.cfg.lifetime < 0x1_0000_0000 * 1_000_000 ==> 1_000_000 * desc.lifetime_ms
                <= s.cfg.lifetime < 1_000_000 * (desc.lifetime_ms + 1)
        },
{
    let hash = hash_of(s.generated as u64, s.seed);
    let w = lemma_some_choice(s.policy, bitmap, backlog.lens(), backlog.pending(), hash);
    law_choice_is_unique(w, s.policy, bitmap, backlog.lens(), backlog.pending(), hash);
}

/// The generator sleeps until the next connection is due and no longer, and not at all where it is
/// late.
pub proof fn law_generator_waits_until_due(s: GenState, elapsed: u128)
    requires
        gen_inv(s),
        s.phase == GenPhase::Pacing,
    ensures
        gen_wants(s) == GenAction::ReadClock,
        s.generated * 1_000_000_000 / (s.cfg.cps as int) > elapsed ==> (gen_wants(
            gen_after(s, GenEvent::Clock { elapsed }),
        ) matches GenAction::Sleep { ns } && elapsed + ns == s.generated * 1_000_000_000 / (
        s.cfg.cps as int)),
        s.generated * 1_000_000_000 / (s.cfg.cps as int) <= elapsed ==> gen_wants(
            gen_after(s, GenEvent::Clock { elapsed }),
        ) == GenAction::Observe,
{
}

/// Every connection offered counts for its worker and for no other, also where the queue refuses
/// it; a refused one counts as dropped, in all and for that worker.
pub proof fn law_offered_connection_counts_once(
    s: GenState,
    target: usize,
    desc: ConnDesc,
    accepted: bool,
    i: int,
)
    requires
        gen_inv(s),
        s.phase == (GenPhase::Offering { target, desc }),
        0 <= i < 4,
    ensures
        gen_after(s, GenEvent::Offered { accepted }).generated == s.generated + 1,
        gen_after(s, GenEvent::Offered { accepted }).dispatched[i] == s.dispatched[i] + (if i
            == target {
            1int
        } else {
            0
        }),
        gen_after(s, GenEvent::Offered { accepted }).dropped == s.dropped + (if accepted {
            0int
        } else {
            1
        }),
        gen_after(s, GenEvent::Offered { accepted }).drops[i] == s.drops[i] + (if i == target
            && !accepted {
            1int
        } else {
            0
        }),
        gen_wants(gen_after(s, GenEvent::Offered { accepted })) == GenAction::Finish <==> (s.generated
            + 1) * 1_000_000_000 >= s.cfg.cps * s.cfg.duration,
        gen_after(s, GenEvent::Offered { accepted }).cfg == s.cfg,
        gen_after(s, GenEvent::Offered { accepted }).seed == s.seed,
        gen_after(s, GenEvent::Offered { accepted }).policy == s.policy,
{
    lemma_room_for_one_more(s);
    assert(s.drops[i] <= s.dispatched[i]);
    assert(s.drops[target as int] <= s.dispatched[target as int]);
    law_due_within_duration(s.cfg.cps, s.generated + 1, s.cfg.duration);
}

/// A run starts with nothing counted and no connection due later than at once.
pub proof fn law_run_starts_empty(cfg: WorkloadConfig, policy: Policy, seed: u64, i: int)
    requires
        0 <= i < 4,
    ensures
        gen_start(cfg, policy, seed).generated == 0,
        gen_start(cfg, policy, seed).dropped == 0,
        gen_start(cfg, policy, seed).dispatched[i] == 0,
        gen_start(cfg, policy, seed).drops[i] == 0,
        gen_start(cfg, policy, seed).next_arrival == 0,
        gen_start(cfg, policy, seed).cfg == cfg,
        gen_start(cfg, policy, seed).policy == policy,
        gen_start(cfg, policy, seed).seed == seed,
        gen_wants(gen_start(cfg, policy, seed)) == (if cfg.duration > 0 {
            GenAction::ReadClock
        } else {
            GenAction::Finish
        }),
{
}

/// The total of four counts is their sum.
pub proof fn law_total_of_four(counts: Seq<u64>)
    requires
        counts.len() == 4,
    ensures
        total(counts) == counts[0] + counts[1] + counts[2] + counts[3],
{
    reveal_with_fuel(total, 5);
}

/// A setting that names an unsigned 64-bit number is the trial number; any other stands for zero.
pub proof fn law_seed_setting(s: Seq<char>)
    ensures
        unsigned_of(s, 0xffff_ffff_ffff_ffff) matches Some(n) ==> seed_of(Some(s)) == n,
        unsigned_of(s, 0xffff_ffff_ffff_ffff).is_none() ==> seed_of(Some(s)) == 0,
        seed_of(None) == 0,
{
}

/// What stays as it is: profile, policy and trial number never change, and nothing is counted but
/// when a connection has been offered.
pub proof fn law_generator_keeps_the_rest(s: GenState, e: GenEvent)
    ensures
        gen_after(s, e).cfg == s.cfg,
        gen_after(s, e).policy == s.policy,
        gen_after(s, e).seed == s.seed,
        !(s.phase is Offering) ==> gen_after(s, e).generated == s.generated && gen_after(
            s,
            e,
        ).dropped == s.dropped && gen_after(s, e).dispatched == s.dispatched && gen_after(
            s,
            e,
        ).drops == s.drops && gen_after(s, e).next_arrival == s.next_arrival,
        s.phase is Waiting ==> gen_wants(gen_after(s, GenEvent::Slept)) == GenAction::Observe,
{
}

} // verus!
