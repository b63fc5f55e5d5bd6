//! Which sockets a policy needs, and who uses them.
//!
//! Under the full policy and the hash baseline each worker has a listener of its own, all bound to
//! the same port; the former has the selection program attached to them. Under the LIFO baseline all
//! workers share one listener, with exclusive wakeup.

use crate::csv::{law_split_cuts_at_separators, split_by, split_chars, texts};
use crate::lb_worker::HangSpec;
use crate::policy::Policy;
use crate::text::{chars_of, decimal, digits, is_digit, law_digits_round_trip};
use crate::text::{law_unsigned_round_trip, parse_unsigned, unsigned_of};
use crate::wst::NUM_WORKERS;
use vstd::prelude::*;

verus! {

/// The sockets that a policy needs.
#[derive(Debug, Clone, Copy, PartialEq, Eq, Structural)]
pub struct SocketPlan {
    /// How many listeners are created.
    pub listeners: usize,
    /// Whether they share the port as a group.
    pub reuseport: bool,
    /// Whether the selection program is attached to the group.
    pub attach_program: bool,
    /// Whether workers register their listener with exclusive wakeup.
    pub exclusive: bool,
}

/// The sockets that a policy needs.
pub open spec fn plan_of(policy: Policy) -> SocketPlan {
    SocketPlan {
        listeners: if policy == Policy::Lifo {
            1
        } else {
            NUM_WORKERS
        },
        reuseport: policy != Policy::Lifo,
        attach_program: policy == Policy::Hermes,
        exclusive: policy == Policy::Lifo,
    }
}

/// The sockets that a policy needs.
pub fn socket_plan(policy: Policy) -> (p: SocketPlan)
    ensures
        p == plan_of(policy),
{
    match policy {
        Policy::Hermes => SocketPlan {
            listeners: NUM_WORKERS,
            reuseport: true,
            attach_program: true,
            exclusive: false,
        },
        Policy::ReuseportHash => SocketPlan {
            listeners: NUM_WORKERS,
            reuseport: true,
            attach_program: false,
            exclusive: false,
        },
        Policy::Lifo => SocketPlan {
            listeners: 1,
            reuseport: false,
            attach_program: false,
            exclusive: true,
        },
    }
}

/// The listeners, one per worker, ready to fork the workers over.
#[derive(Debug)]
pub struct Setup {
    pub listen_fds: Vec<i32>,
}

/// The listener of each worker, given the created ones: its own, or the shared one.
pub open spec fn worker_fds(policy: Policy, created: Seq<i32>) -> Seq<i32> {
    Seq::new(
        NUM_WORKERS as nat,
        |i: int|
            if policy == Policy::Lifo {
                created[0]
            } else {
                created[i]
            },
    )
}

/// Hands the created listeners to the workers.
pub fn setup(policy: Policy, created: &Vec<i32>) -> (s: Setup)
    requires
        created@.len() == plan_of(policy).listeners,
    ensures
        s.listen_fds@ == worker_fds(policy, created@),
{
    let mut listen_fds: Vec<i32> = Vec::new();
    let mut i: usize = 0;
    while i < NUM_WORKERS
        invariant
            i <= NUM_WORKERS,
            created@.len() == plan_of(policy).listeners,
            listen_fds@ == worker_fds(policy, created@).take(i as int),
        decreases NUM_WORKERS - i,
    {
        match policy {
            Policy::Lifo => listen_fds.push(created[0]),
            _ => listen_fds.push(created[i]),
        }
        i = i + 1;
        assert(listen_fds@ =~= worker_fds(policy, created@).take(i as int));
    }
    assert(listen_fds@ =~= worker_fds(policy, created@));
    Setup { listen_fds }
}

/// The listeners that worker `worker_id` has no use for: those of the others, but for its own.
pub open spec fn unused_by(listen_fds: Seq<i32>, worker_id: int) -> Seq<i32> {
    listen_fds.filter(|fd: i32| fd != listen_fds[worker_id])
}

/// The listeners that a worker closes after the fork.
pub fn fds_to_close(listen_fds: &Vec<i32>, worker_id: usize) -> (fds: Vec<i32>)
    requires
        worker_id < listen_fds@.len(),
    ensures
        fds@ == unused_by(listen_fds@, worker_id as int),
{
    let own: i32 = listen_fds[worker_id];
    let ghost keep = |fd: i32| fd != listen_fds@[worker_id as int];
    let mut fds: Vec<i32> = Vec::new();
    let mut i: usize = 0;
    proof {
        reveal(Seq::filter);
        assert(listen_fds@.take(0) =~= Seq::empty());
    }
    while i < listen_fds.len()
        invariant
            i <= listen_fds@.len(),
            worker_id < listen_fds@.len(),
            own == listen_fds@[worker_id as int],
            keep == (|fd: i32| fd != listen_fds@[worker_id as int]),
            fds@ == listen_fds@.take(i as int).filter(keep),
        decreases listen_fds@.len() - i,
    {
        proof {
            reveal(Seq::filter);
            assert(listen_fds@.take(i + 1).drop_last() =~= listen_fds@.take(i as int));
        }
        let fd: i32 = listen_fds[i];
        if i != worker_id && fd != own {
            fds.push(fd);
        }
        i = i + 1;
    }
    assert(listen_fds@.take(i as int) =~= listen_fds@);
    fds
}

/// Why a hang setting is ignored.
#[derive(Debug, Clone, Copy, PartialEq, Eq, Structural)]
pub enum HangError {
    /// It has not three parts.
    Malformed,
    /// One of the parts is no number.
    NotANumber,
}

/// The hang that a setting asks for: worker, start and duration in milliseconds, with colons
/// between them.
pub open spec fn hang_of(raw: Seq<char>) -> Result<(usize, HangSpec), HangError> {
    let parts = split_by(raw, ':');
    if parts.len() != 3 {
        Err(HangError::Malformed)
    } else {
        match (
            unsigned_of(parts[0], usize::MAX as int),
            unsigned_of(parts[1], u64::MAX as int),
            unsigned_of(parts[2], u64::MAX as int),
        ) {
            (Some(worker), Some(at), Some(duration)) => Ok(
                (
                    worker as usize,
                    HangSpec {
                        at: (at * 1_000_000) as u128,
                        duration: (duration * 1_000_000) as u128,
                    },
                ),
            ),
            _ => Err(HangError::NotANumber),
        }
    }
}

/// Reads a hang setting.
pub fn parse_hang_inject(raw: &str) -> (r: Result<(usize, HangSpec), HangError>)
    ensures
        r == hang_of(raw@),
{
    let parts: Vec<Vec<char>> = split_chars(&chars_of(raw), ':');
    assert(texts(parts@).len() == parts@.len());
    if parts.len() != 3 {
        return Err(HangError::Malformed);
    }
    assert(texts(parts@)[0] == parts@[0]@);
    assert(texts(parts@)[1] == parts@[1]@);
    assert(texts(parts@)[2] == parts@[2]@);
    match (
        parse_unsigned(&parts[0], usize::MAX as u64),
        parse_unsigned(&parts[1], u64::MAX),
        parse_unsigned(&parts[2], u64::MAX),
    ) {
        (Some(worker), Some(at), Some(duration)) => Ok(
            (
                worker as usize,
                HangSpec { at: at as u128 * 1_000_000, duration: duration as u128 * 1_000_000 },
            ),
        ),
        _ => Err(HangError::NotANumber),
    }
}

/// The hang that concerns a worker, out of a setting that names one.
pub fn hang_for(setting: Option<(usize, HangSpec)>, worker_id: usize) -> (r: Option<HangSpec>)
    ensures
        r == (match setting {
            Some((w, h)) => if w == worker_id {
                Some(h)
            } else {
                None
            },
            None => None,
        }),
{
    match setting {
        Some((w, h)) => if w == worker_id {
            Some(h)
        } else {
            None
        },
        None => None,
    }
}

/// A worker never closes its own listener, and closes every other one.
pub proof fn law_worker_keeps_its_listener(listen_fds: Seq<i32>, worker_id: int)
    requires
        0 <= worker_id < listen_fds.len(),
    ensures
        !unused_by(listen_fds, worker_id).contains(listen_fds[worker_id]),
        forall|i: int|
            0 <= i < listen_fds.len() && #[trigger] listen_fds[i] != listen_fds[worker_id]
                ==> unused_by(listen_fds, worker_id).contains(listen_fds[i]),
{
    let keep = |fd: i32| fd != listen_fds[worker_id];
    let u = unused_by(listen_fds, worker_id);
    if u.contains(listen_fds[worker_id]) {
        let k = choose|k: int| 0 <= k < u.len() && u[k] == listen_fds[worker_id];
        listen_fds.lemma_filter_pred(keep, k);
    }
    assert forall|i: int| 0 <= i < listen_fds.len() && #[trigger] listen_fds[i]
        != listen_fds[worker_id] implies u.contains(listen_fds[i]) by {
        listen_fds.lemma_filter_contains(keep, i);
    }
}

/// Under the LIFO baseline all workers share one listener, and none closes anything.
pub proof fn law_lifo_shares_one_listener(created: Seq<i32>, worker_id: int)
    requires
        created.len() == 1,
        0 <= worker_id < NUM_WORKERS,
    ensures
        worker_fds(Policy::Lifo, created)[worker_id] == created[0],
        unused_by(worker_fds(Policy::Lifo, created), worker_id).len() == 0,
{
    let fds = worker_fds(Policy::Lifo, created);
    let keep = |fd: i32| fd != fds[worker_id];
    let u = unused_by(fds, worker_id);
    if u.len() > 0 {
        fds.lemma_filter_pred(keep, 0);
        assert(u.contains(u[0]));
        fds.lemma_filter_contains_rev(keep, u[0]);
    }
}

/// Which sockets the policies need: the LIFO baseline one, shared, with exclusive wakeup; the others
/// four that share the port, and the full policy alone attaches the program.
pub proof fn law_plans_of_the_policies(created: Seq<i32>, i: int)
    requires
        0 <= i < 4,
    ensures
        plan_of(Policy::Lifo) == (SocketPlan {
            listeners: 1,
            reuseport: false,
            attach_program: false,
            exclusive: true,
        }),
        plan_of(Policy::ReuseportHash) == (SocketPlan {
            listeners: 4,
            reuseport: true,
            attach_program: false,
            exclusive: false,
        }),
        plan_of(Policy::Hermes) == (SocketPlan {
            listeners: 4,
            reuseport: true,
            attach_program: true,
            exclusive: false,
        }),
        worker_fds(Policy::Hermes, created).len() == 4,
        worker_fds(Policy::Hermes, created)[i] == created[i],
        worker_fds(Policy::ReuseportHash, created)[i] == created[i],
        worker_fds(Policy::Lifo, created)[i] == created[0],
{
}

/// A hang setting written as three numbers with colons between asks for that worker, start and
/// duration, in milliseconds.
pub proof fn law_hang_setting_round_trip(worker: usize, at: u64, duration: u64)
    ensures
        hang_of(
            decimal(worker as int) + seq![':'] + decimal(at as int) + seq![':'] + decimal(
                duration as int,
            ),
        ) matches Ok((w, h)) && w == worker && h.at == at * 1_000_000 && h.duration == duration
            * 1_000_000,
{
    let a = decimal(worker as int);
    let b = decimal(at as int);
    let c = decimal(duration as int);
    lemma_decimal_has_no_colon(worker as nat);
    lemma_decimal_has_no_colon(at as nat);
    lemma_decimal_has_no_colon(duration as nat);
    law_hang_setting_parts(a, b, c, Seq::empty());
    law_unsigned_round_trip(worker as nat, usize::MAX as int);
    law_unsigned_round_trip(at as nat, u64::MAX as int);
    law_unsigned_round_trip(duration as nat, u64::MAX as int);
}

proof fn lemma_decimal_has_no_colon(n: nat)
    ensures
        forall|i: int|
            0 <= i < decimal(n as int).len() ==> #[trigger] decimal(n as int)[i] != ':',
{
    law_digits_round_trip(n);
    assert forall|i: int| 0 <= i < decimal(n as int).len() implies #[trigger] decimal(n as int)[i]
        != ':' by {
        assert(is_digit(digits(n, 10)[i]));
    }
}

/// How a hang setting is read by its parts: fewer or more than three are malformed, and of three
/// each must be a number.
pub proof fn law_hang_setting_parts(a: Seq<char>, b: Seq<char>, c: Seq<char>, d: Seq<char>)
    requires
        forall|i: int| 0 <= i < a.len() ==> #[trigger] a[i] != ':',
        forall|i: int| 0 <= i < b.len() ==> #[trigger] b[i] != ':',
        forall|i: int| 0 <= i < c.len() ==> #[trigger] c[i] != ':',
        forall|i: int| 0 <= i < d.len() ==> #[trigger] d[i] != ':',
    ensures
        hang_of(a) == Err::<(usize, HangSpec), HangError>(HangError::Malformed),
        hang_of(a + seq![':'] + b) == Err::<(usize, HangSpec), HangError>(HangError::Malformed),
        hang_of(a + seq![':'] + b + seq![':'] + c + seq![':'] + d) == Err::<
            (usize, HangSpec),
            HangError,
        >(HangError::Malformed),
        ({
            let w = unsigned_of(a, usize::MAX as int);
            let x = unsigned_of(b, u64::MAX as int);
            let y = unsigned_of(c, u64::MAX as int);
            let r = hang_of(a + seq![':'] + b + seq![':'] + c);
            if w.is_some() && x.is_some() && y.is_some() {
                r == Ok::<(usize, HangSpec), HangError>(
                    (
                        w.unwrap() as usize,
                        HangSpec {
                            at: (x.unwrap() * 1_000_000) as u128,
                            duration: (y.unwrap() * 1_000_000) as u128,
                        },
                    ),
                )
            } else {
                r == Err::<(usize, HangSpec), HangError>(HangError::NotANumber)
            }
        }),
{
    let e = Seq::<char>::empty();
    law_split_cuts_at_separators(e, a, ':');
    law_split_cuts_at_separators(a, b, ':');
    let ab = a + seq![':'] + b;
    law_split_cuts_at_separators(ab, c, ':');
    let abc = ab + seq![':'] + c;
    law_split_cuts_at_separators(abc, d, ':');
    assert(split_by(ab, ':') =~= seq![a, b]);
    assert(split_by(abc, ':') =~= seq![a, b, c]);
    assert(split_by(abc + seq![':'] + d, ':') =~= seq![a, b, c, d]);
}

/// A worker closes listeners of the others and nothing else.
pub proof fn law_worker_closes_only_listeners(listen_fds: Seq<i32>, worker_id: int, fd: i32)
    requires
        0 <= worker_id < listen_fds.len(),
    ensures
        unused_by(listen_fds, worker_id).contains(fd) <==> listen_fds.contains(fd) && fd
            != listen_fds[worker_id],
        unused_by(listen_fds, worker_id).len() < listen_fds.len(),
{
    let keep = |fd: i32| fd != listen_fds[worker_id];
    let u = unused_by(listen_fds, worker_id);
    law_worker_keeps_its_listener(listen_fds, worker_id);
    if u.contains(fd) {
        listen_fds.lemma_filter_contains_rev(keep, fd);
    }
    if listen_fds.contains(fd) && fd != listen_fds[worker_id] {
        let i = choose|i: int| 0 <= i < listen_fds.len() && listen_fds[i] == fd;
        assert(listen_fds[i] != listen_fds[worker_id]);
    }
    let head = listen_fds.take(worker_id);
    let own = seq![listen_fds[worker_id]];
    let tail = listen_fds.skip(worker_id + 1);
    assert(listen_fds =~= (head + own) + tail);
    Seq::filter_distributes_over_add(head + own, tail, keep);
    Seq::filter_distributes_over_add(head, own, keep);
    head.lemma_filter_len(keep);
    tail.lemma_filter_len(keep);
    reveal(Seq::filter);
    assert(own.drop_last() =~= Seq::<i32>::empty());
    assert(own.last() == listen_fds[worker_id]);
    assert(own.drop_last().filter(keep).len() == 0);
    assert(own.filter(keep).len() == 0);
}

} // verus!
