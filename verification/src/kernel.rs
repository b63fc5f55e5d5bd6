//! Socket selection as the kernel runs it for each inbound connection.

use crate::bits::{count_ones, ones};
use crate::dispatcher::{low_half, nth_worker, position_of_nth, scale_hash, scaled};
use crate::dispatcher::{hash_choice, hermes_choice, law_candidates_share_the_hashes};
use crate::dispatcher::{law_every_candidate_is_reached, law_nth_worker, lemma_named_workers};
use crate::dispatcher::{lemma_nth_named, members_below};
use crate::wst::NUM_WORKERS;
use vstd::prelude::*;

verus! {

/// The protocol number of TCP.
pub const IPPROTO_TCP: u32 = 6;

/// The worker that is selected, if any. Nothing is selected for other protocols than TCP, where no
/// bitmap has been published, and where at most one worker is a candidate: the kernel's own hash
/// decides then.
pub open spec fn selection(ip_protocol: u32, bitmap: Option<u64>, hash: u32) -> Option<int> {
    match bitmap {
        Some(b) => if ip_protocol == IPPROTO_TCP && ones(b, 64) > 1 {
            nth_worker(b, scaled(hash as int, ones(b, 64) as int))
        } else {
            None
        },
        None => None,
    }
}

/// Selects the worker of a connection.
pub fn try_select(ip_protocol: u32, bitmap: Option<u64>, hash: u32) -> (r: Option<u32>)
    ensures
        r.is_some() == selection(ip_protocol, bitmap, hash).is_some(),
        r.is_some() ==> r.unwrap() == selection(ip_protocol, bitmap, hash).unwrap() && r.unwrap()
            < NUM_WORKERS,
{
    if ip_protocol != IPPROTO_TCP {
        return None;
    }
    match bitmap {
        None => None,
        Some(b) => {
            let n: u32 = count_ones(b);
            if n <= 1 {
                return None;
            }
            let nth: u32 = reciprocal_scale(hash, n);
            find_nth_set_bit(b, nth)
        },
    }
}

/// Maps a 32-bit hash to the range below `n`.
pub fn reciprocal_scale(hash: u32, n: u32) -> (r: u32)
    ensures
        r == scaled(hash as int, n as int),
        n > 0 ==> r < n,
{
    scale_hash(hash, n)
}

/// The worker with set bit number `nth`, if there is one.
pub fn find_nth_set_bit(bitmap: u64, nth: u32) -> (r: Option<u32>)
    ensures
        r.is_some() == nth_worker(bitmap, nth as int).is_some(),
        r.is_some() ==> r.unwrap() == nth_worker(bitmap, nth as int).unwrap() && r.unwrap()
            < NUM_WORKERS,
{
    match position_of_nth(bitmap, nth) {
        Some(worker) => Some(worker as u32),
        None => None,
    }
}

/// For TCP, the kernel's selection is the simulated dispatcher's: where it selects a worker, the
/// dispatcher picks the same one on the same low half of the hash, and where it selects none with
/// at most one candidate, the dispatcher falls back to the stateless hash.
pub proof fn law_selection_agrees_with_dispatch(bitmap: u64, hash: u64)
    ensures
        selection(IPPROTO_TCP, Some(bitmap), low_half(hash) as u32) matches Some(w)
            ==> hermes_choice(bitmap, hash) == w,
        ones(bitmap, 64) <= 1 ==> selection(
            IPPROTO_TCP,
            Some(bitmap),
            low_half(hash) as u32,
        ).is_none() && hermes_choice(bitmap, hash) == hash_choice(hash),
{
}

/// Other protocols are left to the kernel.
pub proof fn law_other_protocols_are_left_alone(
    ip_protocol: u32,
    bitmap: Option<u64>,
    hash: u32,
)
    requires
        ip_protocol != IPPROTO_TCP,
    ensures
        selection(ip_protocol, bitmap, hash).is_none(),
{
}

/// A selected worker is a candidate of the bitmap.
pub proof fn law_selected_is_candidate(ip_protocol: u32, bitmap: u64, hash: u32)
    ensures
        selection(ip_protocol, Some(bitmap), hash) matches Some(w) ==> 0 <= w < NUM_WORKERS
            && crate::bits::bit(bitmap, w),
{
    let n = ones(bitmap, 64) as int;
    assert(0 <= hash * n) by (nonlinear_arith)
        requires
            0 <= n,
            0 <= hash,
    ;
    law_nth_worker(bitmap, scaled(hash as int, n));
}

/// Selected workers share the hashes evenly. With `n` set bits, two or more, a worker is selected on
/// exactly the hashes in the interval from `c` to `c + 1` of `n` equal parts of the 32-bit range,
/// where `c` candidates come before it. Beyond the candidates' intervals none is selected.
pub proof fn law_selected_share_the_hashes(bitmap: u64, group: Seq<bool>, hash: u32, w: int)
    requires
        group.len() == 4,
        group[0] == ((bitmap >> 0) % 2 == 1),
        group[1] == ((bitmap >> 1) % 2 == 1),
        group[2] == ((bitmap >> 2) % 2 == 1),
        group[3] == ((bitmap >> 3) % 2 == 1),
        0 <= w < 4,
    ensures
        ones(bitmap, 64) >= 2 ==> (selection(6, Some(bitmap), hash) == Some(w) <==> {
            &&& group[w]
            &&& members_below(group, w) * 0x1_0000_0000 <= hash * ones(bitmap, 64)
            &&& hash * ones(bitmap, 64) < (members_below(group, w) + 1) * 0x1_0000_0000
        }),
        selection(6, Some(bitmap), hash).is_none() <==> {
            ||| ones(bitmap, 64) < 2
            ||| hash * ones(bitmap, 64) >= members_below(group, 4) * 0x1_0000_0000
        },
        bitmap < 16 ==> ones(bitmap, 64) == members_below(group, 4),
        bitmap < 16 && ones(bitmap, 64) >= 2 ==> selection(6, Some(bitmap), hash).is_some(),
        selection(6, None, hash).is_none(),
{
    let n = ones(bitmap, 64) as int;
    let k = scaled(hash as int, n);
    let p = hash * n;
    lemma_named_workers(bitmap, group);
    assert(0 <= p) by (nonlinear_arith)
        requires
            p == hash * n,
            n >= 0,
    ;
    assert(k == p / 0x1_0000_0000);
    assert(k * 0x1_0000_0000 <= p < (k + 1) * 0x1_0000_0000);
    lemma_nth_named(bitmap, group, k, w);
    if n > 0 {
        assert(p < n * 0x1_0000_0000) by (nonlinear_arith)
            requires
                p == hash * n,
                hash < 0x1_0000_0000,
                n > 0,
        ;
    }
}

/// Every candidate of two or more is reached: some hash selects it.
pub proof fn law_every_candidate_is_selected(bitmap: u64, group: Seq<bool>, w: int) -> (hash: u32)
    requires
        bitmap < 16,
        group.len() == 4,
        group[0] == ((bitmap >> 0) % 2 == 1),
        group[1] == ((bitmap >> 1) % 2 == 1),
        group[2] == ((bitmap >> 2) % 2 == 1),
        group[3] == ((bitmap >> 3) % 2 == 1),
        members_below(group, 4) >= 2,
        0 <= w < 4,
        group[w],
    ensures
        selection(6, Some(bitmap), hash) == Some(w),
{
    let h = law_every_candidate_is_reached(bitmap, group, w);
    law_selected_share_the_hashes(bitmap, group, h as u32, w);
    law_candidates_share_the_hashes(bitmap, group, h, w);
    h as u32
}

} // verus!
