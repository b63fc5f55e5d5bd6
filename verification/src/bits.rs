//! Worker sets as bitmaps: bit `i` stands for worker `i`.

use vstd::prelude::*;

verus! {

/// Whether bit `i` of `b` is set.
pub open spec fn bit(b: u64, i: int) -> bool {
    b & (1u64 << (i as u64)) != 0
}

/// How many of the `k` lowest bits of `b` are set.
pub open spec fn ones(b: u64, k: nat) -> nat
    decreases k,
{
    if k == 0 {
        0
    } else {
        ones(b, (k - 1) as nat) + if bit(b, k - 1) {
            1nat
        } else {
            0nat
        }
    }
}

/// The bitmap of a list of positions.
pub open spec fn bitmap_of(positions: Seq<usize>) -> u64
    decreases positions.len(),
{
    if positions.len() == 0 {
        0
    } else {
        bitmap_of(positions.drop_last()) | (1u64 << (positions.last() as u64))
    }
}

/// Whether a list of positions is strictly ascending and stays below `bound`.
pub open spec fn ascending_below(positions: Seq<usize>, bound: int) -> bool {
    &&& forall|i: int| 0 <= i < positions.len() ==> (#[trigger] positions[i]) < bound
    &&& forall|i: int, j: int|
        0 <= i < j < positions.len() ==> (#[trigger] positions[i]) < (#[trigger] positions[j])
}

/// How many bits of `b` are set.
pub fn count_ones(b: u64) -> (n: u32)
    ensures
        n == ones(b, 64),
        n <= 64,
{
    let mut n: u32 = 0;
    let mut i: u64 = 0;
    while i < 64
        invariant
            i <= 64,
            n == ones(b, i as nat),
            n <= i,
        decreases 64 - i,
    {
        if b & (1u64 << i) != 0 {
            n = n + 1;
        }
        i = i + 1;
    }
    n
}

/// Whether bit `i` of `b` is set.
pub fn test_bit(b: u64, i: usize) -> (r: bool)
    requires
        i < 64,
    ensures
        r == bit(b, i as int),
{
    b & (1u64 << (i as u64)) != 0
}

/// `b` with bit `i` set as well.
pub fn with_bit(b: u64, i: usize) -> (r: u64)
    requires
        i < 64,
    ensures
        r == b | (1u64 << (i as u64)),
        forall|j: int| 0 <= j < 64 ==> #[trigger] bit(r, j) == (bit(b, j) || j == i),
{
    proof {
        lemma_with_bit(b, i as int);
    }
    b | (1u64 << (i as u64))
}

proof fn lemma_with_bit(b: u64, i: int)
    requires
        0 <= i < 64,
    ensures
        forall|j: int|
            0 <= j < 64 ==> #[trigger] bit(b | (1u64 << (i as u64)), j) == (bit(b, j) || j == i),
{
    let p = i as u64;
    assert forall|j: int| 0 <= j < 64 implies #[trigger] bit(b | (1u64 << p), j) == (bit(b, j) || j
        == i) by {
        let q = j as u64;
        assert(((b | (1u64 << p)) & (1u64 << q) != 0) == ((b & (1u64 << q) != 0) || q == p))
            by (bit_vector)
            requires
                p < 64,
                q < 64,
        ;
    }
}

/// No bit of zero is set.
pub proof fn lemma_zero_has_no_bit()
    ensures
        forall|j: int| 0 <= j < 64 ==> !#[trigger] bit(0, j),
{
    assert forall|j: int| 0 <= j < 64 implies !#[trigger] bit(0, j) by {
        let q = j as u64;
        assert(0u64 & (1u64 << q) == 0) by (bit_vector);
    }
}

/// The bitmap of a list of positions has exactly those bits.
pub proof fn lemma_bitmap_of(positions: Seq<usize>)
    requires
        forall|i: int| 0 <= i < positions.len() ==> (#[trigger] positions[i]) < 64,
    ensures
        forall|j: int|
            0 <= j < 64 ==> #[trigger] bit(bitmap_of(positions), j) == positions.contains(
                j as usize,
            ),
    decreases positions.len(),
{
    if positions.len() == 0 {
        lemma_zero_has_no_bit();
    } else {
        let rest = positions.drop_last();
        let last = positions.last();
        assert forall|i: int| 0 <= i < rest.len() implies (#[trigger] rest[i]) < 64 by {
            assert(rest[i] == positions[i]);
        }
        lemma_bitmap_of(rest);
        lemma_with_bit(bitmap_of(rest), last as int);
        assert forall|j: int| 0 <= j < 64 implies #[trigger] bit(bitmap_of(positions), j)
            == positions.contains(j as usize) by {
            assert(bit(bitmap_of(rest), j) == rest.contains(j as usize));
            if rest.contains(j as usize) {
                let k = choose|k: int| 0 <= k < rest.len() && rest[k] == j as usize;
                assert(positions[k] == j as usize);
            }
            if positions.contains(j as usize) {
                let k = choose|k: int| 0 <= k < positions.len() && positions[k] == j as usize;
                if k < positions.len() - 1 {
                    assert(rest[k] == j as usize);
                }
            }
            if j == last {
                assert(positions[positions.len() - 1] == j as usize);
            }
        }
    }
}

/// Two bitmaps with the same bits have the same number of them.
pub proof fn lemma_ones_agree(a: u64, b: u64, k: nat)
    requires
        k <= 64,
        forall|j: int| 0 <= j < k ==> #[trigger] bit(a, j) == bit(b, j),
    ensures
        ones(a, k) == ones(b, k),
    decreases k,
{
    if k > 0 {
        lemma_ones_agree(a, b, (k - 1) as nat);
        assert(bit(a, k - 1) == bit(b, k - 1));
    }
}

/// Bits above the highest set one add nothing.
pub proof fn lemma_ones_stop(b: u64, k: nat, top: nat)
    requires
        k <= top <= 64,
        forall|j: int| k <= j < top ==> !#[trigger] bit(b, j),
    ensures
        ones(b, top) == ones(b, k),
    decreases top,
{
    if top > k {
        lemma_ones_stop(b, k, (top - 1) as nat);
        assert(!bit(b, top - 1));
    }
}

/// The count of set bits never falls as the range grows, and grows by one past a set bit.
pub proof fn lemma_ones_grow(b: u64, k: nat, top: nat)
    requires
        k <= top,
    ensures
        ones(b, k) <= ones(b, top),
        k < top && bit(b, k as int) ==> ones(b, k) < ones(b, top),
    decreases top,
{
    if top > k {
        lemma_ones_grow(b, k, (top - 1) as nat);
    }
}

/// The bitmap of an ascending list has as many bits as the list has entries.
pub proof fn lemma_bitmap_count(positions: Seq<usize>, bound: nat)
    requires
        bound <= 64,
        ascending_below(positions, bound as int),
    ensures
        ones(bitmap_of(positions), 64) == positions.len(),
    decreases positions.len(),
{
    lemma_bitmap_of(positions);
    let b = bitmap_of(positions);
    if positions.len() == 0 {
        lemma_ones_stop(b, 0, 64);
    } else {
        let rest = positions.drop_last();
        let last = positions.last();
        assert forall|i: int, j: int| 0 <= i < j < rest.len() implies (#[trigger] rest[i]) < (
        #[trigger] rest[j]) by {
            assert(rest[i] == positions[i] && rest[j] == positions[j]);
        }
        assert forall|i: int| 0 <= i < rest.len() implies (#[trigger] rest[i]) < last by {
            assert(rest[i] == positions[i]);
        }
        lemma_bitmap_count(rest, last as nat);
        lemma_bitmap_of(rest);
        let a = bitmap_of(rest);
        assert forall|j: int| last <= j < 64 implies !#[trigger] bit(a, j) by {
            if rest.contains(j as usize) {
                let k = choose|k: int| 0 <= k < rest.len() && rest[k] == j as usize;
                assert(rest[k] < last);
            }
        }
        lemma_ones_stop(a, last as nat, 64);
        assert forall|j: int| 0 <= j < last implies #[trigger] bit(a, j) == bit(b, j) by {
            if positions.contains(j as usize) {
                let k = choose|k: int| 0 <= k < positions.len() && positions[k] == j as usize;
                assert(k < positions.len() - 1);
                assert(rest[k] == j as usize);
            }
            if rest.contains(j as usize) {
                let k = choose|k: int| 0 <= k < rest.len() && rest[k] == j as usize;
                assert(positions[k] == j as usize);
            }
        }
        lemma_ones_agree(a, b, last as nat);
        assert(positions[positions.len() - 1] == last);
        assert(positions.contains(last));
        assert(bit(b, last as int));
        assert(ones(b, (last + 1) as nat) == ones(b, last as nat) + 1);
        assert forall|j: int| last + 1 <= j < 64 implies !#[trigger] bit(b, j) by {
            if positions.contains(j as usize) {
                let k = choose|k: int| 0 <= k < positions.len() && positions[k] == j as usize;
                assert(positions[k] <= last);
            }
        }
        lemma_ones_stop(b, (last + 1) as nat, 64);
    }
}

/// A bitmap is zero exactly when it has no bit.
pub proof fn lemma_zero_iff_no_bit(b: u64)
    ensures
        (b == 0) == (forall|j: int| 0 <= j < 64 ==> !#[trigger] bit(b, j)),
{
    lemma_zero_has_no_bit();
    if b != 0 {
        lemma_some_bit(b);
    }
}

/// A bitmap other than zero has a bit.
proof fn lemma_some_bit(b: u64)
    requires
        b != 0,
    ensures
        exists|j: int| 0 <= j < 64 && #[trigger] bit(b, j),
{
    if forall|j: int| 0 <= j < 64 ==> !#[trigger] bit(b, j) {
        lemma_no_bit_below(b, 64);
        assert(b & (0xffff_ffff_ffff_ffffu64 >> 0u64) == b) by (bit_vector);
    }
}

/// Without a bit below `k`, the low `k` bits are zero.
proof fn lemma_no_bit_below(b: u64, k: nat)
    requires
        0 < k <= 64,
        forall|j: int| 0 <= j < k ==> !#[trigger] bit(b, j),
    ensures
        b & (0xffff_ffff_ffff_ffffu64 >> ((64 - k) as u64)) == 0,
    decreases k,
{
    let s = (64 - k) as u64;
    if k == 1 {
        assert(!bit(b, 0));
        assert(b & (1u64 << 0u64) == 0 ==> b & (0xffff_ffff_ffff_ffffu64 >> 63u64) == 0)
            by (bit_vector);
    } else {
        lemma_no_bit_below(b, (k - 1) as nat);
        assert(!bit(b, k - 1));
        let t = (k - 1) as u64;
        assert(b & (0xffff_ffff_ffff_ffffu64 >> s) == 0) by (bit_vector)
            requires
                s < 63,
                t == 63 - s,
                b & (0xffff_ffff_ffff_ffffu64 >> ((s + 1) as u64)) == 0,
                b & (1u64 << t) == 0,
        ;
    }
}

/// Bit `i` of a bitmap is its `i`-th binary digit.
pub proof fn law_bit_is_binary_digit(b: u64, i: u64)
    requires
        i < 64,
    ensures
        bit(b, i as int) == ((b >> i) % 2 == 1),
{
    assert((b & (1u64 << i) != 0) == ((b >> i) % 2 == 1)) by (bit_vector)
        requires
            i < 64,
    ;
}

/// The number of set bits: none in zero, and one less once a set bit is cleared.
pub proof fn law_clearing_a_bit_lowers_the_count(b: u64, i: u64)
    requires
        i < 64,
    ensures
        ones(0, 64) == 0,
        bit(b, i as int) ==> ones(b, 64) == ones(b & !(1u64 << i), 64) + 1,
        !bit(b, i as int) ==> b & !(1u64 << i) == b,
{
    lemma_zero_has_no_bit();
    lemma_ones_stop(0, 0, 64);
    let c = b & !(1u64 << i);
    if bit(b, i as int) {
        assert forall|j: int| 0 <= j < 64 implies #[trigger] bit(c, j) == (bit(b, j) && j != i) by {
            let q = j as u64;
            assert((c & (1u64 << q) != 0) == ((b & (1u64 << q) != 0) && q != i)) by (bit_vector)
                requires
                    i < 64,
                    q < 64,
                    c == b & !(1u64 << i),
            ;
        }
        lemma_one_bit_apart(b, c, i as int, 64);
    } else {
        assert(b & !(1u64 << i) == b) by (bit_vector)
            requires
                b & (1u64 << i) == 0,
        ;
    }
}

proof fn lemma_one_bit_apart(b: u64, c: u64, i: int, k: nat)
    requires
        0 <= i < 64,
        k <= 64,
        bit(b, i),
        forall|j: int| 0 <= j < 64 ==> #[trigger] bit(c, j) == (bit(b, j) && j != i),
    ensures
        ones(b, k) == ones(c, k) + if i < k {
            1int
        } else {
            0
        },
    decreases k,
{
    if k > 0 {
        lemma_one_bit_apart(b, c, i, (k - 1) as nat);
        assert(bit(c, k - 1) == (bit(b, k - 1) && k - 1 != i));
    }
}

} // verus!
