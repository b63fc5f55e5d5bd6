//! Sorting by a numeric key, keeping equal keys in their order.

use vstd::prelude::*;
use vstd::relations::total_ordering;
use vstd::seq_lib::{lemma_sorted_unique, to_multiset_insert};

verus! {

/// Whether entry `i` comes before entry `j`: by key, and by position where the keys are equal.
pub open spec fn comes_before(keys: Seq<i64>, i: int, j: int) -> bool {
    keys[i] < keys[j] || (keys[i] == keys[j] && i < j)
}

/// Whether `p` lists the positions from `lo` to `hi`, each once, in stable order.
pub open spec fn orders_range(p: Seq<usize>, keys: Seq<i64>, lo: int, hi: int) -> bool {
    &&& p.len() == hi - lo
    &&& forall|i: int| 0 <= i < p.len() ==> lo <= (#[trigger] p[i]) < hi
    &&& forall|k: usize| lo <= k < hi ==> #[trigger] p.contains(k)
    &&& forall|i: int, j: int|
        0 <= i < j < p.len() ==> comes_before(keys, #[trigger] p[i] as int, #[trigger] p[j] as int)
}

/// Whether `p` lists all positions, each once, in stable order.
pub open spec fn is_stable_order(p: Seq<usize>, keys: Seq<i64>) -> bool {
    orders_range(p, keys, 0, keys.len() as int)
}

/// The values in ascending order.
pub open spec fn ascending(values: Seq<i64>) -> Seq<i64> {
    values.sort_by(|a: i64, b: i64| a <= b)
}

/// The positions of `keys` in stable order.
pub fn stable_order(keys: &Vec<i64>) -> (p: Vec<usize>)
    ensures
        is_stable_order(p@, keys@),
{
    sort_range(keys, 0, keys.len())
}

fn sort_range(keys: &Vec<i64>, lo: usize, hi: usize) -> (p: Vec<usize>)
    requires
        lo <= hi <= keys@.len(),
    ensures
        orders_range(p@, keys@, lo as int, hi as int),
    decreases hi - lo,
{
    let mut p: Vec<usize> = Vec::new();
    if hi - lo == 0 {
        return p;
    }
    if hi - lo == 1 {
        p.push(lo);
        assert(p@[0] == lo);
        return p;
    }
    let mid: usize = lo + (hi - lo) / 2;
    let left: Vec<usize> = sort_range(keys, lo, mid);
    let right: Vec<usize> = sort_range(keys, mid, hi);
    merge(keys, &left, &right, Ghost(lo as int), Ghost(mid as int), Ghost(hi as int))
}

fn merge(
    keys: &Vec<i64>,
    left: &Vec<usize>,
    right: &Vec<usize>,
    Ghost(lo): Ghost<int>,
    Ghost(mid): Ghost<int>,
    Ghost(hi): Ghost<int>,
) -> (p: Vec<usize>)
    requires
        0 <= lo <= mid <= hi <= keys@.len(),
        orders_range(left@, keys@, lo, mid),
        orders_range(right@, keys@, mid, hi),
    ensures
        orders_range(p@, keys@, lo, hi),
{
    let mut p: Vec<usize> = Vec::new();
    let mut i: usize = 0;
    let mut j: usize = 0;
    while i < left.len() || j < right.len()
        invariant
            0 <= lo <= mid <= hi <= keys@.len(),
            orders_range(left@, keys@, lo, mid),
            orders_range(right@, keys@, mid, hi),
            i <= left@.len(),
            j <= right@.len(),
            p@.len() == i + j,
            forall|k: int| 0 <= k < p@.len() ==> lo <= (#[trigger] p@[k]) < hi,
            forall|k: int| 0 <= k < i ==> p@.contains(#[trigger] left@[k]),
            forall|k: int| 0 <= k < j ==> p@.contains(#[trigger] right@[k]),
            forall|a: int, b: int|
                0 <= a < b < p@.len() ==> comes_before(
                    keys@,
                    #[trigger] p@[a] as int,
                    #[trigger] p@[b] as int,
                ),
            forall|a: int, b: int|
                0 <= a < p@.len() && i <= b < left@.len() ==> comes_before(
                    keys@,
                    #[trigger] p@[a] as int,
                    #[trigger] left@[b] as int,
                ),
            forall|a: int, b: int|
                0 <= a < p@.len() && j <= b < right@.len() ==> comes_before(
                    keys@,
                    #[trigger] p@[a] as int,
                    #[trigger] right@[b] as int,
                ),
        decreases left@.len() - i + right@.len() - j,
    {
        let ghost before = p@;
        let take_left: bool = if i < left.len() {
            if j < right.len() {
                keys[left[i]] <= keys[right[j]]
            } else {
                true
            }
        } else {
            false
        };
        if take_left {
            let x: usize = left[i];
            p.push(x);
            i = i + 1;
            proof {
                lemma_push_contains(before, x);
                assert(p@[before.len() as int] == x);
                assert forall|b: int| j <= b < right@.len() implies comes_before(
                    keys@,
                    x as int,
                    #[trigger] right@[b] as int,
                ) by {
                    if b > j {
                        assert(comes_before(keys@, right@[j as int] as int, right@[b] as int));
                    }
                }
            }
        } else {
            let x: usize = right[j];
            p.push(x);
            j = j + 1;
            proof {
                lemma_push_contains(before, x);
                assert(p@[before.len() as int] == x);
                assert forall|b: int| i <= b < left@.len() implies comes_before(
                    keys@,
                    x as int,
                    #[trigger] left@[b] as int,
                ) by {
                    if b > i {
                        assert(comes_before(keys@, left@[i as int] as int, left@[b] as int));
                    }
                }
            }
        }
    }
    assert forall|k: usize| lo <= k < hi implies #[trigger] p@.contains(k) by {
        if k < mid {
            assert(left@.contains(k));
            let a = choose|a: int| 0 <= a < left@.len() && left@[a] == k;
            assert(p@.contains(left@[a]));
        } else {
            assert(right@.contains(k));
            let a = choose|a: int| 0 <= a < right@.len() && right@[a] == k;
            assert(p@.contains(right@[a]));
        }
    }
    p
}

proof fn lemma_push_contains(s: Seq<usize>, x: usize)
    ensures
        s.push(x).contains(x),
        forall|y: usize| s.contains(y) ==> #[trigger] s.push(x).contains(y),
{
    assert(s.push(x)[s.len() as int] == x);
    assert forall|y: usize| s.contains(y) implies #[trigger] s.push(x).contains(y) by {
        let k = choose|k: int| 0 <= k < s.len() && s[k] == y;
        assert(s.push(x)[k] == y);
    }
}

/// The values that a list of positions names.
pub open spec fn picked<A>(values: Seq<A>, p: Seq<usize>) -> Seq<A> {
    Seq::new(p.len(), |i: int| values[p[i] as int])
}

/// The values in ascending order.
pub fn sorted_values(values: &Vec<i64>) -> (r: Vec<i64>)
    ensures
        r@ == ascending(values@),
        r@.len() == values@.len(),
{
    let p: Vec<usize> = stable_order(values);
    let mut r: Vec<i64> = Vec::new();
    let mut i: usize = 0;
    while i < p.len()
        invariant
            i <= p@.len(),
            is_stable_order(p@, values@),
            r@ == picked(values@, p@).take(i as int),
        decreases p@.len() - i,
    {
        r.push(values[p[i]]);
        assert(picked(values@, p@).take(i + 1) =~= picked(values@, p@).take(i as int).push(
            values@[p@[i as int] as int],
        ));
        i = i + 1;
    }
    assert(picked(values@, p@).take(i as int) =~= picked(values@, p@));
    proof {
        lemma_order_sorts(values@, p@);
    }
    r
}

/// Picking the values in stable order sorts them.
pub proof fn lemma_order_sorts(values: Seq<i64>, p: Seq<usize>)
    requires
        values.len() <= usize::MAX,
        is_stable_order(p, values),
    ensures
        picked(values, p) == ascending(values),
{
    let leq = |a: i64, b: i64| a <= b;
    assert(total_ordering(leq));
    values.lemma_sort_by_ensures(leq);
    lemma_picked_multiset(values, p, values.len() as int);
    assert(values.take(values.len() as int) =~= values);
    let s = picked(values, p);
    assert forall|i: int, j: int| 0 <= i < j < s.len() implies #[trigger] leq(s[i], s[j]) by {
        assert(comes_before(values, p[i] as int, p[j] as int));
    }
    lemma_sorted_unique(s, ascending(values), leq);
}

/// Positions that are each below `n` and listed once name the first `n` values.
pub proof fn lemma_picked_multiset<A>(values: Seq<A>, p: Seq<usize>, n: int)
    requires
        0 <= n <= values.len() <= usize::MAX,
        p.len() == n,
        forall|i: int| 0 <= i < p.len() ==> (#[trigger] p[i]) < n,
        forall|k: usize| k < n ==> #[trigger] p.contains(k),
        forall|i: int, j: int|
            0 <= i < j < p.len() ==> (#[trigger] p[i]) != (#[trigger] p[j]),
    ensures
        picked(values, p).to_multiset() == values.take(n).to_multiset(),
    decreases n,
{
    if n == 0 {
        assert(picked(values, p) =~= values.take(0));
    } else {
        let top = (n - 1) as usize;
        assert(p.contains(top));
        let at = choose|at: int| 0 <= at < p.len() && p[at] == top;
        let rest = p.remove(at);
        assert forall|i: int| 0 <= i < rest.len() implies (#[trigger] rest[i]) < n - 1 by {
            if i < at {
                assert(rest[i] == p[i]);
            } else {
                assert(rest[i] == p[i + 1]);
            }
        }
        assert forall|k: usize| k < n - 1 implies #[trigger] rest.contains(k) by {
            assert(p.contains(k));
            let i = choose|i: int| 0 <= i < p.len() && p[i] == k;
            if i < at {
                assert(rest[i] == k);
            } else {
                assert(rest[i - 1] == k);
            }
        }
        assert forall|i: int, j: int| 0 <= i < j < rest.len() implies (#[trigger] rest[i]) != (
        #[trigger] rest[j]) by {
            let a = if i < at { i } else { i + 1 };
            let b = if j < at { j } else { j + 1 };
            assert(rest[i] == p[a] && rest[j] == p[b]);
        }
        lemma_picked_multiset(values, rest, n - 1);
        let x = values[n - 1];
        assert(picked(values, p) =~= picked(values, rest).insert(at, x));
        to_multiset_insert(picked(values, rest), at, x);
        assert(values.take(n) =~= values.take(n - 1).insert(n - 1, x));
        to_multiset_insert(values.take(n - 1), n - 1, x);
    }
}

/// There is only one stable order.
pub proof fn law_stable_order_is_unique(p: Seq<usize>, q: Seq<usize>, keys: Seq<i64>)
    requires
        is_stable_order(p, keys),
        is_stable_order(q, keys),
    ensures
        p == q,
{
    lemma_same_order(p, q, keys);
}

proof fn lemma_same_order(p: Seq<usize>, q: Seq<usize>, keys: Seq<i64>)
    requires
        p.len() == q.len(),
        forall|k: usize| #[trigger] p.contains(k) <==> q.contains(k),
        forall|i: int, j: int|
            0 <= i < j < p.len() ==> comes_before(
                keys,
                #[trigger] p[i] as int,
                #[trigger] p[j] as int,
            ),
        forall|i: int, j: int|
            0 <= i < j < q.len() ==> comes_before(
                keys,
                #[trigger] q[i] as int,
                #[trigger] q[j] as int,
            ),
    ensures
        p == q,
    decreases p.len(),
{
    if p.len() > 0 {
        let n = p.len() as int;
        assert(p.contains(p[n - 1]) && q.contains(q[n - 1]));
        assert(q.contains(p[n - 1]) && p.contains(q[n - 1]));
        let i = choose|i: int| 0 <= i < q.len() && q[i] == p[n - 1];
        let j = choose|j: int| 0 <= j < p.len() && p[j] == q[n - 1];
        if i < n - 1 {
            assert(comes_before(keys, q[i] as int, q[n - 1] as int));
        }
        if j < n - 1 {
            assert(comes_before(keys, p[j] as int, p[n - 1] as int));
        }
        assert(p[n - 1] == q[n - 1]);
        let a = p.drop_last();
        let b = q.drop_last();
        assert forall|k: usize| #[trigger] a.contains(k) <==> b.contains(k) by {
            if a.contains(k) {
                let x = choose|x: int| 0 <= x < a.len() && a[x] == k;
                assert(p[x] == k && comes_before(keys, p[x] as int, p[n - 1] as int));
                assert(p.contains(k));
                let y = choose|y: int| 0 <= y < q.len() && q[y] == k;
                assert(b[y] == k);
            }
            if b.contains(k) {
                let x = choose|x: int| 0 <= x < b.len() && b[x] == k;
                assert(q[x] == k && comes_before(keys, q[x] as int, q[n - 1] as int));
                assert(q.contains(k));
                assert(p.contains(k));
                let y = choose|y: int| 0 <= y < p.len() && p[y] == k;
                assert(a[y] == k);
            }
        }
        assert forall|i: int, j: int| 0 <= i < j < a.len() implies comes_before(
            keys,
            #[trigger] a[i] as int,
            #[trigger] a[j] as int,
        ) by {
            assert(a[i] == p[i] && a[j] == p[j]);
        }
        assert forall|i: int, j: int| 0 <= i < j < b.len() implies comes_before(
            keys,
            #[trigger] b[i] as int,
            #[trigger] b[j] as int,
        ) by {
            assert(b[i] == q[i] && b[j] == q[j]);
        }
        lemma_same_order(a, b, keys);
        assert(p =~= a.push(p[n - 1]));
        assert(q =~= b.push(q[n - 1]));
    } else {
        assert(p =~= q);
    }
}

} // verus!
