//! Stable ordering of records by a `u64` key (a time stamp), newest or oldest
//! first, as positions into the given list.

use vstd::prelude::*;

verus! {

/// `x` may stand before `y`: not newer when ascending, not older when descending.
pub open spec fn in_order(x: u64, y: u64, newest_first: bool) -> bool {
    if newest_first { x >= y } else { x <= y }
}

/// Position `i` placed into `order` after the last position whose key may
/// stand before its own.
pub open spec fn insert_position(order: Seq<int>, keys: Seq<u64>, i: int, newest_first: bool) -> Seq<int>
    decreases order.len(),
{
    if order.len() == 0 {
        seq![i]
    } else if in_order(keys[order.last()], keys[i], newest_first) {
        order.push(i)
    } else {
        insert_position(order.drop_last(), keys, i, newest_first).push(order.last())
    }
}

/// The positions `0..n` stably sorted by key: equal keys keep their order.
pub open spec fn stable_order(keys: Seq<u64>, n: nat, newest_first: bool) -> Seq<int>
    decreases n,
{
    if n == 0 {
        Seq::empty()
    } else {
        insert_position(stable_order(keys, (n - 1) as nat, newest_first), keys, n - 1, newest_first)
    }
}

pub open spec fn as_ints(v: Seq<usize>) -> Seq<int> {
    v.map_values(|x: usize| x as int)
}

/// `s` cut to at most `n` items.
pub open spec fn at_most(s: Seq<int>, n: nat) -> Seq<int> {
    if s.len() <= n {
        s
    } else {
        s.take(n as int)
    }
}

proof fn lemma_insert_at(order: Seq<int>, keys: Seq<u64>, i: int, newest_first: bool, p: int)
    requires
        0 <= p <= order.len(),
        forall|j: int| 0 <= j < order.len() ==> 0 <= #[trigger] order[j] < keys.len(),
        0 <= i < keys.len(),
        forall|j: int| p <= j < order.len() ==> !in_order(keys[#[trigger] order[j]], keys[i], newest_first),
        p == 0 || in_order(keys[order[p - 1]], keys[i], newest_first),
    ensures
        insert_position(order, keys, i, newest_first) == order.insert(p, i),
    decreases order.len(),
{
    if order.len() == 0 {
        assert(order.insert(p, i) =~= seq![i]);
    } else if p == order.len() {
        assert(order.insert(p, i) =~= order.push(i));
    } else {
        let d = order.drop_last();
        assert(!in_order(keys[order[order.len() - 1]], keys[i], newest_first));
        assert forall|j: int| p <= j < d.len() implies !in_order(keys[#[trigger] d[j]], keys[i], newest_first) by {
            assert(d[j] == order[j]);
        }
        if p > 0 {
            assert(d[p - 1] == order[p - 1]);
        }
        lemma_insert_at(d, keys, i, newest_first, p);
        assert(d.insert(p, i).push(order.last()) =~= order.insert(p, i));
    }
}

proof fn lemma_order_range(keys: Seq<u64>, n: nat, newest_first: bool)
    requires
        n <= keys.len(),
    ensures
        stable_order(keys, n, newest_first).len() == n,
        forall|j: int| 0 <= j < n ==> 0 <= #[trigger] stable_order(keys, n, newest_first)[j] < n,
    decreases n,
{
    if n > 0 {
        let prev = stable_order(keys, (n - 1) as nat, newest_first);
        lemma_order_range(keys, (n - 1) as nat, newest_first);
        lemma_insert_members(prev, keys, n - 1, newest_first);
    }
}

proof fn lemma_insert_members(order: Seq<int>, keys: Seq<u64>, i: int, newest_first: bool)
    ensures
        insert_position(order, keys, i, newest_first).len() == order.len() + 1,
        forall|j: int| 0 <= j < order.len() + 1 ==> (#[trigger] insert_position(order, keys, i, newest_first)[j] == i || order.contains(insert_position(order, keys, i, newest_first)[j])),
    decreases order.len(),
{
    if order.len() > 0 && !in_order(keys[order.last()], keys[i], newest_first) {
        let d = order.drop_last();
        lemma_insert_members(d, keys, i, newest_first);
        let r = insert_position(order, keys, i, newest_first);
        assert forall|j: int| 0 <= j < order.len() + 1 implies (#[trigger] r[j] == i || order.contains(r[j])) by {
            if j < order.len() {
                assert(r[j] == insert_position(d, keys, i, newest_first)[j]);
                if r[j] != i {
                    let w = choose|w: int| 0 <= w < d.len() && d[w] == r[j];
                    assert(order[w] == d[w]);
                }
            } else {
                assert(order[order.len() - 1] == r[j]);
            }
        }
    } else if order.len() > 0 {
        let r = order.push(i);
        assert forall|j: int| 0 <= j < order.len() + 1 implies (#[trigger] r[j] == i || order.contains(r[j])) by {
            if j < order.len() {
                assert(order[j] == r[j]);
            }
        }
    }
}

fn fits(x: u64, y: u64, newest_first: bool) -> (b: bool)
    ensures
        b == in_order(x, y, newest_first),
{
    if newest_first {
        x >= y
    } else {
        x <= y
    }
}

/// Positions of `keys` stably sorted by key, newest or oldest first.
pub fn sorted_positions(keys: &Vec<u64>, newest_first: bool) -> (r: Vec<usize>)
    ensures
        as_ints(r@) == stable_order(keys@, keys@.len(), newest_first),
        r@.len() == keys@.len(),
        forall|j: int| 0 <= j < r@.len() ==> #[trigger] r@[j] < keys@.len(),
{
    let mut out: Vec<usize> = Vec::new();
    let mut i: usize = 0;
    while i < keys.len()
        invariant
            i <= keys.len(),
            as_ints(out@) == stable_order(keys@, i as nat, newest_first),
        decreases keys.len() - i,
    {
        proof {
            lemma_order_range(keys@, i as nat, newest_first);
        }
        let ghost ov = as_ints(out@);
        let k = keys[i];
        assert forall|j: int| 0 <= j < out@.len() implies #[trigger] out@[j] < i by {
            assert(ov[j] == out@[j] as int);
        }
        let mut p: usize = out.len();
        while p > 0 && !fits(keys[out[p - 1]], k, newest_first)
            invariant
                p <= out.len(),
                ov == as_ints(out@),
                i < keys.len(),
                k == keys@[i as int],
                ov == stable_order(keys@, i as nat, newest_first),
                ov.len() == i,
                out@.len() == i,
                forall|j: int| 0 <= j < out@.len() ==> #[trigger] out@[j] < i,
                forall|j: int| 0 <= j < i ==> 0 <= #[trigger] ov[j] < i,
                forall|j: int| p <= j < ov.len() ==> !in_order(keys@[#[trigger] ov[j]], k, newest_first),
            decreases p,
        {
            assert(ov[p - 1] == out@[p - 1] as int);
            p = p - 1;
        }
        proof {
            if p > 0 {
                assert(ov[p - 1] == out@[p - 1] as int);
            }
            lemma_insert_at(ov, keys@, i as int, newest_first, p as int);
        }
        out.insert(p, i);
        assert(as_ints(out@) =~= ov.insert(p as int, i as int));
        i = i + 1;
    }
    proof {
        lemma_order_range(keys@, keys@.len(), newest_first);
        assert forall|j: int| 0 <= j < out@.len() implies #[trigger] out@[j] < keys@.len() by {
            assert(as_ints(out@)[j] == out@[j] as int);
        }
    }
    out
}

/// The order has `n` positions, each below `n`.
pub proof fn lemma_order_range_pub(keys: Seq<u64>, n: nat, newest_first: bool)
    requires
        n <= keys.len(),
    ensures
        stable_order(keys, n, newest_first).len() == n,
        forall|j: int| 0 <= j < n ==> 0 <= #[trigger] stable_order(keys, n, newest_first)[j] < n,
{
    lemma_order_range(keys, n, newest_first);
}

/// The order is sorted: each position's key may stand before every later one's.
pub proof fn lemma_stable_order_sorted(keys: Seq<u64>, n: nat, newest_first: bool)
    requires
        n <= keys.len(),
    ensures
        forall|a: int, b: int|
            0 <= a < b < n ==> in_order(
                keys[stable_order(keys, n, newest_first)[a]],
                keys[stable_order(keys, n, newest_first)[b]],
                newest_first,
            ),
    decreases n,
{
    if n > 0 {
        let prev = stable_order(keys, (n - 1) as nat, newest_first);
        lemma_stable_order_sorted(keys, (n - 1) as nat, newest_first);
        lemma_order_range(keys, (n - 1) as nat, newest_first);
        lemma_insert_sorted(prev, keys, n - 1, newest_first);
    }
}

proof fn lemma_insert_sorted(order: Seq<int>, keys: Seq<u64>, i: int, newest_first: bool)
    requires
        forall|j: int| 0 <= j < order.len() ==> 0 <= #[trigger] order[j] < keys.len(),
        0 <= i < keys.len(),
        forall|a: int, b: int| 0 <= a < b < order.len() ==> in_order(keys[order[a]], keys[order[b]], newest_first),
    ensures
        forall|a: int, b: int|
            0 <= a < b < order.len() + 1 ==> in_order(
                keys[insert_position(order, keys, i, newest_first)[a]],
                keys[insert_position(order, keys, i, newest_first)[b]],
                newest_first,
            ),
    decreases order.len(),
{
    lemma_insert_members(order, keys, i, newest_first);
    if order.len() > 0 && !in_order(keys[order.last()], keys[i], newest_first) {
        let d = order.drop_last();
        assert forall|j: int| 0 <= j < d.len() implies 0 <= #[trigger] d[j] < keys.len() by {
            assert(d[j] == order[j]);
        }
        assert forall|a: int, b: int| 0 <= a < b < d.len() implies in_order(keys[d[a]], keys[d[b]], newest_first) by {
            assert(d[a] == order[a] && d[b] == order[b]);
        }
        lemma_insert_sorted(d, keys, i, newest_first);
        lemma_insert_members(d, keys, i, newest_first);
        let m = insert_position(d, keys, i, newest_first);
        let r = m.push(order.last());
        assert forall|a: int, b: int| 0 <= a < b < order.len() + 1 implies in_order(keys[r[a]], keys[r[b]], newest_first) by {
            if b == order.len() {
                assert(r[a] == m[a]);
                assert(r[b] == order[order.len() - 1]);
                if m[a] != i {
                    let w = choose|w: int| 0 <= w < d.len() && d[w] == m[a];
                    assert(d[w] == order[w]);
                }
            } else {
                assert(r[a] == m[a] && r[b] == m[b]);
            }
        }
    } else if order.len() > 0 {
        let r = order.push(i);
        assert forall|a: int, b: int| 0 <= a < b < order.len() + 1 implies in_order(keys[r[a]], keys[r[b]], newest_first) by {
            if b < order.len() {
                assert(r[a] == order[a] && r[b] == order[b]);
            } else {
                assert(r[a] == order[a]);
                assert(r[b] == i);
                assert(order[order.len() - 1] == order.last());
                if a < order.len() - 1 {
                    assert(in_order(keys[order[a]], keys[order[order.len() - 1]], newest_first));
                }
            }
        }
    }
}

/// The order lists every position exactly once.
pub proof fn lemma_stable_order_permutation(keys: Seq<u64>, n: nat, newest_first: bool)
    requires
        n <= keys.len(),
    ensures
        stable_order(keys, n, newest_first).to_multiset() == Seq::new(n, |j: int| j).to_multiset(),
    decreases n,
{
    broadcast use vstd::seq_lib::to_multiset_insert, vstd::seq_lib::to_multiset_build;

    if n > 0 {
        let prev = stable_order(keys, (n - 1) as nat, newest_first);
        lemma_stable_order_permutation(keys, (n - 1) as nat, newest_first);
        lemma_order_range(keys, (n - 1) as nat, newest_first);
        lemma_insert_is_insert(prev, keys, n - 1, newest_first);
        let p = choose|p: int| 0 <= p <= prev.len() && #[trigger] prev.insert(p, n - 1) == insert_position(prev, keys, n - 1, newest_first);
        assert(stable_order(keys, n, newest_first) == prev.insert(p, n - 1));
        assert(prev.insert(p, n - 1).to_multiset() == prev.to_multiset().insert(n - 1));
        let base = Seq::new((n - 1) as nat, |j: int| j);
        assert(Seq::new(n, |j: int| j) =~= base.push(n - 1));
        assert(base.push(n - 1).to_multiset() =~= base.to_multiset().insert(n - 1));
    } else {
        assert(stable_order(keys, n, newest_first) =~= Seq::new(n, |j: int| j));
    }
}

proof fn lemma_insert_is_insert(order: Seq<int>, keys: Seq<u64>, i: int, newest_first: bool)
    ensures
        exists|p: int| 0 <= p <= order.len() && #[trigger] order.insert(p, i) == insert_position(order, keys, i, newest_first),
    decreases order.len(),
{
    if order.len() == 0 {
        assert(order.insert(0, i) =~= seq![i]);
    } else if in_order(keys[order.last()], keys[i], newest_first) {
        assert(order.insert(order.len() as int, i) =~= order.push(i));
    } else {
        let d = order.drop_last();
        lemma_insert_is_insert(d, keys, i, newest_first);
        let p = choose|p: int| 0 <= p <= d.len() && #[trigger] d.insert(p, i) == insert_position(d, keys, i, newest_first);
        assert(d.insert(p, i).push(order.last()) =~= order.insert(p, i));
    }
}

} // verus!
