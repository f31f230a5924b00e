//! Stable ordering of items by 32-bit keys.
//!
//! A stable order lists every index once, by increasing key, and keeps
//! indices of equal keys in their original order.

use vstd::prelude::*;

verus! {

/// Index `x` comes before index `y`: by key, then by position.
pub open spec fn key_lt(keys: Seq<u32>, x: int, y: int) -> bool {
    keys[x] < keys[y] || (keys[x] == keys[y] && x < y)
}

/// `idx` lists each index of `keys` once, by increasing key, indices of
/// equal keys in increasing order.
pub open spec fn is_stable_order(keys: Seq<u32>, idx: Seq<usize>) -> bool {
    &&& idx.len() == keys.len()
    &&& forall|i: int| 0 <= i < idx.len() ==> #[trigger] idx[i] < keys.len()
    &&& forall|k: usize| k < keys.len() ==> #[trigger] idx.contains(k)
    &&& forall|i: int, j: int|
        0 <= i < j < idx.len() ==> key_lt(keys, #[trigger] idx[i] as int, #[trigger] idx[j] as int)
}

/// The stable order of `keys`.
pub open spec fn stable_order(keys: Seq<u32>) -> Seq<usize> {
    choose|idx: Seq<usize>| is_stable_order(keys, idx)
}

/// There is only one stable order of given keys.
pub proof fn lemma_stable_order_unique(keys: Seq<u32>, a: Seq<usize>, b: Seq<usize>)
    requires
        is_stable_order(keys, a),
        is_stable_order(keys, b),
    ensures
        a == b,
{
    assert forall|i: int| 0 <= i < a.len() implies a[i] == b[i] by {
        lemma_stable_order_unique_at(keys, a, b, i);
    }
    assert(a =~= b);
}

proof fn lemma_stable_order_unique_at(keys: Seq<u32>, a: Seq<usize>, b: Seq<usize>, i: int)
    requires
        is_stable_order(keys, a),
        is_stable_order(keys, b),
        0 <= i < a.len(),
    ensures
        a[i] == b[i],
    decreases i,
{
    if i > 0 {
        lemma_stable_order_unique_at(keys, a, b, i - 1);
    }
    assert forall|j: int| 0 <= j < i implies a[j] == b[j] by {
        lemma_stable_order_unique_at(keys, a, b, j);
    }
    let x = a[i];
    let y = b[i];
    if x != y {
        assert(b.contains(x) && a.contains(y)) by {
            assert(a[i] < keys.len());
            assert(b[i] < keys.len());
        }
        let q = choose|q: int| 0 <= q < b.len() && b[q] == x;
        let p = choose|p: int| 0 <= p < a.len() && a[p] == y;
        if q < i {
            assert(a[q] == b[q]);
            assert(key_lt(keys, a[q] as int, a[i] as int));
        }
        if p < i {
            assert(a[p] == b[p]);
            assert(key_lt(keys, b[p] as int, b[i] as int));
        }
        assert(q > i);
        assert(p > i);
        assert(key_lt(keys, a[i] as int, a[p] as int));
        assert(key_lt(keys, b[i] as int, b[q] as int));
    }
}

/// Computes the stable order of `keys`, by insertion.
pub fn stable_order_of(keys: &Vec<u32>) -> (r: Vec<usize>)
    ensures
        is_stable_order(keys@, r@),
        r@ == stable_order(keys@),
{
    let n = keys.len();
    let mut idx: Vec<usize> = Vec::with_capacity(n);
    let mut i: usize = 0;
    while i < n
        invariant
            i <= n,
            n == keys@.len(),
            idx@.len() == i,
            forall|q: int| 0 <= q < idx@.len() ==> #[trigger] idx@[q] < i,
            forall|k: usize| k < i ==> #[trigger] idx@.contains(k),
            forall|p: int, q: int|
                0 <= p < q < idx@.len() ==> key_lt(
                    keys@,
                    #[trigger] idx@[p] as int,
                    #[trigger] idx@[q] as int,
                ),
        decreases n - i,
    {
        let key = keys[i];
        let mut p: usize = 0;
        while p < idx.len() && keys[idx[p]] <= key
            invariant
                p <= idx@.len(),
                i < n,
                n == keys@.len(),
                key == keys@[i as int],
                forall|q: int| 0 <= q < idx@.len() ==> #[trigger] idx@[q] < i,
                forall|q: int| 0 <= q < p ==> keys@[#[trigger] idx@[q] as int] <= key,
            decreases idx@.len() - p,
        {
            p = p + 1;
        }
        let ghost old_idx = idx@;
        idx.insert(p, i);
        proof {
            assert(idx@ =~= old_idx.insert(p as int, i));
            assert forall|q: int| 0 <= q < idx@.len() implies #[trigger] idx@[q] < i + 1 by {
                if q < p {
                } else if q > p {
                    assert(idx@[q] == old_idx[q - 1]);
                }
            }
            assert forall|k: usize| k < i + 1 implies #[trigger] idx@.contains(k) by {
                if k == i {
                    assert(idx@[p as int] == i);
                } else {
                    assert(old_idx.contains(k));
                    let w = choose|w: int| 0 <= w < old_idx.len() && old_idx[w] == k;
                    if w < p {
                        assert(idx@[w] == k);
                    } else {
                        assert(idx@[w + 1] == k);
                    }
                }
            }
            assert forall|a: int, b: int| 0 <= a < b < idx@.len() implies key_lt(
                keys@,
                #[trigger] idx@[a] as int,
                #[trigger] idx@[b] as int,
            ) by {
                if a < p && b < p {
                    assert(key_lt(keys@, old_idx[a] as int, old_idx[b] as int));
                } else if a < p && b == p {
                    assert(keys@[old_idx[a] as int] <= key);
                    assert(old_idx[a] < i);
                } else if a < p && b > p {
                    assert(idx@[b] == old_idx[b - 1]);
                    assert(key_lt(keys@, old_idx[a] as int, old_idx[b - 1] as int));
                } else if a == p {
                    assert(idx@[b] == old_idx[b - 1]);
                    assert(b - 1 >= p);
                    if p < old_idx.len() {
                        assert(keys@[old_idx[p as int] as int] > key);
                        if b - 1 > p {
                            assert(key_lt(keys@, old_idx[p as int] as int, old_idx[b - 1] as int));
                        }
                    }
                } else {
                    assert(idx@[a] == old_idx[a - 1]);
                    assert(idx@[b] == old_idx[b - 1]);
                    assert(key_lt(keys@, old_idx[a - 1] as int, old_idx[b - 1] as int));
                }
            }
        }
        i = i + 1;
    }
    proof {
        assert(is_stable_order(keys@, idx@));
        let c = stable_order(keys@);
        assert(is_stable_order(keys@, c));
        lemma_stable_order_unique(keys@, idx@, c);
    }
    idx
}

/// The first position from `from` of `idx` whose key exceeds `key`, or the
/// length of `idx`.
pub open spec fn first_greater(keys: Seq<u32>, idx: Seq<usize>, key: u32, from: int) -> int
    decreases idx.len() - from,
{
    if from >= idx.len() {
        idx.len() as int
    } else if keys[idx[from] as int] > key {
        from
    } else {
        first_greater(keys, idx, key, from + 1)
    }
}

proof fn lemma_first_greater(keys: Seq<u32>, idx: Seq<usize>, key: u32, from: int)
    requires
        0 <= from <= idx.len(),
    ensures
        from <= first_greater(keys, idx, key, from) <= idx.len(),
        forall|q: int|
            from <= q < first_greater(keys, idx, key, from) ==> keys[#[trigger] idx[q] as int] <= key,
        first_greater(keys, idx, key, from) < idx.len() ==> keys[idx[first_greater(
            keys,
            idx,
            key,
            from,
        )] as int] > key,
    decreases idx.len() - from,
{
    if from < idx.len() && keys[idx[from] as int] <= key {
        lemma_first_greater(keys, idx, key, from + 1);
    }
}

/// A stable order of the first `n` keys, built by insertion.
proof fn stable_order_witness(keys: Seq<u32>, n: nat) -> (idx: Seq<usize>)
    requires
        n <= keys.len(),
        keys.len() <= usize::MAX + 1,
    ensures
        idx.len() == n,
        forall|q: int| 0 <= q < idx.len() ==> #[trigger] idx[q] < n,
        forall|k: usize| (k as int) < n ==> #[trigger] idx.contains(k),
        forall|a: int, b: int|
            0 <= a < b < idx.len() ==> key_lt(keys, #[trigger] idx[a] as int, #[trigger] idx[b] as int),
    decreases n,
{
    if n == 0 {
        Seq::empty()
    } else {
        let i = (n - 1) as usize;
        let old_idx = stable_order_witness(keys, (n - 1) as nat);
        let key = keys[i as int];
        let p = first_greater(keys, old_idx, key, 0);
        lemma_first_greater(keys, old_idx, key, 0);
        let idx = old_idx.insert(p, i);
        assert forall|q: int| 0 <= q < idx.len() implies #[trigger] idx[q] < n by {
            if q < p {
                assert(idx[q] == old_idx[q]);
            } else if q > p {
                assert(idx[q] == old_idx[q - 1]);
            }
        }
        assert forall|k: usize| (k as int) < n implies #[trigger] idx.contains(k) by {
            if k == i {
                assert(idx[p] == i);
            } else {
                assert(old_idx.contains(k));
                let w = choose|w: int| 0 <= w < old_idx.len() && old_idx[w] == k;
                if w < p {
                    assert(idx[w] == k);
                } else {
                    assert(idx[w + 1] == k);
                }
            }
        }
        assert forall|a: int, b: int| 0 <= a < b < idx.len() implies key_lt(
            keys,
            #[trigger] idx[a] as int,
            #[trigger] idx[b] as int,
        ) by {
            if a < p && b < p {
                assert(idx[a] == old_idx[a]);
                assert(idx[b] == old_idx[b]);
            } else if a < p && b == p {
                assert(idx[a] == old_idx[a]);
                assert(keys[old_idx[a] as int] <= key);
                assert(old_idx[a] < i);
            } else if a < p && b > p {
                assert(idx[a] == old_idx[a]);
                assert(idx[b] == old_idx[b - 1]);
            } else if a == p {
                assert(idx[b] == old_idx[b - 1]);
                if b - 1 > p {
                    assert(key_lt(keys, old_idx[p] as int, old_idx[b - 1] as int));
                }
            } else {
                assert(idx[a] == old_idx[a - 1]);
                assert(idx[b] == old_idx[b - 1]);
            }
        }
        idx
    }
}

/// Every list of keys has a stable order.
pub proof fn lemma_stable_order_exists(keys: Seq<u32>)
    requires
        keys.len() <= usize::MAX + 1,
    ensures
        is_stable_order(keys, stable_order(keys)),
{
    let w = stable_order_witness(keys, keys.len());
    assert(is_stable_order(keys, w));
}

/// A stable order lists each index once.
pub proof fn lemma_stable_order_injective(keys: Seq<u32>, idx: Seq<usize>)
    requires
        is_stable_order(keys, idx),
    ensures
        forall|i: int, j: int| 0 <= i < j < idx.len() ==> #[trigger] idx[i] != #[trigger] idx[j],
{
    assert forall|i: int, j: int| 0 <= i < j < idx.len() implies #[trigger] idx[i] != #[trigger] idx[j] by {
        assert(key_lt(keys, idx[i] as int, idx[j] as int));
    }
}

} // verus!
