//! Sequences of entries in strictly ascending key order, and what a key's
//! place in such a sequence is.

use crate::order::{key_eq, key_lt, key_order, lemma_total_order, total_order, KeyOrder};
use vstd::prelude::*;

verus! {

/// The keys of `s` ascend strictly: no two entries share a key.
pub open spec fn strictly_ascending<K: Ord, V>(s: Seq<(K, V)>) -> bool {
    forall|i: int, j: int| 0 <= i < j < s.len() ==> key_lt(#[trigger] s[i].0, #[trigger] s[j].0)
}

/// The keys of `s` never descend; neighbours may share a key.
pub open spec fn ascending<K: Ord, V>(s: Seq<(K, V)>) -> bool {
    forall|i: int, j: int| 0 <= i < j < s.len() ==> !key_lt(#[trigger] s[j].0, #[trigger] s[i].0)
}

/// Some entry of `s` has the key `k`.
pub open spec fn has_key<K: Ord, V>(s: Seq<(K, V)>, k: K) -> bool {
    exists|i: int| 0 <= i < s.len() && key_eq(#[trigger] s[i].0, k)
}

/// What a probe has to say of the key at index `i`, where `p` splits the
/// keys below the sought key from the others and `found` tells whether the
/// key at `p` is the sought one.
pub open spec fn verdict_at(i: int, p: int, found: bool) -> KeyOrder {
    if i < p {
        KeyOrder::Less
    } else if i == p && found {
        KeyOrder::Equal
    } else {
        KeyOrder::Greater
    }
}

/// `probe` steers a binary search over `s` to the index `p`. Asked about a
/// stored key, it says how that key stands to the one that is sought; it may
/// be asked about every key of `s`, and whatever it answers is `Less` before
/// `p`, `Greater` after `p`, and at `p` itself `Equal` where the key is
/// `found` and `Greater` where it is not.
pub open spec fn probe_splits<K, V, F: Fn(&K) -> KeyOrder>(
    probe: F,
    s: Seq<(K, V)>,
    p: int,
    found: bool,
) -> bool {
    &&& 0 <= p <= s.len()
    &&& found ==> p < s.len()
    &&& forall|i: int| 0 <= i < s.len() ==> call_requires(probe, (&#[trigger] s[i].0,))
    &&& forall|i: int, o: KeyOrder|
        0 <= i < s.len() && #[trigger] call_ensures(probe, (&s[i].0,), o) ==> o == verdict_at(
            i,
            p,
            found,
        )
}

/// The number of entries of `s` whose key sorts strictly before `k`. In an
/// ascending sequence those entries are a prefix, so this is the index at
/// which `k` is stored, or at which it would have to be inserted.
pub open spec fn rank<K: Ord, V>(s: Seq<(K, V)>, k: K) -> int
    decreases s.len(),
{
    if s.len() == 0 {
        0
    } else {
        rank(s.drop_last(), k) + if key_lt(s.last().0, k) {
            1int
        } else {
            0int
        }
    }
}

/// The value that `s` holds under `k`, if it holds the key. In an ascending
/// sequence the entry with the key stands at the key's rank.
pub open spec fn value_of<K: Ord, V>(s: Seq<(K, V)>, k: K) -> Option<V> {
    if has_key(s, k) {
        Some(s[rank(s, k)].1)
    } else {
        None
    }
}

/// `s` after `v` has been stored under `k`: the entry that has the key keeps
/// its key and takes the value, or, where no entry has it, the pair is
/// inserted at the key's rank.
pub open spec fn with_entry<K: Ord, V>(s: Seq<(K, V)>, k: K, v: V) -> Seq<(K, V)> {
    let i = rank(s, k);
    if has_key(s, k) {
        s.update(i, (s[i].0, v))
    } else {
        s.insert(i, (k, v))
    }
}

/// `rank` stays within the sequence.
pub proof fn lemma_rank_bounds<K: Ord, V>(s: Seq<(K, V)>, k: K)
    ensures
        0 <= rank(s, k) <= s.len(),
    decreases s.len(),
{
    if s.len() > 0 {
        lemma_rank_bounds(s.drop_last(), k);
    }
}

/// In an ascending sequence the rank of `k` splits the keys below `k` from
/// the others, and a stored key is found at its rank.
pub proof fn lemma_rank_splits<K: Ord, V>(s: Seq<(K, V)>, k: K)
    requires
        total_order::<K>(),
        strictly_ascending(s),
    ensures
        0 <= rank(s, k) <= s.len(),
        forall|i: int| 0 <= i < rank(s, k) ==> key_lt(#[trigger] s[i].0, k),
        forall|i: int| rank(s, k) <= i < s.len() ==> !key_lt(#[trigger] s[i].0, k),
        has_key(s, k) <==> (rank(s, k) < s.len() && key_eq(s[rank(s, k)].0, k)),
        forall|i: int| 0 <= i < s.len() && key_eq(#[trigger] s[i].0, k) ==> i == rank(s, k),
    decreases s.len(),
{
    lemma_total_order::<K>();
    lemma_rank_bounds(s, k);
    if s.len() > 0 {
        let t = s.drop_last();
        let n = s.len() - 1;
        assert(strictly_ascending(t)) by {
            assert forall|i: int, j: int| 0 <= i < j < t.len() implies key_lt(
                #[trigger] t[i].0,
                #[trigger] t[j].0,
            ) by {
                assert(t[i] == s[i] && t[j] == s[j]);
            }
        }
        lemma_rank_splits(t, k);
        let r = rank(t, k);
        assert forall|i: int| 0 <= i < r implies key_lt(#[trigger] s[i].0, k) by {
            assert(s[i] == t[i]);
        }
        if key_lt(s[n].0, k) {
            // every earlier key is below the last one, hence below `k`
            assert forall|i: int| 0 <= i < n implies key_lt(#[trigger] s[i].0, k) by {
                assert(key_lt(s[i].0, s[n].0));
            }
            if r < n {
                assert(key_lt(t[r].0, k));
                assert(false);
            }
            assert(rank(s, k) == n + 1);
        } else {
            assert(rank(s, k) == r);
            assert forall|i: int| r <= i < s.len() implies !key_lt(#[trigger] s[i].0, k) by {
                if i < n {
                    assert(s[i] == t[i]);
                }
            }
        }
        let q = rank(s, k);
        assert forall|i: int| 0 <= i < s.len() && key_eq(#[trigger] s[i].0, k) implies i == q by {
            if i < q {
                assert(key_lt(s[i].0, k));
            } else if i > q {
                assert(key_lt(s[q].0, s[i].0));
                assert(!key_lt(s[q].0, k));
                assert(key_eq(k, s[i].0));
            }
        }
        if has_key(s, k) {
            let i = choose|i: int| 0 <= i < s.len() && key_eq(#[trigger] s[i].0, k);
            assert(i == q);
        }
    }
}

/// Inserting an absent key at its rank keeps the keys ascending.
pub proof fn lemma_insert_keeps_order<K: Ord, V>(s: Seq<(K, V)>, k: K, v: V)
    requires
        total_order::<K>(),
        strictly_ascending(s),
        !has_key(s, k),
    ensures
        0 <= rank(s, k) <= s.len(),
        strictly_ascending(s.insert(rank(s, k), (k, v))),
{
    lemma_total_order::<K>();
    lemma_rank_splits(s, k);
    let p = rank(s, k);
    let t = s.insert(p, (k, v));
    assert forall|i: int, j: int| 0 <= i < j < t.len() implies key_lt(
        #[trigger] t[i].0,
        #[trigger] t[j].0,
    ) by {
        if j < p {
            assert(t[i] == s[i] && t[j] == s[j]);
        } else if j == p {
            assert(t[i] == s[i]);
        } else if i == p {
            assert(t[j] == s[j - 1]);
            assert(!key_lt(s[j - 1].0, k));
            assert(!key_eq(s[j - 1].0, k));
        } else if i < p {
            assert(t[i] == s[i] && t[j] == s[j - 1]);
            if j - 1 == i {
                assert(false);
            }
        } else {
            assert(t[i] == s[i - 1] && t[j] == s[j - 1]);
        }
    }
}

/// A probe that compares each stored key with `k` steers the search over an
/// ascending sequence to the rank of `k`.
pub proof fn lemma_key_probe_splits<K: Ord, V, F: Fn(&K) -> KeyOrder>(
    probe: F,
    s: Seq<(K, V)>,
    k: K,
)
    requires
        total_order::<K>(),
        strictly_ascending(s),
        forall|key: &K| call_requires(probe, (key,)),
        forall|key: &K, o: KeyOrder| call_ensures(probe, (key,), o) ==> o == key_order(*key, k),
    ensures
        probe_splits(probe, s, rank(s, k), has_key(s, k)),
{
    lemma_total_order::<K>();
    lemma_rank_splits(s, k);
    let p = rank(s, k);
    let found = has_key(s, k);
    assert forall|i: int, o: KeyOrder|
        0 <= i < s.len() && #[trigger] call_ensures(probe, (&s[i].0,), o) implies o == verdict_at(
        i,
        p,
        found,
    ) by {
        assert(o == key_order(s[i].0, k));
        if i < p {
            assert(key_lt(s[i].0, k));
        } else {
            assert(!key_lt(s[i].0, k));
            if key_eq(s[i].0, k) {
                assert(i == p);
            }
        }
    }
}

} // verus!
