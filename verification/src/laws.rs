//! What holds of every map, whatever was inserted into it.
//!
//! The statements are over the entry sequences that the map's operations are
//! specified by: `with_entry` is what `insert` does to the entries, and
//! `value_of` is what `get` finds in them.

use crate::map::VecMap;
use crate::order::{key_eq, key_lt, lemma_total_order, total_order};
use crate::sorted::{
    has_key, lemma_insert_keeps_order, lemma_rank_splits, rank, strictly_ascending, value_of,
    with_entry,
};
use vstd::prelude::*;

verus! {

/// The entries of a map that started empty and took the pairs of `ops`, one
/// insert after the other.
pub open spec fn after_inserts<K: Ord, V>(ops: Seq<(K, V)>) -> Seq<(K, V)>
    decreases ops.len(),
{
    if ops.len() == 0 {
        Seq::empty()
    } else {
        with_entry(after_inserts(ops.drop_last()), ops.last().0, ops.last().1)
    }
}

/// An insert keeps the keys strictly ascending, so no key is stored twice.
pub proof fn law_insert_keeps_order<K: Ord, V>(s: Seq<(K, V)>, k: K, v: V)
    requires
        total_order::<K>(),
        strictly_ascending(s),
    ensures
        strictly_ascending(with_entry(s, k, v)),
{
    lemma_total_order::<K>();
    lemma_rank_splits(s, k);
    if has_key(s, k) {
        let i = rank(s, k);
        let t = s.update(i, (s[i].0, v));
        assert forall|a: int, b: int| 0 <= a < b < t.len() implies key_lt(
            #[trigger] t[a].0,
            #[trigger] t[b].0,
        ) by {
            assert(t[a].0 == s[a].0 && t[b].0 == s[b].0);
        }
    } else {
        lemma_insert_keeps_order(s, k, v);
    }
}

/// After any sequence of inserts into an empty map the keys ascend strictly.
pub proof fn law_inserts_keep_order<K: Ord, V>(ops: Seq<(K, V)>)
    requires
        total_order::<K>(),
    ensures
        strictly_ascending(after_inserts(ops)),
    decreases ops.len(),
{
    if ops.len() > 0 {
        law_inserts_keep_order(ops.drop_last());
        law_insert_keeps_order(after_inserts(ops.drop_last()), ops.last().0, ops.last().1);
    }
}

/// An insert under `k` changes what is found under `k` and under the keys
/// equal to it, and nothing else.
pub proof fn law_lookup_after_insert<K: Ord, V>(s: Seq<(K, V)>, k: K, v: V, q: K)
    requires
        total_order::<K>(),
        strictly_ascending(s),
    ensures
        value_of(with_entry(s, k, v), q) == if key_eq(q, k) {
            Some(v)
        } else {
            value_of(s, q)
        },
{
    lemma_total_order::<K>();
    let t = with_entry(s, k, v);
    law_insert_keeps_order(s, k, v);
    lemma_rank_splits(s, k);
    lemma_rank_splits(s, q);
    lemma_rank_splits(t, q);
    let i = rank(s, k);
    let j = rank(s, q);
    if has_key(s, k) {
        assert(t[i] == (s[i].0, v));
        if key_eq(q, k) {
            assert(key_eq(t[i].0, q));
        } else if has_key(s, q) {
            assert(j != i);
            assert(t[j] == s[j]);
            assert(key_eq(t[j].0, q));
        } else {
            if has_key(t, q) {
                let w = choose|w: int| 0 <= w < t.len() && key_eq(#[trigger] t[w].0, q);
                assert(t[w].0 == s[w].0);
                assert(key_eq(s[w].0, q));
            }
        }
    } else {
        assert(t[i] == (k, v));
        if key_eq(q, k) {
            assert(key_eq(t[i].0, q));
        } else if has_key(s, q) {
            let w = if j < i {
                j
            } else {
                j + 1
            };
            assert(t[w] == s[j]);
            assert(key_eq(t[w].0, q));
        } else {
            if has_key(t, q) {
                let w = choose|w: int| 0 <= w < t.len() && key_eq(#[trigger] t[w].0, q);
                if w < i {
                    assert(t[w] == s[w]);
                    assert(key_eq(s[w].0, q));
                } else if w > i {
                    assert(t[w] == s[w - 1]);
                    assert(key_eq(s[w - 1].0, q));
                }
            }
        }
    }
}

/// A value that was inserted, and whose key no later insert used, is the
/// value found under its key.
pub proof fn law_inserted_value_is_found<K: Ord, V>(ops: Seq<(K, V)>, i: int)
    requires
        total_order::<K>(),
        0 <= i < ops.len(),
        forall|j: int| i < j < ops.len() ==> !key_eq(ops[i].0, #[trigger] ops[j].0),
    ensures
        value_of(after_inserts(ops), ops[i].0) == Some(ops[i].1),
    decreases ops.len(),
{
    lemma_total_order::<K>();
    let head = ops.drop_last();
    let last = ops.last();
    law_inserts_keep_order(head);
    law_lookup_after_insert(after_inserts(head), last.0, last.1, ops[i].0);
    if i < ops.len() - 1 {
        assert(!key_eq(ops[i].0, ops[ops.len() - 1].0));
        assert forall|j: int| i < j < head.len() implies !key_eq(head[i].0, #[trigger] head[j].0) by {
            assert(head[j] == ops[j]);
        }
        law_inserted_value_is_found(head, i);
    }
}

/// An insert under a key that is there hands back the value that was found
/// under it and leaves the number of entries as it was; an insert under a
/// new key finds nothing and adds one entry.
pub proof fn law_insert_len<K: Ord, V>(s: Seq<(K, V)>, k: K, v: V)
    requires
        total_order::<K>(),
        strictly_ascending(s),
    ensures
        has_key(s, k) ==> value_of(s, k) is Some && with_entry(s, k, v).len() == s.len(),
        !has_key(s, k) ==> value_of(s, k) is None && with_entry(s, k, v).len() == s.len() + 1,
{
    lemma_rank_splits(s, k);
}

/// Where two runs of entries hold the same keys in the same places, they
/// are ordered alike and a key has the same place in both: changing values
/// in place, as `get_mut` and `iter_mut` allow, cannot disturb a map.
pub proof fn law_values_do_not_matter<K: Ord, V>(a: Seq<(K, V)>, b: Seq<(K, V)>, k: K)
    requires
        a.len() == b.len(),
        forall|i: int| 0 <= i < a.len() ==> a[i].0 == b[i].0,
    ensures
        strictly_ascending(a) == strictly_ascending(b),
        has_key(a, k) == has_key(b, k),
        rank(a, k) == rank(b, k),
    decreases a.len(),
{
    if strictly_ascending(a) {
        assert forall|i: int, j: int| 0 <= i < j < b.len() implies key_lt(
            #[trigger] b[i].0,
            #[trigger] b[j].0,
        ) by {
            assert(key_lt(a[i].0, a[j].0));
        }
    }
    if strictly_ascending(b) {
        assert forall|i: int, j: int| 0 <= i < j < a.len() implies key_lt(
            #[trigger] a[i].0,
            #[trigger] a[j].0,
        ) by {
            assert(key_lt(b[i].0, b[j].0));
        }
    }
    if has_key(a, k) {
        let i = choose|i: int| 0 <= i < a.len() && key_eq(#[trigger] a[i].0, k);
        assert(key_eq(b[i].0, k));
    }
    if has_key(b, k) {
        let i = choose|i: int| 0 <= i < b.len() && key_eq(#[trigger] b[i].0, k);
        assert(key_eq(a[i].0, k));
    }
    if a.len() > 0 {
        assert forall|i: int| 0 <= i < a.drop_last().len() implies a.drop_last()[i].0
            == b.drop_last()[i].0 by {
            assert(a.drop_last()[i] == a[i] && b.drop_last()[i] == b[i]);
        }
        law_values_do_not_matter(a.drop_last(), b.drop_last(), k);
    }
}

/// An empty map holds no key.
pub proof fn law_empty_holds_nothing<K: Ord, V>(k: K)
    ensures
        !has_key(Seq::<(K, V)>::empty(), k),
        value_of(Seq::<(K, V)>::empty(), k) is None,
{
}

/// While a map is filled by inserts alone, it has spilled exactly when it
/// holds more than `N` entries: the insert that makes the entry count pass
/// `N` is the one at which it spills, and it stays spilled from then on.
pub proof fn law_spill_boundary<K: Ord, V, const N: usize>(
    before: VecMap<K, V, N>,
    k: K,
    v: V,
    after: VecMap<K, V, N>,
)
    requires
        total_order::<K>(),
        before.wf(),
        after@ == with_entry(before@, k, v),
        after.is_spilled() == (before.is_spilled() || after@.len() > N),
    ensures
        before.is_spilled() ==> after.is_spilled(),
        before.is_spilled() == (before@.len() > N) ==> after.is_spilled() == (after@.len() > N),
        !before.is_spilled() && has_key(before@, k) ==> !after.is_spilled(),
{
    law_insert_len(before@, k, v);
}

} // verus!
