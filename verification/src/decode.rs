//! Turning entries in arrival order into the sorted, duplicate-free run that
//! a map stores: sort by key, then keep one entry of each run of equal keys.

use crate::order::{compare, key_eq, key_lt, lemma_total_order, ordering, total_order, KeyOrder};
use crate::sorted::{ascending, has_key, strictly_ascending};
use vstd::prelude::*;

verus! {

/// Sorts `entries` by key with `<[T]>::sort_unstable_by`.
///
/// Trusted: the slice afterwards holds the same entries, each as often as
/// before, and its keys never descend. Which of several entries with one key
/// comes first is left open, as the sort is not stable. std documents that
/// the sort may panic where the comparison is no total order, hence the
/// `requires`.
#[verifier::external_body]
pub(crate) fn sort_by_key<K: Ord, V>(entries: &mut Vec<(K, V)>)
    requires
        total_order::<K>(),
    ensures
        final(entries)@.to_multiset() == old(entries)@.to_multiset(),
        ascending(final(entries)@),
{
    entries.sort_unstable_by(|a, b| ordering(&a.0, &b.0));
}

/// Keeps the first entry of each run of equal keys.
pub(crate) fn dedup_by_key<K: Ord, V>(entries: Vec<(K, V)>) -> (out: Vec<(K, V)>)
    requires
        total_order::<K>(),
        ascending(entries@),
    ensures
        strictly_ascending(out@),
        out@.len() <= entries@.len(),
        forall|i: int| 0 <= i < out@.len() ==> entries@.contains(#[trigger] out@[i]),
        forall|j: int| 0 <= j < entries@.len() ==> has_key(out@, #[trigger] entries@[j].0),
{
    let mut out: Vec<(K, V)> = Vec::with_capacity(entries.len());
    proof {
        lemma_total_order::<K>();
    }
    for e in it: entries
        invariant
            total_order::<K>(),
            it.seq() == entries@,
            ascending(entries@),
            strictly_ascending(out@),
            out@.len() <= it.index(),
            it.index() > 0 ==> out@.len() > 0 && key_eq(
                out@.last().0,
                entries@[it.index() - 1].0,
            ),
            forall|i: int| 0 <= i < out@.len() ==> entries@.contains(#[trigger] out@[i]),
            forall|j: int| 0 <= j < it.index() ==> has_key(out@, #[trigger] entries@[j].0),
    {
        let ghost n = it.index() as int;
        let ghost before = out@;
        proof {
            lemma_total_order::<K>();
        }
        let fresh = out.len() == 0 || match compare(&out[out.len() - 1].0, &e.0) {
            KeyOrder::Equal => false,
            _ => true,
        };
        if fresh {
            proof {
                if n > 0 {
                    // the last kept key equals the previous input key, which
                    // does not sort after this one: so it sorts before it
                    assert(!key_lt(entries@[n].0, entries@[n - 1].0));
                    assert(key_eq(before.last().0, entries@[n - 1].0));
                    if !key_lt(before.last().0, e.0) {
                        assert(key_lt(e.0, before.last().0));
                        assert(key_lt(e.0, entries@[n - 1].0));
                    }
                }
            }
            out.push(e);
            proof {
                assert forall|i: int, j: int| 0 <= i < j < out@.len() implies key_lt(
                    #[trigger] out@[i].0,
                    #[trigger] out@[j].0,
                ) by {
                    if j < before.len() {
                        assert(out@[i] == before[i] && out@[j] == before[j]);
                    } else {
                        assert(out@[i] == before[i]);
                        if i < before.len() - 1 {
                            assert(key_lt(before[i].0, before.last().0));
                        }
                    }
                }
                assert forall|i: int| 0 <= i < out@.len() implies entries@.contains(
                    #[trigger] out@[i],
                ) by {
                    if i < before.len() {
                        assert(out@[i] == before[i]);
                    } else {
                        assert(out@[i] == entries@[n]);
                    }
                }
                assert forall|j: int| 0 <= j < n + 1 implies has_key(
                    out@,
                    #[trigger] entries@[j].0,
                ) by {
                    if j < n {
                        let w = choose|w: int|
                            0 <= w < before.len() && key_eq(#[trigger] before[w].0, entries@[j].0);
                        assert(out@[w] == before[w]);
                    } else {
                        assert(key_eq(out@[out@.len() - 1].0, entries@[j].0));
                    }
                }
            }
        } else {
            proof {
                assert forall|j: int| 0 <= j < n + 1 implies has_key(
                    out@,
                    #[trigger] entries@[j].0,
                ) by {
                    if j == n {
                        assert(key_eq(out@[out@.len() - 1].0, entries@[j].0));
                    }
                }
            }
        }
    }
    out
}

} // verus!
