//! The map itself: entries kept in a growable buffer, sorted by key.

use crate::decode::{dedup_by_key, sort_by_key};
use crate::iter::{VecMapIter, VecMapIterMut};
use crate::order::{compare, key_order, total_order, KeyOrder};
use crate::sorted::{
    has_key, lemma_insert_keeps_order, lemma_key_probe_splits, probe_splits, rank,
    strictly_ascending, value_of, with_entry,
};
use vstd::prelude::*;
use vstd::std_specs::iter::IteratorSpec;

verus! {

/// An ordered map that stores its entries contiguously, sorted by key.
///
/// `N` is the number of entries the map is laid out for: it decides when the
/// map counts as spilled and nothing else.
#[derive(Debug)]
pub struct VecMap<K, V, const N: usize> {
    inner: Vec<(K, V)>,
    spilled: bool,
}

impl<K, V, const N: usize> View for VecMap<K, V, N> {
    type V = Seq<(K, V)>;

    /// The entries in storage order.
    closed spec fn view(&self) -> Seq<(K, V)> {
        self.inner@
    }
}

impl<K, V, const N: usize> VecMap<K, V, N> {
    /// Whether the map has ever needed room for more than `N` entries.
    pub closed spec fn is_spilled(&self) -> bool {
        self.spilled
    }

    /// An empty map.
    pub fn new() -> (m: VecMap<K, V, N>)
        ensures
            m@ == Seq::<(K, V)>::empty(),
            !m.is_spilled(),
    {
        VecMap { inner: Vec::new(), spilled: false }
    }

    /// An empty map with room for `n` entries set aside.
    pub fn with_capacity(n: usize) -> (m: VecMap<K, V, N>)
        ensures
            m@ == Seq::<(K, V)>::empty(),
            m.is_spilled() == (n > N),
    {
        VecMap { inner: Vec::with_capacity(n), spilled: n > N }
    }

    /// Binary search steered by `probe`: `Ok` with the index of the entry
    /// that `probe` calls equal, or `Err` with the index that splits the
    /// entries it calls less from those it calls greater.
    fn search_by<F: Fn(&K) -> KeyOrder>(&self, probe: &F) -> (r: Result<usize, usize>)
        requires
            exists|p: int, found: bool| probe_splits(*probe, self@, p, found),
        ensures
            forall|p: int, found: bool| #[trigger]
                probe_splits(*probe, self@, p, found) ==> match r {
                    Ok(i) => found && i == p,
                    Err(i) => !found && i == p,
                },
    {
        let mut lo: usize = 0;
        let mut hi: usize = self.inner.len();
        while lo < hi
            invariant
                exists|p: int, found: bool| probe_splits(*probe, self@, p, found),
                0 <= lo <= hi <= self@.len(),
                forall|p: int, found: bool| #[trigger]
                    probe_splits(*probe, self@, p, found) ==> lo <= p <= hi && (found ==> p
                        < hi),
            decreases hi - lo,
        {
            let mid: usize = lo + (hi - lo) / 2;
            assert(call_requires(*probe, (&self@[mid as int].0,)));
            match probe(&self.inner[mid].0) {
                KeyOrder::Less => {
                    lo = mid + 1;
                },
                KeyOrder::Equal => {
                    return Ok(mid);
                },
                KeyOrder::Greater => {
                    hi = mid;
                },
            }
        }
        Err(lo)
    }

    /// The value of the entry that `probe` calls equal, if there is one.
    /// This is lookup by anything that the stored keys can be compared with:
    /// a borrowed form of the key, or a part of it, as long as the probe's
    /// answers fit the order in which the entries are stored.
    pub fn get_by<F: Fn(&K) -> KeyOrder>(&self, probe: F) -> (r: Option<&V>)
        requires
            exists|p: int, found: bool| probe_splits(probe, self@, p, found),
        ensures
            forall|p: int, found: bool| #[trigger]
                probe_splits(probe, self@, p, found) ==> match r {
                    Some(v) => found && *v == self@[p].1,
                    None => !found,
                },
    {
        match self.search_by(&probe) {
            Ok(i) => Some(&self.inner[i].1),
            Err(_) => None,
        }
    }

    /// The value of the entry that `probe` calls equal, if there is one, for
    /// changing it in place.
    pub fn get_mut_by<F: Fn(&K) -> KeyOrder>(&mut self, probe: F) -> (r: Option<&mut V>)
        requires
            exists|p: int, found: bool| probe_splits(probe, old(self)@, p, found),
        ensures
            final(self).is_spilled() == old(self).is_spilled(),
            forall|p: int, found: bool| #[trigger]
                probe_splits(probe, old(self)@, p, found) ==> match r {
                    Some(slot) => {
                        &&& found
                        &&& *slot == old(self)@[p].1
                        &&& final(self)@ == old(self)@.update(p, (old(self)@[p].0, *final(slot)))
                    },
                    None => !found && final(self)@ == old(self)@,
                },
    {
        match self.search_by(&probe) {
            Ok(i) => Some(&mut self.inner[i].1),
            Err(_) => None,
        }
    }

    /// Whether `probe` calls some entry equal.
    pub fn contains_by<F: Fn(&K) -> KeyOrder>(&self, probe: F) -> (b: bool)
        requires
            exists|p: int, found: bool| probe_splits(probe, self@, p, found),
        ensures
            forall|p: int, found: bool| #[trigger] probe_splits(probe, self@, p, found) ==> b == found,
    {
        self.search_by(&probe).is_ok()
    }
}

impl<K: Ord, V, const N: usize> VecMap<K, V, N> {
    /// The invariant of every map: keys ascend strictly, and a map that
    /// holds more than `N` entries has spilled.
    pub open spec fn wf(&self) -> bool {
        &&& strictly_ascending(self@)
        &&& self@.len() > N ==> self.is_spilled()
    }

    /// Binary search for `k`: `Ok` with the index of its entry, or `Err`
    /// with the index at which it would have to be inserted.
    fn search(&self, k: &K) -> (r: Result<usize, usize>)
        requires
            self.wf(),
            total_order::<K>(),
        ensures
            match r {
                Ok(i) => has_key(self@, *k) && i == rank(self@, *k) && i < self@.len(),
                Err(i) => !has_key(self@, *k) && i == rank(self@, *k) && i <= self@.len(),
            },
    {
        let probe = |key: &K| -> (o: KeyOrder)
            ensures
                o == key_order(*key, *k),
            { compare(key, k) };
        proof {
            lemma_key_probe_splits(probe, self@, *k);
        }
        let r = self.search_by(&probe);
        assert(probe_splits(probe, self@, rank(self@, *k), has_key(self@, *k)));
        r
    }

    /// Stores `v` under `k`. Where the map already has the key, the stored
    /// key stays, the value is replaced and the previous value comes back;
    /// otherwise the pair is inserted at the key's rank.
    pub fn insert(&mut self, k: K, v: V) -> (prev: Option<V>)
        requires
            old(self).wf(),
            total_order::<K>(),
        ensures
            final(self).wf(),
            prev == value_of(old(self)@, k),
            final(self)@ == with_entry(old(self)@, k, v),
            final(self).is_spilled() == (old(self).is_spilled() || final(self)@.len() > N),
    {
        match self.search(&k) {
            Ok(i) => {
                let mut v = v;
                core::mem::swap(&mut self.inner[i].1, &mut v);
                Some(v)
            },
            Err(i) => {
                proof {
                    lemma_insert_keeps_order(self@, k, v);
                }
                self.inner.insert(i, (k, v));
                if self.inner.len() > N {
                    self.spilled = true;
                }
                None
            },
        }
    }

    /// Builds a map from entries in the order in which a decoder read them:
    /// any order, and a key may come more than once. The entries are sorted
    /// by key, and of each run of entries with one key a single entry is
    /// kept; which one is left open. `size_hint` is the number of entries
    /// that the decoder announced, if it announced any: room for that many
    /// counts as set aside.
    pub fn from_entries(size_hint: Option<usize>, entries: Vec<(K, V)>) -> (m: VecMap<K, V, N>)
        requires
            total_order::<K>(),
        ensures
            m.wf(),
            forall|i: int| 0 <= i < m@.len() ==> entries@.contains(#[trigger] m@[i]),
            forall|j: int| 0 <= j < entries@.len() ==> has_key(m@, #[trigger] entries@[j].0),
            m.is_spilled() == (entries@.len() > N || match size_hint {
                Some(n) => n > N,
                None => false,
            }),
    {
        let reserved = match size_hint {
            Some(n) => n,
            None => 0,
        };
        let spilled = reserved > N || entries.len() > N;
        let mut sorted = entries;
        sort_by_key(&mut sorted);
        let inner = dedup_by_key(sorted);
        proof {
            sorted@.to_multiset_ensures();
            entries@.to_multiset_ensures();
            assert(sorted@.len() == entries@.len());
            assert forall|i: int| 0 <= i < inner@.len() implies entries@.contains(
                #[trigger] inner@[i],
            ) by {
                assert(sorted@.contains(inner@[i]));
                assert(sorted@.to_multiset().count(inner@[i]) > 0);
            }
            assert forall|j: int| 0 <= j < entries@.len() implies has_key(
                inner@,
                #[trigger] entries@[j].0,
            ) by {
                assert(entries@.contains(entries@[j]));
                assert(entries@.to_multiset().count(entries@[j]) > 0);
                assert(sorted@.contains(entries@[j]));
                let w = choose|w: int| 0 <= w < sorted@.len() && sorted@[w] == entries@[j];
                assert(has_key(inner@, sorted@[w].0));
            }
        }
        VecMap { inner, spilled }
    }

    /// The number of entries.
    pub fn len(&self) -> (n: usize)
        ensures
            n == self@.len(),
    {
        self.inner.len()
    }

    /// Whether the map has ever needed room for more than `N` entries.
    pub fn spilled(&self) -> (b: bool)
        ensures
            b == self.is_spilled(),
    {
        self.spilled
    }

    /// Whether `k` is a key of the map.
    pub fn contains(&self, k: &K) -> (b: bool)
        requires
            self.wf(),
            total_order::<K>(),
        ensures
            b == has_key(self@, *k),
    {
        self.search(k).is_ok()
    }

    /// The value stored under `k`, if there is one.
    pub fn get(&self, k: &K) -> (r: Option<&V>)
        requires
            self.wf(),
            total_order::<K>(),
        ensures
            match r {
                Some(v) => value_of(self@, *k) == Some(*v),
                None => value_of(self@, *k) is None,
            },
    {
        match self.search(k) {
            Ok(i) => Some(&self.inner[i].1),
            Err(_) => None,
        }
    }

    /// The value stored under `k`, for changing it in place. The key itself
    /// cannot be reached, so the order of the entries stays as it is.
    pub fn get_mut(&mut self, k: &K) -> (r: Option<&mut V>)
        requires
            old(self).wf(),
            total_order::<K>(),
        ensures
            final(self).wf(),
            final(self).is_spilled() == old(self).is_spilled(),
            match r {
                Some(slot) => {
                    let i = rank(old(self)@, *k);
                    &&& has_key(old(self)@, *k)
                    &&& *slot == old(self)@[i].1
                    &&& final(self)@ == old(self)@.update(i, (old(self)@[i].0, *final(slot)))
                },
                None => !has_key(old(self)@, *k) && final(self)@ == old(self)@,
            },
    {
        match self.search(k) {
            Ok(i) => Some(&mut self.inner[i].1),
            Err(_) => None,
        }
    }

    /// The entries in ascending key order.
    pub fn iter(&self) -> (it: VecMapIter<'_, K, V>)
        ensures
            it@ == self@,
    {
        VecMapIter::new(self.inner.as_slice())
    }

    /// The entries in ascending key order, each value open to change. After
    /// the iteration the map holds what the iterator's borrow was left with:
    /// the same keys in the same places, and the values as the caller left
    /// them.
    pub fn iter_mut(&mut self) -> (it: VecMapIterMut<'_, K, V>)
        ensures
            it@ == old(self)@,
            final(self)@ == final(it.lent())@,
            final(self).is_spilled() == old(self).is_spilled(),
    {
        VecMapIterMut::new(self.inner.as_mut_slice())
    }
}

impl<K, V, const N: usize> Default for VecMap<K, V, N> {
    /// An empty map.
    fn default() -> (m: VecMap<K, V, N>)
        ensures
            m@ == Seq::<(K, V)>::empty(),
            !m.is_spilled(),
    {
        VecMap::new()
    }
}

impl<K, V, const N: usize> IntoIterator for VecMap<K, V, N> {
    type Item = (K, V);

    type IntoIter = std::vec::IntoIter<(K, V)>;

    /// Gives the entries away, in ascending key order.
    fn into_iter(self) -> (it: std::vec::IntoIter<(K, V)>)
        ensures
            it.remaining() == self@,
            IteratorSpec::decrease(&it) is Some,
            IteratorSpec::initial_value_relation(&it, &it),
    {
        self.inner.into_iter()
    }
}

impl<K: Ord, V, const N: usize> vstd::std_specs::core::IndexSpecImpl<&K> for VecMap<K, V, N> {
    /// Indexing is for keys that the map holds.
    open spec fn index_req(&self, index: &&K) -> bool {
        self.wf() && total_order::<K>() && has_key(self@, **index)
    }
}

impl<K: Ord, V, const N: usize> core::ops::Index<&K> for VecMap<K, V, N> {
    type Output = V;

    /// The value stored under `k`, which has to be a key of the map.
    fn index(&self, k: &K) -> (r: &V)
        ensures
            *r == self@[rank(self@, *k)].1,
    {
        match self.get(k) {
            Some(v) => v,
            None => unreached(),
        }
    }
}

impl<K: Ord, V, const N: usize> VecMap<K, V, N> {
    /// The value stored under `k`, which has to be a key of the map, for
    /// changing it in place.
    pub fn index_mut(&mut self, k: &K) -> (r: &mut V)
        requires
            old(self).wf(),
            total_order::<K>(),
            has_key(old(self)@, *k),
        ensures
            final(self).wf(),
            final(self).is_spilled() == old(self).is_spilled(),
            *r == old(self)@[rank(old(self)@, *k)].1,
            final(self)@ == old(self)@.update(
                rank(old(self)@, *k),
                (old(self)@[rank(old(self)@, *k)].0, *final(r)),
            ),
    {
        match self.get_mut(k) {
            Some(v) => v,
            None => unreached(),
        }
    }
}

} // verus!
