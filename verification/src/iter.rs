//! Walking a map's entries in ascending key order.

use vstd::prelude::*;

verus! {

/// The entries of a map that are still to come, in ascending key order.
pub struct VecMapIter<'a, K, V> {
    items: &'a [(K, V)],
    pos: usize,
}

impl<'a, K, V> View for VecMapIter<'a, K, V> {
    type V = Seq<(K, V)>;

    /// The entries not yet handed out.
    closed spec fn view(&self) -> Seq<(K, V)> {
        self.items@.subrange(self.pos as int, self.items@.len() as int)
    }
}

impl<'a, K, V> VecMapIter<'a, K, V> {
    #[verifier::type_invariant]
    spec fn in_bounds(self) -> bool {
        self.pos <= self.items@.len()
    }

    /// An iterator over all of `items`.
    pub(crate) fn new(items: &'a [(K, V)]) -> (it: VecMapIter<'a, K, V>)
        ensures
            it@ == items@,
    {
        let it = VecMapIter { items, pos: 0 };
        assert(it@ =~= items@);
        it
    }

    /// Hands out the next entry, or `None` once all have been handed out.
    pub fn next(&mut self) -> (r: Option<(&'a K, &'a V)>)
        ensures
            match r {
                Some((k, v)) => {
                    &&& old(self)@.len() > 0
                    &&& *k == old(self)@[0].0
                    &&& *v == old(self)@[0].1
                    &&& final(self)@ == old(self)@.drop_first()
                },
                None => old(self)@.len() == 0 && final(self)@ == old(self)@,
            },
    {
        proof {
            use_type_invariant(&*self);
        }
        if self.pos < self.items.len() {
            let entry = &self.items[self.pos];
            self.pos = self.pos + 1;
            assert(final_view(self.items@, self.pos as int) =~= final_view(
                self.items@,
                self.pos - 1,
            ).drop_first());
            Some((&entry.0, &entry.1))
        } else {
            None
        }
    }
}

/// What is left of `items` from `pos` on.
spec fn final_view<K, V>(items: Seq<(K, V)>, pos: int) -> Seq<(K, V)> {
    items.subrange(pos, items.len() as int)
}

/// The entries of a map that are still to come, in ascending key order, each
/// with its value open to change. Keys are handed out by shared reference
/// only, so the order of the entries cannot be disturbed.
pub struct VecMapIterMut<'a, K, V> {
    items: &'a mut [(K, V)],
}

impl<'a, K, V> View for VecMapIterMut<'a, K, V> {
    type V = Seq<(K, V)>;

    /// The entries not yet handed out, as they stand now.
    closed spec fn view(&self) -> Seq<(K, V)> {
        self.items@
    }
}

impl<'a, K, V> VecMapIterMut<'a, K, V> {
    /// The part of the map's storage that the iterator still borrows.
    /// `final(it.lent())@` is what that part will hold once every borrow
    /// taken from it has ended.
    pub closed spec fn lent(&self) -> &'a mut [(K, V)] {
        self.items
    }

    /// An iterator over all of `items`.
    pub(crate) fn new(items: &'a mut [(K, V)]) -> (it: VecMapIterMut<'a, K, V>)
        ensures
            it@ == old(items)@,
            final(it.lent())@ == final(items)@,
    {
        VecMapIterMut { items }
    }

    /// Hands out the next entry, or `None` once all have been handed out.
    /// What the storage will hold in the end is the entry handed out, with
    /// the value that the caller leaves in it, followed by what the rest of
    /// the iteration leaves.
    pub fn next(&mut self) -> (r: Option<(&'a K, &'a mut V)>)
        ensures
            match r {
                Some((k, v)) => {
                    &&& old(self)@.len() > 0
                    &&& *k == old(self)@[0].0
                    &&& *v == old(self)@[0].1
                    &&& final(self)@ == old(self)@.drop_first()
                    &&& final(old(self).lent())@ == seq![(*k, *final(v))] + final(final(self).lent())@
                },
                None => {
                    &&& old(self)@.len() == 0
                    &&& final(self)@.len() == 0
                    &&& final(old(self).lent())@.len() == 0
                },
            },
    {
        let mut items: &'a mut [(K, V)] = &mut [];
        core::mem::swap(&mut self.items, &mut items);
        if items.len() == 0 {
            None
        } else {
            let (head, tail) = items.split_at_mut(1);
            self.items = tail;
            match head.first_mut() {
                Some(entry) => Some((&entry.0, &mut entry.1)),
                None => None,
            }
        }
    }
}

} // verus!
