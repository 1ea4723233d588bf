//! The order on keys that the map is sorted by.
//!
//! Keys are compared with `Ord::cmp`. The specifications speak of that
//! comparison through `key_order`, and of the laws it has to obey through
//! `total_order`.

use core::cmp::Ordering;
use vstd::laws_cmp::obeys_cmp;
use vstd::prelude::*;
use vstd::std_specs::cmp::OrdSpec;

verus! {

/// The outcome of comparing two keys.
#[derive(Clone, Copy, Debug, PartialEq, Eq, Structural)]
pub enum KeyOrder {
    Less,
    Equal,
    Greater,
}

/// `K`'s comparison is a total order, and the executable `cmp` computes it.
pub open spec fn total_order<K: Ord>() -> bool {
    obeys_cmp::<K>()
}

/// How `a` stands to `b` in `K`'s order.
pub open spec fn key_order<K: Ord>(a: K, b: K) -> KeyOrder {
    match a.cmp_spec(&b) {
        Ordering::Less => KeyOrder::Less,
        Ordering::Equal => KeyOrder::Equal,
        Ordering::Greater => KeyOrder::Greater,
    }
}

/// `a` sorts strictly before `b`.
pub open spec fn key_lt<K: Ord>(a: K, b: K) -> bool {
    key_order(a, b) == KeyOrder::Less
}

/// `a` and `b` are the same key as far as the order can tell.
pub open spec fn key_eq<K: Ord>(a: K, b: K) -> bool {
    key_order(a, b) == KeyOrder::Equal
}

/// Compares two keys.
pub fn compare<K: Ord>(a: &K, b: &K) -> (r: KeyOrder)
    requires
        total_order::<K>(),
    ensures
        r == key_order(*a, *b),
{
    proof {
        lemma_total_order::<K>();
    }
    match a.cmp(b) {
        Ordering::Less => KeyOrder::Less,
        Ordering::Equal => KeyOrder::Equal,
        Ordering::Greater => KeyOrder::Greater,
    }
}

/// Compares two keys, for callers that want std's own three-way result.
pub fn ordering<K: Ord>(a: &K, b: &K) -> (r: Ordering)
    requires
        total_order::<K>(),
    ensures
        r == a.cmp_spec(b),
{
    proof {
        lemma_total_order::<K>();
    }
    a.cmp(b)
}

/// What follows from `total_order`: the facts about `key_order` that the
/// proofs on sorted sequences use.
pub proof fn lemma_total_order<K: Ord>()
    requires
        total_order::<K>(),
    ensures
        K::obeys_cmp_spec(),
        forall|a: K| #[trigger] key_eq(a, a),
        forall|a: K, b: K| #[trigger] key_lt(a, b) <==> key_order(b, a) == KeyOrder::Greater,
        forall|a: K, b: K| #[trigger] key_eq(a, b) <==> key_eq(b, a),
        forall|a: K, b: K, c: K| #[trigger] key_lt(a, b) && #[trigger] key_lt(b, c) ==> key_lt(a, c),
        forall|a: K, b: K, c: K| #[trigger] key_eq(a, b) && #[trigger] key_eq(b, c) ==> key_eq(a, c),
        forall|a: K, b: K, c: K| #[trigger] key_eq(a, b) && #[trigger] key_lt(b, c) ==> key_lt(a, c),
        forall|a: K, b: K, c: K| #[trigger] key_lt(a, b) && #[trigger] key_eq(b, c) ==> key_lt(a, c),
{
    reveal(vstd::laws_cmp::obeys_cmp_ord);
    reveal(vstd::laws_cmp::obeys_cmp_partial_ord);
    reveal(vstd::laws_cmp::obeys_partial_cmp_spec_properties);
    reveal(vstd::laws_eq::obeys_eq_spec_properties);
}

} // verus!
