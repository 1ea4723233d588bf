use smallvec_map::order::compare;
use smallvec_map::VecMap;

fn keys_of<const N: usize>(m: &VecMap<u32, &'static str, N>) -> Vec<u32> {
    let mut out = Vec::new();
    let mut it = m.iter();
    while let Some((k, _)) = it.next() {
        out.push(*k);
    }
    out
}

#[test]
fn empty_map_has_no_entries() {
    let m: VecMap<u32, &'static str, 4> = VecMap::new();
    assert_eq!(m.len(), 0);
    assert!(m.iter().next().is_none());
    assert_eq!(m.get(&0), None);
    assert_eq!(m.get(&17), None);
    assert_eq!(m.get(&u32::MAX), None);
    assert!(!m.contains(&17));
    assert!(!m.spilled());
}

#[test]
fn default_is_empty() {
    let m: VecMap<u32, &'static str, 4> = VecMap::default();
    assert_eq!(m.len(), 0);
    assert!(m.iter().next().is_none());
    assert!(!m.spilled());
}

#[test]
fn insert_into_empty_map_goes_to_front() {
    let mut m: VecMap<u32, &'static str, 4> = VecMap::new();
    assert_eq!(m.insert(9, "nine"), None);
    assert_eq!(m.len(), 1);
    assert_eq!(keys_of(&m), vec![9]);
    assert_eq!(m.get(&9), Some(&"nine"));
}

#[test]
fn keys_stay_strictly_ascending_after_each_insert() {
    let mut m: VecMap<u32, &'static str, 4> = VecMap::new();
    let order = [50u32, 10, 40, 20, 30, 10, 50, 60, 0, 30];
    for k in order {
        m.insert(k, "x");
        let keys = keys_of(&m);
        for pair in keys.windows(2) {
            assert!(pair[0] < pair[1]);
        }
    }
    assert_eq!(keys_of(&m), vec![0, 10, 20, 30, 40, 50, 60]);
}

#[test]
fn inserted_values_are_found() {
    let mut m: VecMap<u32, &'static str, 4> = VecMap::new();
    m.insert(3, "three");
    m.insert(1, "one");
    m.insert(2, "two");
    assert_eq!(m.get(&1), Some(&"one"));
    assert_eq!(m.get(&2), Some(&"two"));
    assert_eq!(m.get(&3), Some(&"three"));
    assert_eq!(m.get(&4), None);
    assert_eq!(m.get(&0), None);
    assert!(m.contains(&1));
    assert!(m.contains(&3));
    assert!(!m.contains(&4));
}

#[test]
fn later_insert_under_a_key_is_the_one_found() {
    let mut m: VecMap<u32, &'static str, 4> = VecMap::new();
    m.insert(7, "first");
    m.insert(8, "other");
    m.insert(7, "second");
    assert_eq!(m.get(&7), Some(&"second"));
    assert_eq!(m.get(&8), Some(&"other"));
}

#[test]
fn insert_of_existing_key_returns_previous_value() {
    let mut m: VecMap<u32, &'static str, 4> = VecMap::new();
    assert_eq!(m.insert(5, "a"), None);
    assert_eq!(m.len(), 1);
    assert_eq!(m.insert(6, "b"), None);
    assert_eq!(m.len(), 2);
    assert_eq!(m.insert(5, "c"), Some("a"));
    assert_eq!(m.len(), 2);
    assert_eq!(m.insert(5, "d"), Some("c"));
    assert_eq!(m.len(), 2);
    assert_eq!(keys_of(&m), vec![5, 6]);
}

#[test]
fn insert_keeps_the_stored_key() {
    // Keys that compare equal but can be told apart: the order looks at the
    // first field only.
    #[derive(Debug, Clone, Copy)]
    struct Tagged(u32, char);
    impl PartialEq for Tagged {
        fn eq(&self, other: &Tagged) -> bool {
            self.0 == other.0
        }
    }
    impl Eq for Tagged {}
    impl PartialOrd for Tagged {
        fn partial_cmp(&self, other: &Tagged) -> Option<std::cmp::Ordering> {
            Some(self.cmp(other))
        }
    }
    impl Ord for Tagged {
        fn cmp(&self, other: &Tagged) -> std::cmp::Ordering {
            self.0.cmp(&other.0)
        }
    }
    let mut m: VecMap<Tagged, u32, 2> = VecMap::new();
    assert_eq!(m.insert(Tagged(1, 'a'), 10), None);
    assert_eq!(m.insert(Tagged(1, 'b'), 20), Some(10));
    assert_eq!(m.len(), 1);
    let mut it = m.iter();
    let (k, v) = it.next().unwrap();
    assert_eq!(k.1, 'a');
    assert_eq!(*v, 20);
    assert!(it.next().is_none());
}

#[test]
fn get_mut_changes_the_value_in_place() {
    let mut m: VecMap<u32, u32, 4> = VecMap::new();
    m.insert(1, 10);
    m.insert(2, 20);
    *m.get_mut(&2).unwrap() += 5;
    assert_eq!(m.get(&2), Some(&25));
    assert_eq!(m.get(&1), Some(&10));
    assert!(m.get_mut(&3).is_none());
    assert_eq!(m.len(), 2);
}

#[test]
fn index_gives_the_stored_value() {
    let mut m: VecMap<u32, u32, 4> = VecMap::new();
    m.insert(1, 10);
    m.insert(2, 20);
    assert_eq!(m[&1], 10);
    assert_eq!(m[&2], 20);
    *m.index_mut(&1) = 11;
    assert_eq!(m[&1], 11);
}

#[test]
fn with_capacity_is_empty() {
    let m: VecMap<u32, u32, 4> = VecMap::with_capacity(3);
    assert_eq!(m.len(), 0);
    assert!(!m.spilled());
    let m: VecMap<u32, u32, 4> = VecMap::with_capacity(4);
    assert!(!m.spilled());
    let m: VecMap<u32, u32, 4> = VecMap::with_capacity(5);
    assert_eq!(m.len(), 0);
    assert!(m.spilled());
    assert_eq!(m.get(&1), None);
}

#[test]
fn spills_exactly_when_one_more_than_capacity_is_inserted() {
    let mut m: VecMap<u32, u32, 3> = VecMap::new();
    assert!(!m.spilled());
    m.insert(30, 3);
    assert!(!m.spilled());
    m.insert(10, 1);
    assert!(!m.spilled());
    m.insert(20, 2);
    assert!(!m.spilled());
    // replacing a value adds no entry
    m.insert(20, 22);
    assert!(!m.spilled());
    m.insert(40, 4);
    assert!(m.spilled());
    m.insert(50, 5);
    assert!(m.spilled());
    m.insert(10, 11);
    assert!(m.spilled());
    assert_eq!(m.len(), 5);
    assert_eq!(m.get(&10), Some(&11));
    assert_eq!(m.get(&20), Some(&22));
    assert_eq!(m.get(&40), Some(&4));
    assert!(m.contains(&50));
    assert!(!m.contains(&60));
    let mut keys = Vec::new();
    let mut it = m.iter();
    while let Some((k, _)) = it.next() {
        keys.push(*k);
    }
    assert_eq!(keys, vec![10, 20, 30, 40, 50]);
}

#[test]
fn zero_capacity_spills_at_first_insert() {
    let mut m: VecMap<u32, u32, 0> = VecMap::new();
    assert!(!m.spilled());
    m.insert(1, 1);
    assert!(m.spilled());
}

#[test]
fn iter_walks_in_ascending_order_and_restarts() {
    let mut m: VecMap<u32, &'static str, 2> = VecMap::new();
    m.insert(2, "b");
    m.insert(3, "c");
    m.insert(1, "a");
    let mut it = m.iter();
    assert_eq!(it.next(), Some((&1, &"a")));
    assert_eq!(it.next(), Some((&2, &"b")));
    assert_eq!(it.next(), Some((&3, &"c")));
    assert_eq!(it.next(), None);
    assert_eq!(it.next(), None);
    let mut again = m.iter();
    assert_eq!(again.next(), Some((&1, &"a")));
}

#[test]
fn iter_mut_changes_values_and_keeps_keys() {
    let mut m: VecMap<u32, u32, 2> = VecMap::new();
    m.insert(2, 20);
    m.insert(3, 30);
    m.insert(1, 10);
    {
        let mut it = m.iter_mut();
        let mut seen = Vec::new();
        while let Some((k, v)) = it.next() {
            seen.push(*k);
            *v += *k;
        }
        assert_eq!(seen, vec![1, 2, 3]);
        assert!(it.next().is_none());
    }
    assert_eq!(m.get(&1), Some(&11));
    assert_eq!(m.get(&2), Some(&22));
    assert_eq!(m.get(&3), Some(&33));
    assert_eq!(m.len(), 3);
}

#[test]
fn iter_mut_may_stop_early() {
    let mut m: VecMap<u32, u32, 2> = VecMap::new();
    m.insert(1, 10);
    m.insert(2, 20);
    {
        let mut it = m.iter_mut();
        let (k, v) = it.next().unwrap();
        assert_eq!(*k, 1);
        *v = 0;
    }
    assert_eq!(m.get(&1), Some(&0));
    assert_eq!(m.get(&2), Some(&20));
}

#[test]
fn into_iter_gives_entries_in_ascending_order() {
    let mut m: VecMap<String, u32, 2> = VecMap::new();
    m.insert("pear".to_string(), 2);
    m.insert("apple".to_string(), 1);
    m.insert("quince".to_string(), 3);
    let all: Vec<(String, u32)> = m.into_iter().collect();
    assert_eq!(
        all,
        vec![("apple".to_string(), 1), ("pear".to_string(), 2), ("quince".to_string(), 3)]
    );
}

#[test]
fn string_keys_sort_as_strings() {
    let mut m: VecMap<String, String, 2> = VecMap::new();
    m.insert("owo".to_string(), "uwu".to_string());
    m.insert("one".to_string(), "two".to_string());
    assert_eq!(m.get(&"one".to_string()), Some(&"two".to_string()));
    assert_eq!(m.get(&"owo".to_string()), Some(&"uwu".to_string()));
    assert_eq!(m.len(), 2);
    let mut it = m.iter();
    assert_eq!(it.next().unwrap().0, "one");
    assert_eq!(it.next().unwrap().0, "owo");
}

#[test]
fn get_by_looks_up_by_a_borrowed_key() {
    let mut m: VecMap<String, u32, 2> = VecMap::new();
    m.insert("owo".to_string(), 2);
    m.insert("one".to_string(), 1);
    m.insert("two".to_string(), 3);
    assert_eq!(m.get_by(|k: &String| compare(&k.as_str(), &"one")), Some(&1));
    assert_eq!(m.get_by(|k: &String| compare(&k.as_str(), &"owo")), Some(&2));
    assert_eq!(m.get_by(|k: &String| compare(&k.as_str(), &"two")), Some(&3));
    assert_eq!(m.get_by(|k: &String| compare(&k.as_str(), &"ow")), None);
    assert_eq!(m.get_by(|k: &String| compare(&k.as_str(), &"")), None);
    assert_eq!(m.get_by(|k: &String| compare(&k.as_str(), &"zzz")), None);
    assert!(m.contains_by(|k: &String| compare(&k.as_str(), &"two")));
    assert!(!m.contains_by(|k: &String| compare(&k.as_str(), &"three")));
}

#[test]
fn get_mut_by_changes_the_value_in_place() {
    let mut m: VecMap<String, u32, 2> = VecMap::new();
    m.insert("b".to_string(), 2);
    m.insert("a".to_string(), 1);
    *m.get_mut_by(|k: &String| compare(&k.as_str(), &"b")).unwrap() = 20;
    assert!(m.get_mut_by(|k: &String| compare(&k.as_str(), &"c")).is_none());
    assert_eq!(m.get(&"b".to_string()), Some(&20));
    assert_eq!(m.get(&"a".to_string()), Some(&1));
}

#[test]
fn lookup_in_a_larger_map_finds_every_key() {
    let mut m: VecMap<u32, u32, 4> = VecMap::new();
    for i in 0..100u32 {
        // 37 is coprime to 100, so every key below 100 is inserted once
        let k = (i * 37) % 100;
        assert_eq!(m.insert(k, k * 2), None);
    }
    assert_eq!(m.len(), 100);
    for k in 0..100u32 {
        assert_eq!(m.get(&k), Some(&(k * 2)));
        assert!(m.contains(&k));
    }
    assert_eq!(m.get(&100), None);
    let mut expected = 0u32;
    let mut it = m.iter();
    while let Some((k, _)) = it.next() {
        assert_eq!(*k, expected);
        expected += 1;
    }
    assert_eq!(expected, 100);
}

#[test]
fn debug_rendering_lists_the_entries() {
    let mut m: VecMap<u32, &'static str, 2> = VecMap::new();
    m.insert(2, "b");
    m.insert(1, "a");
    let text = format!("{:?}", m);
    assert!(text.contains("(1, \"a\"), (2, \"b\")"));
}
