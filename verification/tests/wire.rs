use std::fmt;
use std::marker::PhantomData;

use serde::de::{Deserialize, Deserializer, MapAccess, Visitor};
use serde::ser::{Serialize, SerializeMap, Serializer};
use smallvec_map::VecMap;

/// A map on the wire: a key-value object.
struct Wire<const N: usize>(VecMap<String, String, N>);

impl<const N: usize> Serialize for Wire<N> {
    fn serialize<S: Serializer>(&self, serializer: S) -> Result<S::Ok, S::Error> {
        let mut map = serializer.serialize_map(Some(self.0.len()))?;
        let mut it = self.0.iter();
        while let Some((k, v)) = it.next() {
            map.serialize_entry(k, v)?;
        }
        map.end()
    }
}

struct WireVisitor<const N: usize>(PhantomData<fn() -> Wire<N>>);

impl<'de, const N: usize> Visitor<'de> for WireVisitor<N> {
    type Value = Wire<N>;

    fn expecting(&self, formatter: &mut fmt::Formatter) -> fmt::Result {
        formatter.write_str("a key-value object")
    }

    fn visit_map<M: MapAccess<'de>>(self, mut acc: M) -> Result<Wire<N>, M::Error> {
        let size_hint = acc.size_hint();
        let mut entries: Vec<(String, String)> = Vec::new();
        while let Some(entry) = acc.next_entry()? {
            entries.push(entry);
        }
        Ok(Wire(VecMap::from_entries(size_hint, entries)))
    }
}

impl<'de, const N: usize> Deserialize<'de> for Wire<N> {
    fn deserialize<D: Deserializer<'de>>(deserializer: D) -> Result<Self, D::Error> {
        deserializer.deserialize_map(WireVisitor(PhantomData))
    }
}

fn keys_of<const N: usize>(m: &VecMap<String, String, N>) -> Vec<String> {
    let mut out = Vec::new();
    let mut it = m.iter();
    while let Some((k, _)) = it.next() {
        out.push(k.clone());
    }
    out
}

#[test]
fn round_trip_keeps_entries() {
    let mut m: VecMap<String, String, 2> = VecMap::new();
    m.insert("owo".to_string(), "uwu".to_string());
    m.insert("one".to_string(), "two".to_string());
    let text = serde_json::to_string(&Wire(m)).unwrap();
    assert_eq!(text, "{\"one\":\"two\",\"owo\":\"uwu\"}");
    let back: Wire<2> = serde_json::from_str(&text).unwrap();
    assert_eq!(back.0.get(&"one".to_string()), Some(&"two".to_string()));
    assert_eq!(back.0.get(&"owo".to_string()), Some(&"uwu".to_string()));
    assert_eq!(back.0.len(), 2);
}

#[test]
fn serialized_entries_come_in_ascending_key_order() {
    let mut m: VecMap<String, String, 2> = VecMap::new();
    m.insert("c".to_string(), "3".to_string());
    m.insert("a".to_string(), "1".to_string());
    m.insert("b".to_string(), "2".to_string());
    let text = serde_json::to_string(&Wire(m)).unwrap();
    assert_eq!(text, "{\"a\":\"1\",\"b\":\"2\",\"c\":\"3\"}");
}

#[test]
fn empty_map_serializes_as_empty_object() {
    let m: VecMap<String, String, 2> = VecMap::new();
    assert_eq!(serde_json::to_string(&Wire(m)).unwrap(), "{}");
    let back: Wire<2> = serde_json::from_str("{}").unwrap();
    assert_eq!(back.0.len(), 0);
    assert!(back.0.iter().next().is_none());
}

#[test]
fn decode_tolerates_a_repeated_key() {
    let back: Wire<2> = serde_json::from_str("{\"k\":\"first\",\"k\":\"second\"}").unwrap();
    assert_eq!(back.0.len(), 1);
    let v = back.0.get(&"k".to_string()).unwrap();
    assert!(v == "first" || v == "second");
}

#[test]
fn decode_sorts_descending_keys() {
    let back: Wire<4> =
        serde_json::from_str("{\"d\":\"4\",\"c\":\"3\",\"b\":\"2\",\"a\":\"1\"}").unwrap();
    assert_eq!(keys_of(&back.0), vec!["a", "b", "c", "d"]);
    assert_eq!(back.0.get(&"c".to_string()), Some(&"3".to_string()));
    assert!(!back.0.spilled());
}

#[test]
fn decode_skips_whitespace_between_tokens() {
    let data = "\n        {\n            \"owo\": \"uwu\",\n            \"one\": \"two\"\n        }\n    ";
    let back: Wire<2> = serde_json::from_str(data).unwrap();
    assert_eq!(keys_of(&back.0), vec!["one", "owo"]);
    assert!(!back.0.spilled());
}

#[test]
fn decode_rejects_what_is_no_object() {
    assert!(serde_json::from_str::<Wire<2>>("[1, 2]").is_err());
    assert!(serde_json::from_str::<Wire<2>>("{\"a\": 1}").is_err());
    assert!(serde_json::from_str::<Wire<2>>("{\"a\": \"1\"").is_err());
}
