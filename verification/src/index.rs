//! An index of labels, held in `serde_json`'s map: it keeps one position per
//! label and hands the labels out in order.

use vstd::prelude::*;
use crate::text;

verus! {

/// `serde_json`'s map type.
#[verifier::external_type_specification]
#[verifier::external_body]
#[verifier::reject_recursive_types(K)]
#[verifier::reject_recursive_types(V)]
pub struct JsonMap<K, V>(serde_json::Map<K, V>);

/// `serde_json`'s value type.
#[verifier::external_type_specification]
#[verifier::external_body]
pub struct JsonAny(serde_json::Value);

/// The keys of a map, each with the unsigned integer that its value holds (0
/// for a value that is none).
pub uninterp spec fn contents(m: serde_json::Map<String, serde_json::Value>) -> Map<Seq<char>, u64>;

/// `serde_json::Map::new` makes a map without keys.
#[verifier::external_body]
pub(crate) fn new_index() -> (m: serde_json::Map<String, serde_json::Value>)
    ensures
        contents(m).dom() == Set::<Seq<char>>::empty(),
{
    serde_json::Map::new()
}

/// `serde_json::Map::insert` sets the value of one key, whether the key was
/// there or not, and leaves the others.
#[verifier::external_body]
pub(crate) fn set(m: &mut serde_json::Map<String, serde_json::Value>, key: String, position: u64)
    ensures
        contents(*final(m)) == contents(*old(m)).insert(key@, position),
{
    m.insert(key, serde_json::Value::from(position));
}

/// `serde_json::Map::iter` hands out every key once, with its value, in the
/// order of the keys: the map is a `BTreeMap`, and strings are ordered by their
/// characters.
#[verifier::external_body]
pub(crate) fn items(m: &serde_json::Map<String, serde_json::Value>) -> (r: Vec<(String, u64)>)
    ensures
        forall|i: int|
            0 <= i < r@.len() ==> contents(*m).contains_pair((#[trigger] r@[i]).0@, r@[i].1),
        forall|k: Seq<char>| #[trigger]
            contents(*m).contains_key(k) ==> exists|i: int|
                0 <= i < r@.len() && (#[trigger] r@[i]).0@ == k,
        forall|i: int, j: int|
            0 <= i < j < r@.len() ==> text::precedes(
                (#[trigger] r@[i]).0@,
                (#[trigger] r@[j]).0@,
            ),
{
    m.iter().map(|(k, v)| (k.clone(), v.as_u64().unwrap_or_default())).collect()
}

} // verus!
