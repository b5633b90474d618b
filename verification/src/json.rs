//! JSON values and maps of `serde_json`, as the flattener sees them.
//!
//! Nothing here is proved: each contract states what the named function of
//! `serde_json` does, over the model of [`crate::model`].

use crate::model::has_key;
use crate::model::keys_distinct;
use crate::model::table;
use crate::model::Json;
use serde_json::Value;
use vstd::prelude::*;

verus! {

/// `serde_json::Value`, opaque to the verifier.
#[verifier::external_type_specification]
#[verifier::external_body]
pub struct ExValue(serde_json::Value);

/// `serde_json::Map`, opaque to the verifier.
#[verifier::external_type_specification]
#[verifier::external_body]
#[verifier::reject_recursive_types(K)]
#[verifier::reject_recursive_types(V)]
pub struct ExJsonMap<K, V>(serde_json::Map<K, V>);

/// What a `serde_json::Value` holds.
pub uninterp spec fn json_of(value: Value) -> Json;

/// The entries of a `serde_json::Map`, in the order in which `iter` hands
/// them out.
pub uninterp spec fn entries_of(map: serde_json::Map<String, Value>) -> Seq<(Seq<char>, Json)>;

/// What each of `items` holds.
pub open spec fn items_of(items: Seq<Value>) -> Seq<Json> {
    Seq::new(items.len(), |i: int| json_of(items[i]))
}

/// `Value::as_object`: the map of an object, and `None` for any other value.
/// The map, as every map, holds no key twice.
#[verifier::external_body]
pub(crate) fn as_object(value: &Value) -> (r: Option<&serde_json::Map<String, Value>>)
    ensures
        r is Some <==> json_of(*value) is Object,
        r matches Some(map) ==> json_of(*value) == Json::Object(entries_of(*map)),
        r matches Some(map) ==> keys_distinct(entries_of(*map)),
{
    value.as_object()
}

/// `Value::as_array`: the vector of an array, and `None` for any other value.
#[verifier::external_body]
pub(crate) fn as_array(value: &Value) -> (r: Option<&Vec<Value>>)
    ensures
        r is Some <==> json_of(*value) is Array,
        r matches Some(items) ==> json_of(*value) == Json::Array(items_of(items@)),
{
    value.as_array()
}

/// `Value::clone`: the copy holds what `value` holds.
#[verifier::external_body]
pub(crate) fn clone_value(value: &Value) -> (r: Value)
    ensures
        json_of(r) == json_of(*value),
{
    value.clone()
}

/// The variant `Value::Object` around `map`.
#[verifier::external_body]
pub(crate) fn object_value(map: serde_json::Map<String, Value>) -> (r: Value)
    ensures
        json_of(r) == Json::Object(entries_of(map)),
{
    Value::Object(map)
}

/// The variant `Value::Array` around `items`.
#[verifier::external_body]
pub(crate) fn array_value(items: Vec<Value>) -> (r: Value)
    ensures
        json_of(r) == Json::Array(items_of(items@)),
{
    Value::Array(items)
}

/// `Map::new`: a map without entries.
#[verifier::external_body]
pub(crate) fn new_map() -> (r: serde_json::Map<String, Value>)
    ensures
        entries_of(r) == Seq::<(Seq<char>, Json)>::empty(),
{
    serde_json::Map::new()
}

/// `Map::iter`, collected: a reference to each key and value of `map`, in the
/// order of iteration.
#[verifier::external_body]
pub(crate) fn map_entries<'a>(map: &'a serde_json::Map<String, Value>) -> (r: Vec<
    (&'a String, &'a Value),
>)
    ensures
        r@.len() == entries_of(*map).len(),
        forall|i: int|
            0 <= i < r@.len() ==> (#[trigger] r@[i]).0@ == entries_of(*map)[i].0 && json_of(
                *r@[i].1,
            ) == entries_of(*map)[i].1,
{
    map.iter().collect()
}

/// `Map::is_empty`: whether `map` has no entry.
#[verifier::external_body]
pub(crate) fn map_is_empty(map: &serde_json::Map<String, Value>) -> (r: bool)
    ensures
        r == (entries_of(*map).len() == 0),
{
    map.is_empty()
}

/// `Map::contains_key`: whether `map` has an entry under `key`.
#[verifier::external_body]
pub(crate) fn map_contains_key(map: &serde_json::Map<String, Value>, key: &String) -> (r: bool)
    ensures
        r == has_key(entries_of(*map), key@),
{
    map.contains_key(key)
}

/// `Map::insert`: afterwards `key` leads to `value`, every other key leads to
/// what it led to before, and no key is listed twice. Returns the value that
/// `key` led to before, if there was one. Where the new entry stands among
/// the others is not stated.
#[verifier::external_body]
pub(crate) fn map_insert(map: &mut serde_json::Map<String, Value>, key: String, value: Value) -> (r:
    Option<Value>)
    ensures
        keys_distinct(entries_of(*final(map))),
        table(entries_of(*final(map))) == table(entries_of(*old(map))).insert(key@, json_of(value)),
        r is Some <==> has_key(entries_of(*old(map)), key@),
{
    map.insert(key, value)
}

} // verus!
