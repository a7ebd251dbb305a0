//! JSON documents, read and written by `serde_json`, seen as trees of plain values.
use vstd::prelude::*;

verus! {

/// A JSON object as `serde_json` holds it.
pub type JsonObject = serde_json::Map<String, serde_json::Value>;

/// `serde_json::Value`, carried opaquely; what it holds is named by `json_tree`.
#[verifier::external_type_specification]
#[verifier::external_body]
pub struct ExJsonValue(serde_json::Value);

/// `serde_json::Map`, carried opaquely; what it holds is named by `json_object`.
#[verifier::external_type_specification]
#[verifier::external_body]
#[verifier::reject_recursive_types(K)]
#[verifier::reject_recursive_types(V)]
pub struct ExJsonMap<K, V>(serde_json::Map<K, V>);

/// `serde_json::Number`, carried opaquely inside a tree.
#[verifier::external_type_specification]
#[verifier::external_body]
pub struct ExJsonNumber(serde_json::Number);

/// A JSON document: an object is a map from keys to documents (the order in which
/// `serde_json` prints the keys is its own business, see `json_pretty`).
pub enum JsonTree {
    Null,
    Bool(bool),
    Number(serde_json::Number),
    Str(Seq<char>),
    Array(Seq<JsonTree>),
    Object(Map<Seq<char>, JsonTree>),
}

/// The document that a `serde_json::Value` holds.
pub uninterp spec fn json_tree(v: serde_json::Value) -> JsonTree;

/// The entries that a `serde_json::Map` holds.
pub uninterp spec fn json_object(m: JsonObject) -> Map<Seq<char>, JsonTree>;

/// The document `serde_json::from_slice` reads from `bytes`, or `None` where it reports an error.
pub uninterp spec fn json_parse_bytes(bytes: Seq<u8>) -> Option<JsonTree>;

/// The document `serde_json::from_str` reads from `text`, or `None` where it reports an error.
pub uninterp spec fn json_parse_text(text: Seq<char>) -> Option<JsonTree>;

/// The text `serde_json::to_string_pretty` writes for a document.
pub uninterp spec fn json_pretty(t: JsonTree) -> Seq<char>;

/// The object with no entries.
pub open spec fn no_entries() -> Map<Seq<char>, JsonTree> {
    Map::empty()
}

/// The documents held by a vector of values.
pub open spec fn trees_of(items: Seq<serde_json::Value>) -> Seq<JsonTree> {
    items.map_values(|v: serde_json::Value| json_tree(v))
}

/// `serde_json::from_slice::<Value>`: the document read from `bytes`, named by
/// `json_parse_bytes`; `None` where the call reports an error.
#[verifier::external_body]
pub(crate) fn parse_json_bytes(bytes: &[u8]) -> (r: Option<serde_json::Value>)
    ensures
        match r {
            Some(v) => json_parse_bytes(bytes@) == Some(json_tree(v)),
            None => json_parse_bytes(bytes@) is None,
        },
{
    serde_json::from_slice::<serde_json::Value>(bytes).ok()
}

/// `serde_json::from_str::<Value>`: the document read from `text`, named by
/// `json_parse_text`; `None` where the call reports an error.
#[verifier::external_body]
pub(crate) fn parse_json_text(text: &str) -> (r: Option<serde_json::Value>)
    ensures
        match r {
            Some(v) => json_parse_text(text@) == Some(json_tree(v)),
            None => json_parse_text(text@) is None,
        },
{
    serde_json::from_str::<serde_json::Value>(text).ok()
}

/// `Value::as_object`: the map of an object, `None` for any other document.
#[verifier::external_body]
pub(crate) fn as_object(v: &serde_json::Value) -> (r: Option<&JsonObject>)
    ensures
        match r {
            Some(m) => json_tree(*v) == JsonTree::Object(json_object(*m)),
            None => !(json_tree(*v) is Object),
        },
{
    v.as_object()
}

/// `Value::as_array`: the items of an array, `None` for any other document.
#[verifier::external_body]
pub(crate) fn as_array(v: &serde_json::Value) -> (r: Option<&Vec<serde_json::Value>>)
    ensures
        match r {
            Some(a) => json_tree(*v) == JsonTree::Array(trees_of(a@)),
            None => !(json_tree(*v) is Array),
        },
{
    v.as_array()
}

/// `Value::as_str`: the text of a string, `None` for any other document.
#[verifier::external_body]
pub(crate) fn as_str(v: &serde_json::Value) -> (r: Option<&str>)
    ensures
        match r {
            Some(s) => json_tree(*v) == JsonTree::Str(s@),
            None => !(json_tree(*v) is Str),
        },
{
    v.as_str()
}

/// `Map::get`: the value under `key`, if there is one.
#[verifier::external_body]
pub(crate) fn map_get<'a>(m: &'a JsonObject, key: &str) -> (r: Option<&'a serde_json::Value>)
    ensures
        match r {
            Some(x) => json_object(*m).contains_key(key@) && json_tree(*x) == json_object(*m)[key@],
            None => !json_object(*m).contains_key(key@),
        },
{
    m.get(key)
}

/// `Map::new`: an empty map.
#[verifier::external_body]
pub(crate) fn map_new() -> (r: JsonObject)
    ensures
        json_object(r) == no_entries(),
{
    serde_json::Map::new()
}

/// `Map::insert`: puts `value` under `key`, replacing what was there.
#[verifier::external_body]
pub(crate) fn map_insert(m: &mut JsonObject, key: String, value: serde_json::Value)
    ensures
        json_object(*final(m)) == json_object(*old(m)).insert(key@, json_tree(value)),
{
    m.insert(key, value);
}

/// `Value::clone`: a value holding the same document.
#[verifier::external_body]
pub(crate) fn clone_value(v: &serde_json::Value) -> (r: serde_json::Value)
    ensures
        json_tree(r) == json_tree(*v),
{
    v.clone()
}

/// `Value::Object`: the object holding the entries of `m`.
#[verifier::external_body]
pub(crate) fn object_value(m: JsonObject) -> (r: serde_json::Value)
    ensures
        json_tree(r) == JsonTree::Object(json_object(m)),
{
    serde_json::Value::Object(m)
}

/// `Value::Array`: the array holding the documents of `items`, in order.
#[verifier::external_body]
pub(crate) fn array_value(items: Vec<serde_json::Value>) -> (r: serde_json::Value)
    ensures
        json_tree(r) == JsonTree::Array(trees_of(items@)),
{
    serde_json::Value::Array(items)
}

/// `serde_json::to_string_pretty` on a value: the text named by `json_pretty`. (A
/// `Value` has string keys only and its serialization does not fail.)
#[verifier::external_body]
pub(crate) fn to_pretty(v: &serde_json::Value) -> (r: String)
    ensures
        r@ == json_pretty(json_tree(*v)),
{
    match serde_json::to_string_pretty(v) {
        Ok(s) => s,
        Err(_) => String::new(),
    }
}

} // verus!
