//! The values of `serde_json`, and the text that it writes for them.

use crate::json::JsonSpec;
use vstd::prelude::*;

verus! {

/// A value of `serde_json`.
#[verifier::external_type_specification]
#[verifier::external_body]
pub struct ExValue(serde_json::Value);

/// The map in which `serde_json` keeps the members of an object.
#[verifier::external_type_specification]
#[verifier::external_body]
#[verifier::reject_recursive_types(K)]
#[verifier::reject_recursive_types(V)]
pub struct ExMap<K, V>(serde_json::Map<K, V>);

/// The error of `serde_json`.
#[verifier::external_type_specification]
#[verifier::external_body]
pub struct ExError(serde_json::Error);

/// What a value of `serde_json` holds.
pub uninterp spec fn value_model(v: serde_json::Value) -> JsonSpec;

/// What a map of `serde_json` holds.
pub uninterp spec fn map_model(m: serde_json::Map<String, serde_json::Value>) -> Map<
    Seq<char>,
    JsonSpec,
>;

/// The text that `serde_json::to_string` writes for a value. It is a function of what the value
/// holds: the map of an object keeps its members in the order of their keys.
pub uninterp spec fn json_text(j: JsonSpec) -> Seq<char>;

/// What the value holds that `serde_json::from_str` reads from a text; nothing where the text is no
/// JSON that it takes.
pub uninterp spec fn parsed(text: Seq<char>) -> Option<JsonSpec>;

/// The number that `serde_json` makes of an integer.
pub uninterp spec fn integer(n: u64) -> serde_json::Number;

/// A value of `serde_json`, taken apart.
pub enum Parts {
    Null,
    Bool(bool),
    Number(serde_json::Number),
    Text(String),
    Array(Vec<serde_json::Value>),
    Object(serde_json::Map<String, serde_json::Value>),
}

/// What values of `serde_json` hold, in order.
pub open spec fn values_model(s: Seq<serde_json::Value>) -> Seq<JsonSpec> {
    s.map_values(|v: serde_json::Value| value_model(v))
}

/// What a value holds that is made of these parts.
pub open spec fn parts_model(p: Parts) -> JsonSpec {
    match p {
        Parts::Null => JsonSpec::Null,
        Parts::Bool(b) => JsonSpec::Bool(b),
        Parts::Number(n) => JsonSpec::Number(n),
        Parts::Text(s) => JsonSpec::Text(s@),
        Parts::Array(items) => JsonSpec::Array(values_model(items@)),
        Parts::Object(m) => JsonSpec::Object(map_model(m)),
    }
}

/// The keys of a sequence of entries, in order.
pub open spec fn entry_keys(s: Seq<(String, serde_json::Value)>) -> Seq<Seq<char>> {
    s.map_values(|e: (String, serde_json::Value)| e.0@)
}

/// The members of an object that has none.
pub open spec fn no_members() -> Map<Seq<char>, JsonSpec> {
    Map::empty()
}

/// Whether no line ends in a text.
pub open spec fn on_one_line(s: Seq<char>) -> bool {
    !s.contains('\n') && !s.contains('\r')
}

/// Whether a text begins and ends with a brace.
pub open spec fn in_braces(s: Seq<char>) -> bool {
    s.len() >= 2 && s[0] == '{' && s.last() == '}'
}

/// Whether a number is one that `serde_json` makes of an unsigned integer.
pub open spec fn is_integer(n: serde_json::Number) -> bool {
    exists|k: u64| n == #[trigger] integer(k)
}

/// Whether all numbers in a value are unsigned integers, and its lists and objects are nested no
/// deeper than a bound.
pub open spec fn is_plain(j: JsonSpec, depth: nat) -> bool
    decreases depth,
{
    match j {
        JsonSpec::Null => true,
        JsonSpec::Bool(_) => true,
        JsonSpec::Number(n) => is_integer(n),
        JsonSpec::Text(_) => true,
        JsonSpec::Array(items) => depth > 0 && forall|i: int|
            0 <= i < items.len() ==> is_plain(#[trigger] items[i], (depth - 1) as nat),
        JsonSpec::Object(m) => depth > 0 && forall|k: Seq<char>| #[trigger]
            m.contains_key(k) ==> is_plain(m[k], (depth - 1) as nat),
    }
}

/// The variants of `serde_json::Value`: a value holds what the parts that make it up hold.
#[verifier::external_body]
pub(crate) fn assemble(p: Parts) -> (r: serde_json::Value)
    ensures
        value_model(r) == parts_model(p),
{
    match p {
        Parts::Null => serde_json::Value::Null,
        Parts::Bool(b) => serde_json::Value::Bool(b),
        Parts::Number(n) => serde_json::Value::Number(n),
        Parts::Text(s) => serde_json::Value::String(s),
        Parts::Array(items) => serde_json::Value::Array(items),
        Parts::Object(m) => serde_json::Value::Object(m),
    }
}

/// The variants of `serde_json::Value`: the parts of a value hold what the value holds.
#[verifier::external_body]
pub(crate) fn take_apart(v: serde_json::Value) -> (r: Parts)
    ensures
        parts_model(r) == value_model(v),
{
    match v {
        serde_json::Value::Null => Parts::Null,
        serde_json::Value::Bool(b) => Parts::Bool(b),
        serde_json::Value::Number(n) => Parts::Number(n),
        serde_json::Value::String(s) => Parts::Text(s),
        serde_json::Value::Array(items) => Parts::Array(items),
        serde_json::Value::Object(m) => Parts::Object(m),
    }
}

/// `serde_json::Map::new`: a map that holds nothing.
#[verifier::external_body]
pub(crate) fn map_new() -> (r: serde_json::Map<String, serde_json::Value>)
    ensures
        map_model(r) == no_members(),
{
    serde_json::Map::new()
}

/// `serde_json::Map::insert`: afterwards the key has the value, and every other key what it had.
#[verifier::external_body]
pub(crate) fn map_insert(
    m: &mut serde_json::Map<String, serde_json::Value>,
    key: String,
    v: serde_json::Value,
)
    ensures
        map_model(*final(m)) == map_model(*old(m)).insert(key@, value_model(v)),
{
    m.insert(key, v);
}

/// `serde_json::Map::into_iter`: each key of the map once, with its value.
#[verifier::external_body]
pub(crate) fn map_entries(m: serde_json::Map<String, serde_json::Value>) -> (r: Vec<
    (String, serde_json::Value),
>)
    ensures
        entry_keys(r@).no_duplicates(),
        entry_keys(r@).to_set() == map_model(m).dom(),
        forall|i: int|
            0 <= i < r@.len() ==> map_model(m)[(#[trigger] r@[i]).0@] == value_model(r@[i].1),
{
    m.into_iter().collect()
}

/// `serde_json::to_string` on a value: it succeeds, and writes the text of what the value holds,
/// in which no line ends, since the compact form puts nothing between its tokens and a string has
/// every control character escaped. The text of an object stands between braces. Where all numbers
/// are unsigned integers and nothing is nested deeper than a hundred, `serde_json::from_str` reads
/// the value back; of other values nothing is said here, since a fraction may come back rounded and
/// the reader stops at its own limit of nesting.
#[verifier::external_body]
pub(crate) fn value_text(v: &serde_json::Value) -> (r: Result<String, serde_json::Error>)
    ensures
        r is Ok,
        r->Ok_0@ == json_text(value_model(*v)),
        on_one_line(r->Ok_0@),
        value_model(*v) is Object ==> in_braces(r->Ok_0@),
        is_plain(value_model(*v), 100) ==> parsed(r->Ok_0@) == Some(value_model(*v)),
{
    serde_json::to_string(v)
}

/// `serde_json::from_str` as a value: whether the text can be read, and what the value then holds.
#[verifier::external_body]
pub(crate) fn parse_text(text: &str) -> (r: Result<serde_json::Value, serde_json::Error>)
    ensures
        r is Ok <==> parsed(text@) is Some,
        r is Ok ==> parsed(text@) == Some(value_model(r->Ok_0)),
{
    serde_json::from_str(text)
}

/// `serde_json::Number::from` on a `u64`.
#[verifier::external_body]
pub(crate) fn number_from(n: u64) -> (r: serde_json::Number)
    ensures
        r == integer(n),
{
    serde_json::Number::from(n)
}

} // verus!
