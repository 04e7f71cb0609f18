//! JSON values, built with the JSON crate.

use crate::number::decimal;
use crate::text::texts;
use serde_json::Value;
use vstd::prelude::*;
use vstd::string::*;

verus! {

/// A value of the JSON crate.
#[verifier::external_type_specification]
#[verifier::external_body]
pub struct ExValue(serde_json::Value);

/// What a JSON value is; a number is taken by its text.
pub enum JsonView {
    Null,
    Bool(bool),
    Number(Seq<char>),
    Text(Seq<char>),
    List(Seq<JsonView>),
    Object(Map<Seq<char>, JsonView>),
}

/// What a value of the JSON crate holds.
pub uninterp spec fn json_of(v: serde_json::Value) -> JsonView;

/// What `serde_json::to_string_pretty` writes for a value.
pub uninterp spec fn pretty_text(v: JsonView) -> Seq<char>;

/// What `Value::to_string` writes for a value.
pub uninterp spec fn compact_text(v: JsonView) -> Seq<char>;

/// What some values hold.
pub open spec fn json_list_of(v: Seq<Value>) -> Seq<JsonView> {
    Seq::new(v.len(), |i: int| json_of(v[i]))
}

/// An entry of an object.
pub type Entry = (Seq<char>, JsonView);

/// What some entries hold.
pub open spec fn entries_of(v: Seq<(String, Value)>) -> Seq<Entry> {
    Seq::new(v.len(), |i: int| (v[i].0@, json_of(v[i].1)))
}

/// The object of some entries with distinct keys.
pub open spec fn object(es: Seq<Entry>) -> Map<Seq<char>, JsonView>
    decreases es.len(),
{
    if es.len() == 0 {
        Map::empty()
    } else {
        object(es.drop_last()).insert(es.last().0, es.last().1)
    }
}

/// Makes `Value::Null`.
#[verifier::external_body]
pub(crate) fn json_null() -> (r: Value)
    ensures
        json_of(r) == JsonView::Null,
{
    Value::Null
}

/// Calls `Value::from` on a number, which makes a `Value::Number` of it.
#[verifier::external_body]
pub(crate) fn json_number(n: u64) -> (r: Value)
    ensures
        json_of(r) == JsonView::Number(decimal(n as nat)),
{
    Value::from(n)
}

/// Calls `Value::from` on a text, which makes a `Value::String` of it.
#[verifier::external_body]
pub(crate) fn json_text(s: &str) -> (r: Value)
    ensures
        json_of(r) == JsonView::Text(s@),
{
    Value::from(s)
}

/// Makes a `Value::Array` of some values.
#[verifier::external_body]
pub(crate) fn json_list(v: Vec<Value>) -> (r: Value)
    ensures
        json_of(r) == JsonView::List(json_list_of(v@)),
{
    Value::Array(v)
}

/// Whether no key occurs twice.
pub open spec fn distinct_keys(es: Seq<Entry>) -> bool {
    forall|i: int, j: int| 0 <= i < j < es.len() ==> (#[trigger] es[i]).0 != (#[trigger] es[j]).0
}

/// Makes a `Value::Object` of some entries, by the `FromIterator` of
/// `serde_json::Map`. The keys have to be distinct: which of two entries with
/// one key it keeps is not documented.
#[verifier::external_body]
pub(crate) fn json_object(v: Vec<(String, Value)>) -> (r: Value)
    requires
        distinct_keys(entries_of(v@)),
    ensures
        json_of(r) == JsonView::Object(object(entries_of(v@))),
{
    Value::Object(v.into_iter().collect())
}

/// Calls `serde_json::to_string_pretty`, which cannot fail on a `Value` and
/// writes what the value holds, the keys of an object in their order.
#[verifier::external_body]
pub(crate) fn json_pretty(v: &Value) -> (r: String)
    ensures
        r@ == pretty_text(json_of(*v)),
{
    serde_json::to_string_pretty(v).unwrap()
}

/// Calls `Value::to_string`, which writes what the value holds without white
/// space, the keys of an object in their order.
#[verifier::external_body]
pub(crate) fn json_compact(v: &Value) -> (r: String)
    ensures
        r@ == compact_text(json_of(*v)),
{
    v.to_string()
}

/// A list of texts.
pub open spec fn text_list(v: Seq<Seq<char>>) -> JsonView {
    JsonView::List(Seq::new(v.len(), |i: int| JsonView::Text(v[i])))
}

/// Makes a list of texts.
pub fn json_texts(v: &Vec<String>) -> (r: Value)
    ensures
        json_of(r) == text_list(texts(v@)),
{
    let mut out: Vec<Value> = Vec::new();
    let mut i: usize = 0;
    while i < v.len()
        invariant
            i <= v@.len(),
            out@.len() == i,
            forall|j: int| 0 <= j < i ==> json_of(#[trigger] out@[j]) == JsonView::Text(v@[j]@),
        decreases v@.len() - i,
    {
        out.push(json_text(v[i].as_str()));
        i += 1;
    }
    assert(json_list_of(out@) =~= Seq::new(texts(v@).len(), |j: int| JsonView::Text(texts(v@)[j])));
    json_list(out)
}

/// The object with one entry.
pub open spec fn single(key: Seq<char>, v: JsonView) -> JsonView {
    JsonView::Object(object(seq![(key, v)]))
}

/// Makes an object with one entry.
pub fn json_single(key: &str, v: Value) -> (r: Value)
    ensures
        json_of(r) == single(key@, json_of(v)),
{
    let ghost want = seq![(key@, json_of(v))];
    let mut e: Vec<(String, Value)> = Vec::new();
    e.push((key.to_owned(), v));
    assert(entries_of(e@) =~= want);
    json_object(e)
}

/// The text of the object that reports an error.
pub fn error_json(e: &str) -> (r: String)
    ensures
        r@ == compact_text(single("error"@, JsonView::Text(e@))),
{
    let t = json_text(e);
    let o = json_single("error", t);
    json_compact(&o)
}

/// An object of one entry has that entry alone, and a list of texts has each of
/// them in its place.
pub proof fn law_small_values(key: Seq<char>, v: JsonView, ts: Seq<Seq<char>>, i: int)
    requires
        0 <= i < ts.len(),
    ensures
        single(key, v) == JsonView::Object(Map::empty().insert(key, v)),
        text_list(ts) is List,
        text_list(ts)->List_0.len() == ts.len(),
        text_list(ts)->List_0[i] == JsonView::Text(ts[i]),
{
    reveal_with_fuel(object, 2);
    assert(seq![(key, v)].drop_last() =~= Seq::empty());
}

/// Each further entry of an object is found under its key, and changes what is
/// found under no other.
pub proof fn law_objects_hold_their_entries(
    es: Seq<Entry>,
    key: Seq<char>,
    v: JsonView,
    other: Seq<char>,
)
    requires
        other != key,
    ensures
        object(es.push((key, v))).dom().contains(key),
        object(es.push((key, v)))[key] == v,
        object(es.push((key, v))).dom().contains(other) == object(es).dom().contains(other),
        object(es).dom().contains(other) ==> object(es.push((key, v)))[other] == object(es)[other],
{
    assert(es.push((key, v)).drop_last() =~= es);
}

} // verus!
