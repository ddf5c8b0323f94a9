//! JSON documents, which `serde_json` holds, writes and reads.

use vstd::prelude::*;

use crate::uci;

verus! {

/// What a JSON value holds. A number that is negative, or that `serde_json` holds as a float, such as
/// `1.5` and `1.0`, is `Other`.
pub enum Json {
    Null,
    Bool(bool),
    Uint(nat),
    Text(Seq<char>),
    Items(Seq<Json>),
    Members(Map<Seq<char>, Json>),
    Other,
}

/// The value of `serde_json`.
#[verifier::external_type_specification]
#[verifier::external_body]
pub struct ExValue(serde_json::Value);

/// What a value of `serde_json` holds.
pub uninterp spec fn held(v: serde_json::Value) -> Json;

/// The text that `serde_json::to_string` writes.
pub uninterp spec fn written(j: Json) -> Seq<char>;

/// What `serde_json::from_str` reads, or what it says of the fault.
pub uninterp spec fn read(source: Seq<char>) -> Result<Json, Seq<char>>;

/// The result is this value.
pub open spec fn gives(r: Result<Json, Seq<char>>, j: Json) -> bool {
    r matches Ok(v) && v == j
}

/// The result is this fault.
pub open spec fn fails(r: Result<Json, Seq<char>>, fault: Seq<char>) -> bool {
    r matches Err(e) && e == fault
}

/// What the values of a list hold.
pub open spec fn held_all(v: Seq<serde_json::Value>) -> Seq<Json> {
    v.map_values(|x: serde_json::Value| held(x))
}

/// The value is made of what can be written and read back, with lists and objects nested no
/// deeper than `depth`.
pub open spec fn plain(j: Json, depth: nat) -> bool
    decreases depth,
{
    match j {
        Json::Items(s) => depth > 0 && forall|i: int|
            0 <= i < s.len() ==> plain(#[trigger] s[i], (depth - 1) as nat),
        Json::Members(m) => depth > 0 && forall|k: Seq<char>|
            m.dom().contains(k) ==> plain(#[trigger] m[k], (depth - 1) as nat),
        Json::Uint(n) => n <= u64::MAX,
        Json::Other => false,
        _ => true,
    }
}

/// The member of an object; null where there is none, and for what is no object.
pub open spec fn member(j: Json, key: Seq<char>) -> Json {
    match j {
        Json::Members(m) => if m.dom().contains(key) {
            m[key]
        } else {
            Json::Null
        },
        _ => Json::Null,
    }
}

/// The text, where the value is one.
pub open spec fn text_of(j: Json) -> Option<Seq<char>> {
    match j {
        Json::Text(s) => Some(s),
        _ => None,
    }
}

/// Stands for the variant `serde_json::Value::Null`: the value holds null.
#[verifier::external_body]
pub(crate) fn null() -> (r: serde_json::Value)
    ensures
        held(r) == Json::Null,
{
    serde_json::Value::Null
}

/// Stands for `serde_json::Value::from` of a `bool`: the value holds it.
#[verifier::external_body]
pub(crate) fn bool_value(b: bool) -> (r: serde_json::Value)
    ensures
        held(r) == Json::Bool(b),
{
    serde_json::Value::from(b)
}

/// Stands for `serde_json::Value::from` of a `u64`: the value holds it.
#[verifier::external_body]
pub(crate) fn uint_value(n: u64) -> (r: serde_json::Value)
    ensures
        held(r) == Json::Uint(n as nat),
{
    serde_json::Value::from(n)
}

/// Stands for `serde_json::Value::from` of a `&str`: the value holds the text.
#[verifier::external_body]
pub(crate) fn text_value(s: &str) -> (r: serde_json::Value)
    ensures
        held(r) == Json::Text(s@),
{
    serde_json::Value::from(s)
}

/// Stands for the variant `serde_json::Value::Array`: the value holds what the items hold, in
/// their order.
#[verifier::external_body]
pub(crate) fn items_value(v: Vec<serde_json::Value>) -> (r: serde_json::Value)
    ensures
        held(r) == Json::Items(held_all(v@)),
{
    serde_json::Value::Array(v)
}

/// Stands for the variant `serde_json::Value::Object` of `serde_json::Map::new`: the value holds
/// no member.
#[verifier::external_body]
pub(crate) fn object() -> (r: serde_json::Value)
    ensures
        held(r) == Json::Members(Map::empty()),
{
    serde_json::Value::Object(serde_json::Map::new())
}

/// Stands for an assignment through `IndexMut::index_mut` of `serde_json::Value` with a text: the
/// object gets the member, or a new value for it, and keeps its other members. The method panics on
/// what is neither an object nor null.
#[verifier::external_body]
pub(crate) fn put(v: &mut serde_json::Value, key: &str, item: serde_json::Value)
    requires
        held(*old(v)) is Members,
    ensures
        held(*final(v)) == Json::Members(held(*old(v))->Members_0.insert(key@, held(item))),
{
    v[key] = item;
}

/// Stands for `Index::index` of `serde_json::Value` with a text: the member of an object, and null
/// where there is none and for what is no object.
#[verifier::external_body]
pub(crate) fn at<'a>(v: &'a serde_json::Value, key: &str) -> (r: &'a serde_json::Value)
    ensures
        held(*r) == member(held(*v), key@),
{
    &v[key]
}

/// Stands for `serde_json::Value::as_str`: the text, where the value is one.
#[verifier::external_body]
pub(crate) fn as_text(v: &serde_json::Value) -> (r: Option<&str>)
    ensures
        uci::opt_str(r) == text_of(held(*v)),
{
    v.as_str()
}

/// Stands for `serde_json::Value::as_array`: the items, where the value is a list.
#[verifier::external_body]
pub(crate) fn as_items(v: &serde_json::Value) -> (r: Option<&Vec<serde_json::Value>>)
    ensures
        match held(*v) {
            Json::Items(s) => r matches Some(items) && held_all(items@) == s,
            _ => r is None,
        },
{
    v.as_array()
}

/// Stands for `serde_json::to_string`: it writes every such value, the text depends on what the
/// value holds, and reading the text gives that back. The limit on the depth is that of the reader,
/// which counts down from 128 and refuses to reach 0.
#[verifier::external_body]
pub(crate) fn write(v: &serde_json::Value) -> (r: Option<String>)
    requires
        plain(held(*v), 127),
    ensures
        match r {
            Some(t) => t@ == written(held(*v)) && gives(read(t@), held(*v)),
            None => false,
        },
{
    serde_json::to_string(v).ok()
}

/// Stands for `serde_json::from_str` into a `serde_json::Value`, and for the text of its error:
/// what is read, and what is said of a fault, depends on the text alone.
#[verifier::external_body]
pub(crate) fn parse(source: &str) -> (r: Result<serde_json::Value, String>)
    ensures
        match r {
            Ok(v) => gives(read(source@), held(v)),
            Err(e) => fails(read(source@), e@),
        },
{
    match serde_json::from_str::<serde_json::Value>(source) {
        Ok(v) => Ok(v),
        Err(e) => Err(e.to_string()),
    }
}

/// A member is looked up by its key; a key that is not there, and a value without members, give
/// null. Only a text has a text.
pub proof fn law_members(m: Map<Seq<char>, Json>, key: Seq<char>, j: Json, s: Seq<char>)
    ensures
        m.dom().contains(key) ==> member(Json::Members(m), key) == m[key],
        !m.dom().contains(key) ==> member(Json::Members(m), key) == Json::Null,
        !(j is Members) ==> member(j, key) == Json::Null,
        text_of(Json::Text(s)) == Some(s),
        !(j is Text) ==> text_of(j) is None,
{
}

}
