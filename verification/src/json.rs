//! What `serde_json` reads from text, member by member: the caller names
//! the member, and decides what it means.
use vstd::prelude::*;

verus! {

#[verifier::external_type_specification]
#[verifier::external_body]
pub struct ExJsonValue(serde_json::Value);

/// Whether `s` parses as one JSON value (`serde_json::from_str::<Value>`).
pub uninterp spec fn json_parses(s: Seq<char>) -> bool;

/// For the JSON value that `s` holds: the array under member `key`, each
/// element as its text when it is a string (`Value::as_str`); `None` when
/// `s` is no JSON, or the value has no member `key`, or that member is no
/// array.
pub uninterp spec fn json_array_member(s: Seq<char>, key: Seq<char>) -> Option<
    Seq<Option<Seq<char>>>,
>;

/// For the JSON value that `s` holds: its member `key`, written back as
/// compact JSON text; `None` when `s` is no JSON or has no such member.
pub uninterp spec fn json_member(s: Seq<char>, key: Seq<char>) -> Option<Seq<char>>;

/// The value that `serde_json::from_str::<Value>` reads from `s`, where it
/// parses.
pub uninterp spec fn json_value(s: Seq<char>) -> serde_json::Value;

/// The JSON object whose one member `key` holds the string `value`.
pub uninterp spec fn json_object(key: Seq<char>, value: Seq<char>) -> serde_json::Value;

/// The views of a sequence of optional strings.
pub open spec fn opt_strings_view(xs: Seq<Option<String>>) -> Seq<Option<Seq<char>>> {
    xs.map_values(|x: Option<String>| match x {
        Some(s) => Some(s@),
        None => None,
    })
}

/// `serde_json::from_str::<Value>(s)`.
#[verifier::external_body]
pub(crate) fn parse_value(s: &str) -> (r: Option<serde_json::Value>)
    ensures
        r is Some == json_parses(s@),
        r matches Some(v) ==> v == json_value(s@),
{
    serde_json::from_str(s).ok()
}

/// `serde_json::from_str::<Value>(s)`, then `get(key)`, `as_array`, and
/// each element by `as_str`.
#[verifier::external_body]
pub(crate) fn array_member(s: &str, key: &str) -> (r: Option<Vec<Option<String>>>)
    ensures
        match r {
            Some(v) => json_array_member(s@, key@) == Some(opt_strings_view(v@)),
            None => json_array_member(s@, key@) is None,
        },
        r is Some ==> json_parses(s@),
{
    let v: serde_json::Value = serde_json::from_str(s).ok()?;
    let items = v.get(key)?.as_array()?;
    Some(items.iter().map(|x| x.as_str().map(String::from)).collect())
}

/// `serde_json::from_str::<Value>(s)`, then `get(key)`, written by
/// `to_string`.
#[verifier::external_body]
pub(crate) fn member_text(s: &str, key: &str) -> (r: Option<String>)
    ensures
        match r {
            Some(t) => json_member(s@, key@) == Some(t@),
            None => json_member(s@, key@) is None,
        },
{
    let v: serde_json::Value = serde_json::from_str(s).ok()?;
    v.get(key).map(|m| m.to_string())
}

/// The JSON object with the one member `key`, whose value is the string
/// `value` (`Map::insert`, `Value::Object`).
#[verifier::external_body]
pub(crate) fn object_with(key: &str, value: String) -> (v: serde_json::Value)
    ensures
        v == json_object(key@, value@),
{
    let mut m = serde_json::Map::new();
    m.insert(key.to_string(), serde_json::Value::String(value));
    serde_json::Value::Object(m)
}

} // verus!
