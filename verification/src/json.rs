//! JSON values, through `serde_json`.
//!
//! A `serde_json::Value` is carried through the library as it is; what the library reads of one
//! goes through the accessors below.  Each accessor's result is named by a specification
//! function of its arguments (parsing, field lookup and serialisation are deterministic), and the
//! few facts the callers rely on are stated beside them.
use vstd::prelude::*;

verus! {

#[verifier::external_type_specification]
#[verifier::external_body]
pub struct ExValue(serde_json::Value);

/// The value `serde_json::from_str` reads from `text`, if it is valid JSON.
pub uninterp spec fn json_parse(text: Seq<char>) -> Option<serde_json::Value>;

/// `Value::get(key)`: the field `key` of an object (`None` for a missing key or a non-object).
pub uninterp spec fn json_field(v: serde_json::Value, key: Seq<char>) -> Option<serde_json::Value>;

/// `Value::as_str`: the text of a JSON string (`None` for any other kind of value).
pub uninterp spec fn json_string(v: serde_json::Value) -> Option<Seq<char>>;

/// The elements of a JSON array (`None` for any other kind of value).
pub uninterp spec fn json_items(v: serde_json::Value) -> Option<Seq<serde_json::Value>>;

/// An object's fields without `key` (the empty object when `v` is not an object).
pub uninterp spec fn json_without(v: serde_json::Value, key: Seq<char>) -> serde_json::Value;

/// The compact JSON text of `v` (`Display` for `Value`).
pub uninterp spec fn json_text(v: serde_json::Value) -> Seq<char>;

/// `v` with the field `key` set to `x` (`v` is an object).
pub uninterp spec fn json_with(
    v: serde_json::Value,
    key: Seq<char>,
    x: serde_json::Value,
) -> serde_json::Value;

/// The JSON string `Value::String(s)`.
pub uninterp spec fn json_str_value(s: Seq<char>) -> serde_json::Value;

/// The list of strings `serde_json::from_str::<Vec<String>>` reads from `text`, if it is a JSON
/// array of strings.
pub uninterp spec fn json_string_list(text: Seq<char>) -> Option<Seq<Seq<char>>>;

/// `Value::as_i64`: the number of a JSON integer that fits in an `i64` (`None` for any other
/// value).
pub uninterp spec fn json_int(v: serde_json::Value) -> Option<i64>;

/// `Value::as_bool`: the value of a JSON boolean (`None` for any other value).
pub uninterp spec fn json_bool(v: serde_json::Value) -> Option<bool>;

/// The pairs of strings `serde_json::from_str::<Vec<(String, String)>>` reads from `text`, if it
/// is a JSON array of two-string arrays.
pub uninterp spec fn json_string_pairs(text: Seq<char>) -> Option<Seq<(Seq<char>, Seq<char>)>>;

/// The rows `serde_json::from_str::<Vec<(String, String, i64, String)>>` reads from `text`, if
/// it is a JSON array of `[string, string, integer, string]` arrays.
pub uninterp spec fn json_sms_rows(text: Seq<char>) -> Option<Seq<(Seq<char>, Seq<char>, i64, Seq<char>)>>;

/// The empty JSON object `{}`.
pub open spec fn empty_json_object() -> serde_json::Value {
    json_parse(seq!['{', '}'])->0
}

/// `serde_json::from_str::<Value>`; `None` where the text is not valid JSON.
#[verifier::external_body]
pub(crate) fn parse_json(text: &str) -> (r: Option<serde_json::Value>)
    ensures
        r == json_parse(text@),
{
    serde_json::from_str::<serde_json::Value>(text).ok()
}

/// `Value::get` with a string key, cloned.
#[verifier::external_body]
pub(crate) fn json_get(v: &serde_json::Value, key: &str) -> (r: Option<serde_json::Value>)
    ensures
        r == json_field(*v, key@),
{
    v.get(key).cloned()
}

/// `Value::as_str`, owned.
#[verifier::external_body]
pub(crate) fn json_as_string(v: &serde_json::Value) -> (r: Option<String>)
    ensures
        r matches Some(s) ==> json_string(*v) == Some(s@),
        r is None ==> json_string(*v) is None,
{
    v.as_str().map(|s| s.to_string())
}

/// The elements of a JSON array (`Value::Array`), owned.
#[verifier::external_body]
pub(crate) fn json_array_items(v: &serde_json::Value) -> (r: Option<Vec<serde_json::Value>>)
    ensures
        r matches Some(items) ==> json_items(*v) == Some(items@),
        r is None ==> json_items(*v) is None,
{
    match v {
        serde_json::Value::Array(items) => Some(items.clone()),
        _ => None,
    }
}

/// `as_object().cloned().unwrap_or_default()` with `key` removed, as an object value.
#[verifier::external_body]
pub(crate) fn json_object_without(v: &serde_json::Value, key: &str) -> (r: serde_json::Value)
    ensures
        r == json_without(*v, key@),
{
    let mut m = v.as_object().cloned().unwrap_or_default();
    m.remove(key);
    serde_json::Value::Object(m)
}

/// The compact JSON text of a value (`Value`'s `Display`).
#[verifier::external_body]
pub(crate) fn json_to_text(v: &serde_json::Value) -> (r: String)
    ensures
        r@ == json_text(*v),
{
    v.to_string()
}

/// The empty JSON object (`json!({})`), which is what `{}` parses to.
#[verifier::external_body]
pub(crate) fn empty_object() -> (r: serde_json::Value)
    ensures
        json_parse(seq!['{', '}']) == Some(r),
{
    serde_json::Value::Object(serde_json::Map::new())
}

/// `Value::as_i64`.
#[verifier::external_body]
pub(crate) fn json_as_i64(v: &serde_json::Value) -> (r: Option<i64>)
    ensures
        r == json_int(*v),
{
    v.as_i64()
}

/// `serde_json::from_str::<Vec<(String, String)>>`; the error carries serde's message (its
/// wording is left unsaid here).
#[verifier::external_body]
pub(crate) fn parse_string_pairs(text: &str) -> (r: Result<Vec<(String, String)>, String>)
    ensures
        r matches Ok(v) ==> json_string_pairs(text@) == Some(v@.map_values(|p: (String, String)| (p.0@, p.1@))),
        r is Err ==> json_string_pairs(text@) is None,
{
    serde_json::from_str::<Vec<(String, String)>>(text).map_err(|e| e.to_string())
}

/// `serde_json::from_str::<Vec<(String, String, i64, String)>>`; the error carries serde's
/// message (its wording is left unsaid here).
#[verifier::external_body]
pub(crate) fn parse_sms_rows(text: &str) -> (r: Result<Vec<(String, String, i64, String)>, String>)
    ensures
        r matches Ok(v) ==> json_sms_rows(text@) == Some(
            v@.map_values(|p: (String, String, i64, String)| (p.0@, p.1@, p.2, p.3@)),
        ),
        r is Err ==> json_sms_rows(text@) is None,
{
    serde_json::from_str::<Vec<(String, String, i64, String)>>(text).map_err(|e| e.to_string())
}

/// `Value::as_bool`.
#[verifier::external_body]
pub(crate) fn json_as_bool(v: &serde_json::Value) -> (r: Option<bool>)
    ensures
        r == json_bool(*v),
{
    v.as_bool()
}

/// The JSON `null` (`Value::Null`), which is what `null` parses to.
#[verifier::external_body]
pub(crate) fn null_value() -> (r: serde_json::Value)
    ensures
        json_parse("null"@) == Some(r),
{
    serde_json::Value::Null
}

/// `v` as an object with the field `key` set to `x` (`Map::insert`; a non-object `v` counts
/// as the empty object).
#[verifier::external_body]
pub(crate) fn json_insert(v: serde_json::Value, key: &str, x: serde_json::Value) -> (r: serde_json::Value)
    ensures
        r == json_with(v, key@, x),
{
    let mut m = match v {
        serde_json::Value::Object(m) => m,
        _ => serde_json::Map::new(),
    };
    m.insert(key.to_string(), x);
    serde_json::Value::Object(m)
}

/// A copy of a JSON value (`Clone` for `Value`).
#[verifier::external_body]
pub(crate) fn json_clone(v: &serde_json::Value) -> (r: serde_json::Value)
    ensures
        r == *v,
{
    v.clone()
}

/// The JSON string holding `s` (`Value::String`); reading it back with `as_str` gives `s`.
#[verifier::external_body]
pub(crate) fn json_from_text(s: &str) -> (r: serde_json::Value)
    ensures
        r == json_str_value(s@),
        json_string(r) == Some(s@),
{
    serde_json::Value::String(s.to_string())
}

/// `serde_json::from_str::<Vec<String>>`; `None` where the text is not a JSON array of strings.
#[verifier::external_body]
pub(crate) fn parse_string_list(text: &str) -> (r: Option<Vec<String>>)
    ensures
        r matches Some(v) ==> json_string_list(text@) matches Some(l) && l.len() == v.len() && (
        forall|k: int| 0 <= k < v.len() ==> #[trigger] v@[k]@ == l[k]),
        r is None ==> json_string_list(text@) is None,
{
    serde_json::from_str::<Vec<String>>(text).ok()
}

/// The text of the string field `key` of `v`, if there is one.
pub open spec fn string_field(v: serde_json::Value, key: Seq<char>) -> Option<Seq<char>> {
    match json_field(v, key) {
        Some(x) => json_string(x),
        None => None,
    }
}

/// The text of the string field `key` of `v` (`v.get(key).and_then(|x| x.as_str())`, owned).
pub fn get_string(v: &serde_json::Value, key: &str) -> (r: Option<String>)
    ensures
        r matches Some(s) ==> string_field(*v, key@) == Some(s@),
        r is None ==> string_field(*v, key@) is None,
{
    match json_get(v, key) {
        Some(x) => json_as_string(&x),
        None => None,
    }
}

} // verus!
