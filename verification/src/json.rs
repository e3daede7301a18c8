//! JSON and YAML documents, as `serde_json` and `serde_yaml` hold them.
//!
//! A value of `serde_json` is seen through `json_view`, which says what it
//! holds. The functions below are the ones of those crates that are called;
//! what they claim of them is not proved here.

use vstd::prelude::*;
use crate::text;

verus! {

/// What a JSON value holds.
pub enum JsonView {
    Null,
    Bool(bool),
    /// A number written as an integer.
    Integer(int),
    /// Any other number, by the bits of its double precision form.
    Fraction(u64),
    Text(Seq<char>),
    List(Seq<JsonView>),
    Object(Map<Seq<char>, JsonView>),
}

#[verifier::external_type_specification]
#[verifier::external_body]
pub struct ExJsonValue(serde_json::Value);

#[verifier::external_type_specification]
#[verifier::external_body]
#[verifier::reject_recursive_types(K)]
#[verifier::reject_recursive_types(V)]
pub struct ExJsonMap<K, V>(serde_json::Map<K, V>);

#[verifier::external_type_specification]
#[verifier::external_body]
pub struct ExJsonError(serde_json::Error);

#[verifier::external_type_specification]
#[verifier::external_body]
pub struct ExYamlError(serde_yaml::Error);

/// What a value of `serde_json` holds.
pub uninterp spec fn json_view(v: serde_json::Value) -> JsonView;

/// The members of an object of `serde_json`.
pub uninterp spec fn members(m: serde_json::Map<String, serde_json::Value>) -> Map<
    Seq<char>,
    JsonView,
>;

/// What `serde_json::from_str` reads in a text, or what its error says.
pub uninterp spec fn parsed_json(s: Seq<char>) -> Result<JsonView, Seq<char>>;

/// What `serde_yaml::from_str` reads in a text as a JSON value, if it does.
pub uninterp spec fn parsed_yaml(s: Seq<char>) -> Option<JsonView>;

/// What an error of `serde_json` says.
pub uninterp spec fn json_error_text(e: serde_json::Error) -> Seq<char>;

/// What `serde_json::to_string` writes of a JSON value.
pub uninterp spec fn json_text(v: JsonView) -> Seq<char>;

/// What the `Display` of `serde_json::Value` writes of a JSON value.
pub uninterp spec fn json_display(v: JsonView) -> Seq<char>;

/// `serde_json::from_str` for a `serde_json::Value`: a function of the text.
#[verifier::external_body]
pub(crate) fn parse_json(s: &str) -> (r: Result<serde_json::Value, serde_json::Error>)
    ensures
        match r {
            Ok(v) => parsed_json(s@) == Ok::<JsonView, Seq<char>>(json_view(v)),
            Err(e) => parsed_json(s@) == Err::<JsonView, Seq<char>>(json_error_text(e)),
        },
{
    serde_json::from_str(s)
}

/// `serde_json::Error` written out.
#[verifier::external_body]
pub(crate) fn error_text(e: &serde_json::Error) -> (s: String)
    ensures
        s@ == json_error_text(*e),
{
    e.to_string()
}

/// `serde_yaml::from_str` for a `serde_json::Value`: a function of the text.
#[verifier::external_body]
pub(crate) fn parse_yaml(s: &str) -> (r: Result<serde_json::Value, serde_yaml::Error>)
    ensures
        match r {
            Ok(v) => parsed_yaml(s@) == Some(json_view(v)),
            Err(_) => parsed_yaml(s@) is None,
        },
{
    serde_yaml::from_str(s)
}

/// `serde_json::to_string` of a `serde_json::Value`: the compact text of what
/// it holds. It does not fail: an object's keys are strings.
#[verifier::external_body]
pub(crate) fn to_text(v: &serde_json::Value) -> (r: Result<String, serde_json::Error>)
    ensures
        match r {
            Ok(s) => s@ == json_text(json_view(*v)),
            Err(_) => false,
        },
{
    serde_json::to_string(v)
}

/// The `Display` of `serde_json::Value`: the compact text of what it holds.
#[verifier::external_body]
pub(crate) fn display_text(v: &serde_json::Value) -> (s: String)
    ensures
        s@ == json_display(json_view(*v)),
{
    v.to_string()
}

/// The member of an object under a key, if there is one.
pub open spec fn member_of(v: JsonView, key: Seq<char>) -> Option<JsonView> {
    match v {
        JsonView::Object(m) => if m.contains_key(key) {
            Some(m[key])
        } else {
            None
        },
        _ => None,
    }
}

/// `serde_json::Value::get` with a string: the member of an object under the
/// key; nothing of a value that is no object.
#[verifier::external_body]
pub(crate) fn member<'a>(v: &'a serde_json::Value, key: &str) -> (r: Option<&'a serde_json::Value>)
    ensures
        match r {
            Some(m) => member_of(json_view(*v), key@) == Some(json_view(*m)),
            None => member_of(json_view(*v), key@) is None,
        },
{
    v.get(key)
}

/// Whether a key is made of ASCII letters.
pub open spec fn is_word(key: Seq<char>) -> bool {
    key.len() > 0 && forall|i: int|
        0 <= i < key.len() ==> 'a' <= #[trigger] key[i] <= 'z' || 'A' <= key[i] <= 'Z'
}

/// The member of a member of a member, if there is one.
pub open spec fn member_at(v: JsonView, a: Seq<char>, b: Seq<char>, c: Seq<char>) -> Option<
    JsonView,
> {
    match member_of(v, a) {
        None => None,
        Some(first) => match member_of(first, b) {
            None => None,
            Some(second) => member_of(second, c),
        },
    }
}

/// `serde_json::Value::pointer` with three keys: each is looked up in what is
/// found under the one before it. The keys are words, so that none of them is
/// an index of a list or has to be escaped.
#[verifier::external_body]
pub(crate) fn pointed<'a>(v: &'a serde_json::Value, a: &str, b: &str, c: &str) -> (r: Option<
    &'a serde_json::Value,
>)
    requires
        is_word(a@),
        is_word(b@),
        is_word(c@),
    ensures
        match r {
            Some(m) => member_at(json_view(*v), a@, b@, c@) == Some(json_view(*m)),
            None => member_at(json_view(*v), a@, b@, c@) is None,
        },
{
    v.pointer(&format!("/{}/{}/{}", a, b, c))
}

/// The text of a JSON string.
pub open spec fn text_in(v: JsonView) -> Option<Seq<char>> {
    match v {
        JsonView::Text(s) => Some(s),
        _ => None,
    }
}

/// `serde_json::Value::as_str`: the text of a string; nothing of another value.
pub assume_specification[ serde_json::Value::as_str ](v: &serde_json::Value) -> (r: Option<&str>)
    ensures
        text::option_view(r) == text_in(json_view(*v)),
;

/// The truth value in a JSON value.
pub open spec fn bool_in(v: JsonView) -> Option<bool> {
    match v {
        JsonView::Bool(b) => Some(b),
        _ => None,
    }
}

/// `serde_json::Value::as_bool`: a truth value; nothing of another value.
pub assume_specification[ serde_json::Value::as_bool ](v: &serde_json::Value) -> (r: Option<bool>)
    ensures
        r == bool_in(json_view(*v)),
;

/// The integer in a JSON value, if it fits 64 bits with a sign.
pub open spec fn integer_in(v: JsonView) -> Option<i64> {
    match v {
        JsonView::Integer(n) => if i64::MIN <= n <= i64::MAX {
            Some(n as i64)
        } else {
            None
        },
        _ => None,
    }
}

/// `serde_json::Value::as_i64`: an integer that fits; nothing of another value.
pub assume_specification[ serde_json::Value::as_i64 ](v: &serde_json::Value) -> (r: Option<i64>)
    ensures
        r == integer_in(json_view(*v)),
;

/// An object without members.
pub open spec fn no_members() -> Map<Seq<char>, JsonView> {
    Map::empty()
}

/// `serde_json::Map::new`: an object without members.
#[verifier::external_body]
pub(crate) fn empty_object() -> (m: serde_json::Map<String, serde_json::Value>)
    ensures
        members(m) == no_members(),
{
    serde_json::Map::new()
}

/// `serde_json::Map::insert`: the key is bound to the value, whatever it was
/// bound to before.
#[verifier::external_body]
pub(crate) fn set_member(
    m: &mut serde_json::Map<String, serde_json::Value>,
    key: &str,
    v: serde_json::Value,
)
    ensures
        members(*final(m)) == members(*old(m)).insert(key@, json_view(v)),
{
    m.insert(key.to_string(), v);
}

/// `serde_json::Value::String`: a string.
#[verifier::external_body]
pub(crate) fn text_value(s: &str) -> (v: serde_json::Value)
    ensures
        json_view(v) == JsonView::Text(s@),
{
    serde_json::Value::String(s.to_string())
}

/// `serde_json::Value::Object`: an object with the given members.
#[verifier::external_body]
pub(crate) fn object_value(m: serde_json::Map<String, serde_json::Value>) -> (v: serde_json::Value)
    ensures
        json_view(v) == JsonView::Object(members(m)),
{
    serde_json::Value::Object(m)
}

} // verus!
