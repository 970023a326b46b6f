//! JSON, read and written by `serde_json`: a model of its values, and what its functions do by
//! that model.
use vstd::prelude::*;

verus! {

/// A JSON value.
pub enum Json {
    Null,
    Bool(bool),
    /// A number that is kept as a 64-bit integer.
    Number(int),
    /// A number that is kept in double precision, by its bits.
    Fraction(u64),
    Text(Seq<char>),
    Array(Seq<Json>),
    Object(Map<Seq<char>, Json>),
}

/// `serde_json::Value`, a JSON value.
#[verifier::external_type_specification]
#[verifier::external_body]
pub struct ExValue(serde_json::Value);

/// What a `serde_json::Value` holds.
pub uninterp spec fn model(value: serde_json::Value) -> Json;

/// The values of a list.
pub open spec fn models(values: Seq<serde_json::Value>) -> Seq<Json> {
    values.map_values(|value: serde_json::Value| model(value))
}

/// The value that `serde_json::from_str` reads from a text; nothing where the text is not JSON.
pub uninterp spec fn parsed(text: Seq<char>) -> Option<Json>;

/// `serde_json::from_str` for any JSON value.
#[verifier::external_body]
pub(crate) fn parse(text: &str) -> (res: Option<serde_json::Value>)
    ensures
        match res {
            Some(value) => parsed(text@) == Some(model(value)),
            None => parsed(text@) is None,
        },
{
    serde_json::from_str(text).ok()
}

/// The texts that `serde_json::from_str` reads as a list of strings; nothing where the text is
/// no JSON array of strings.
pub uninterp spec fn parsed_texts(text: Seq<char>) -> Option<Seq<Seq<char>>>;

/// The contents of a list of strings.
pub open spec fn views(list: Seq<String>) -> Seq<Seq<char>> {
    list.map_values(|item: String| item@)
}

/// `serde_json::from_str` for a list of strings.
#[verifier::external_body]
pub(crate) fn parse_texts(text: &str) -> (res: Option<Vec<String>>)
    ensures
        match res {
            Some(list) => parsed_texts(text@) == Some(views(list@)),
            None => parsed_texts(text@) is None,
        },
{
    serde_json::from_str(text).ok()
}

/// The field of an object; nothing in a value that is no object or lacks the field.
pub open spec fn field(value: Json, key: Seq<char>) -> Option<Json> {
    match value {
        Json::Object(fields) => fields.get(key),
        _ => None,
    }
}

/// `Value::get` with a field name, and a copy of what it finds.
#[verifier::external_body]
pub(crate) fn get(value: &serde_json::Value, key: &str) -> (res: Option<serde_json::Value>)
    ensures
        match res {
            Some(found) => field(model(*value), key@) == Some(model(found)),
            None => field(model(*value), key@) is None,
        },
{
    value.get(key).cloned()
}

/// The text of a value that is one.
pub open spec fn text_of(value: Json) -> Option<Seq<char>> {
    match value {
        Json::Text(text) => Some(text),
        _ => None,
    }
}

/// `Value::as_str`, and a copy of the text.
#[verifier::external_body]
pub(crate) fn as_text(value: &serde_json::Value) -> (res: Option<String>)
    ensures
        match res {
            Some(text) => text_of(model(*value)) == Some(text@),
            None => text_of(model(*value)) is None,
        },
{
    value.as_str().map(String::from)
}

/// The number of a value that is an integer from 0 to 2^64 - 1.
pub open spec fn number_of(value: Json) -> Option<u64> {
    match value {
        Json::Number(n) => if 0 <= n <= u64::MAX {
            Some(n as u64)
        } else {
            None
        },
        _ => None,
    }
}

/// `Value::as_u64`.
#[verifier::external_body]
pub(crate) fn as_number(value: &serde_json::Value) -> (res: Option<u64>)
    ensures
        res == number_of(model(*value)),
{
    value.as_u64()
}

/// `Value::Null`.
#[verifier::external_body]
pub(crate) fn null() -> (res: serde_json::Value)
    ensures
        model(res) == Json::Null,
{
    serde_json::Value::Null
}

/// `Value::Bool`.
#[verifier::external_body]
pub(crate) fn boolean(value: bool) -> (res: serde_json::Value)
    ensures
        model(res) == Json::Bool(value),
{
    serde_json::Value::Bool(value)
}

/// `Value::from` for a number.
#[verifier::external_body]
pub(crate) fn number(value: u64) -> (res: serde_json::Value)
    ensures
        model(res) == Json::Number(value as int),
{
    serde_json::Value::from(value)
}

/// `Value::String`, with a copy of the text.
#[verifier::external_body]
pub(crate) fn text(value: &str) -> (res: serde_json::Value)
    ensures
        model(res) == Json::Text(value@),
{
    serde_json::Value::String(value.to_owned())
}

/// `Value::Array`.
#[verifier::external_body]
pub(crate) fn array(values: Vec<serde_json::Value>) -> (res: serde_json::Value)
    ensures
        model(res) == Json::Array(models(values@)),
{
    serde_json::Value::Array(values)
}

/// `serde_json::Map`, the fields of an object.
#[verifier::external_type_specification]
#[verifier::external_body]
#[verifier::reject_recursive_types(K)]
#[verifier::reject_recursive_types(V)]
pub struct ExMap<K, V>(serde_json::Map<K, V>);

/// What the fields of an object are.
pub uninterp spec fn fields(map: serde_json::Map<String, serde_json::Value>) -> Map<
    Seq<char>,
    Json,
>;

/// `serde_json::Map::new`: no fields.
#[verifier::external_body]
pub(crate) fn no_fields() -> (res: serde_json::Map<String, serde_json::Value>)
    ensures
        fields(res) == (Map::<Seq<char>, Json>::empty()),
{
    serde_json::Map::new()
}

/// `serde_json::Map::insert`, with a copy of the name: the field now has the value.
#[verifier::external_body]
pub(crate) fn set_field(
    map: &mut serde_json::Map<String, serde_json::Value>,
    key: &str,
    value: serde_json::Value,
)
    ensures
        fields(*final(map)) == fields(*old(map)).insert(key@, model(value)),
{
    map.insert(key.to_owned(), value);
}

/// `Value::Object`.
#[verifier::external_body]
pub(crate) fn object(map: serde_json::Map<String, serde_json::Value>) -> (res: serde_json::Value)
    ensures
        model(res) == Json::Object(fields(map)),
{
    serde_json::Value::Object(map)
}

/// The compact text that `serde_json` writes a value as.
pub uninterp spec fn rendered(value: Json) -> Seq<char>;

/// `Value::to_string`: the compact text.
#[verifier::external_body]
pub(crate) fn render(value: &serde_json::Value) -> (res: String)
    ensures
        res@ == rendered(model(*value)),
{
    value.to_string()
}

} // verus!
