//! The details of an audit entry: a JSON object, written by `serde_json`.

use vstd::prelude::*;

verus! {

/// A value of the crate `serde_json`.
#[verifier::external_type_specification]
#[verifier::external_body]
pub struct ExJsonValue(serde_json::Value);

/// The map of the crate `serde_json` that holds the fields of an object.
#[verifier::external_type_specification]
#[verifier::external_body]
#[verifier::reject_recursive_types(K)]
#[verifier::reject_recursive_types(V)]
pub struct ExJsonMap<K, V>(serde_json::Map<K, V>);

/// The fields of the details of an audit entry.
pub(crate) type Details = serde_json::Map<String, serde_json::Value>;

/// What a field of the details is set to.
#[derive(Debug)]
pub enum Detail {
    Null,
    Bool(bool),
    Number(u64),
    Text(String),
}

/// What a field of the details holds, as a mathematical value.
pub ghost enum DetailValue {
    Null,
    Bool(bool),
    Number(u64),
    Text(Seq<char>),
}

impl View for Detail {
    type V = DetailValue;

    open spec fn view(&self) -> DetailValue {
        match self {
            Detail::Null => DetailValue::Null,
            Detail::Bool(b) => DetailValue::Bool(*b),
            Detail::Number(n) => DetailValue::Number(*n),
            Detail::Text(t) => DetailValue::Text(t@),
        }
    }
}

/// The fields that `m` holds, by their names.
pub uninterp spec fn json_fields(m: serde_json::Map<String, serde_json::Value>) -> Map<
    Seq<char>,
    DetailValue,
>;

/// The compact JSON text of an object with the fields `fields`, as
/// `serde_json` writes it.
pub uninterp spec fn json_text(fields: Map<Seq<char>, DetailValue>) -> Seq<char>;

/// No fields at all.
pub open spec fn no_fields() -> Map<Seq<char>, DetailValue> {
    Map::empty()
}

/// `Map::new` of `serde_json`: a map without fields.
#[verifier::external_body]
pub(crate) fn new_details() -> (r: Details)
    ensures
        json_fields(r) == no_fields(),
{
    serde_json::Map::new()
}

/// `Map::insert` of `serde_json`, with `null`, a truth value, a number or a
/// text as the value: the field `key` holds `value` afterwards, the other
/// fields are as before.
#[verifier::external_body]
pub(crate) fn put(m: &mut Details, key: &str, value: Detail)
    ensures
        json_fields(*final(m)) == json_fields(*old(m)).insert(key@, value@),
{
    let json = match value {
        Detail::Null => serde_json::Value::Null,
        Detail::Bool(b) => serde_json::Value::Bool(b),
        Detail::Number(n) => serde_json::Value::from(n),
        Detail::Text(t) => serde_json::Value::String(t),
    };
    m.insert(key.to_string(), json);
}

/// `to_string` of a `serde_json` object: its compact JSON text, which
/// depends on the fields alone. The object keeps them sorted by name: it is
/// a B-tree map as long as the feature `preserve_order` of `serde_json` is
/// off, as it is in this crate.
#[verifier::external_body]
pub(crate) fn render(m: Details) -> (r: String)
    ensures
        r@ == json_text(json_fields(m)),
{
    serde_json::Value::Object(m).to_string()
}

/// Sets the field `key` to a truth value.
pub(crate) fn put_bool(m: &mut Details, key: &str, value: bool)
    ensures
        json_fields(*final(m)) == json_fields(*old(m)).insert(key@, DetailValue::Bool(value)),
{
    put(m, key, Detail::Bool(value));
}

/// Sets the field `key` to a number.
pub(crate) fn put_number(m: &mut Details, key: &str, value: u64)
    ensures
        json_fields(*final(m)) == json_fields(*old(m)).insert(key@, DetailValue::Number(value)),
{
    put(m, key, Detail::Number(value));
}

/// Sets the field `key` to a text.
pub(crate) fn put_text(m: &mut Details, key: &str, value: &str)
    ensures
        json_fields(*final(m)) == json_fields(*old(m)).insert(key@, DetailValue::Text(value@)),
{
    put(m, key, Detail::Text(value.to_string()));
}

/// What an optional text holds as a field: the text, or `null`.
pub open spec fn text_or_null(value: Option<String>) -> DetailValue {
    match value {
        Some(t) => DetailValue::Text(t@),
        None => DetailValue::Null,
    }
}

/// What an optional number holds as a field: the number, or `null`.
pub open spec fn number_or_null(value: Option<u64>) -> DetailValue {
    match value {
        Some(n) => DetailValue::Number(n),
        None => DetailValue::Null,
    }
}

/// What an optional percentage holds as a field: the number, or `null`.
pub open spec fn percentage_or_null(value: Option<u8>) -> DetailValue {
    match value {
        Some(n) => DetailValue::Number(n as u64),
        None => DetailValue::Null,
    }
}

/// Sets the field `key` to a text, or to `null` where there is none.
pub(crate) fn put_optional_text(m: &mut Details, key: &str, value: &Option<String>)
    ensures
        json_fields(*final(m)) == json_fields(*old(m)).insert(key@, text_or_null(*value)),
{
    match value {
        Some(t) => put_text(m, key, t.as_str()),
        None => put(m, key, Detail::Null),
    }
}

/// Sets the field `key` to a number, or to `null` where there is none.
pub(crate) fn put_optional_number(m: &mut Details, key: &str, value: Option<u64>)
    ensures
        json_fields(*final(m)) == json_fields(*old(m)).insert(key@, number_or_null(value)),
{
    match value {
        Some(n) => put_number(m, key, n),
        None => put(m, key, Detail::Null),
    }
}

/// Sets the field `key` to a percentage, or to `null` where there is none.
pub(crate) fn put_optional_percentage(m: &mut Details, key: &str, value: Option<u8>)
    ensures
        json_fields(*final(m)) == json_fields(*old(m)).insert(key@, percentage_or_null(value)),
{
    match value {
        Some(n) => put_number(m, key, n as u64),
        None => put(m, key, Detail::Null),
    }
}

} // verus!
