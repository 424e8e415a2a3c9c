//! JSON documents. The crate `serde_json` reads and writes them; this module
//! says what of its work the rest of the crate relies on.
use serde_json::Value;
use vstd::prelude::*;

verus! {

/// What a JSON document says.
pub enum Json {
    Null,
    Bool(bool),
    /// A whole number from zero to `u64::MAX`.
    Unsigned(u64),
    /// A whole number from `i64::MIN` to minus one.
    Negative(i64),
    /// Any other number.
    OtherNumber,
    Text(Seq<char>),
    Array(Seq<Json>),
    Object(Map<Seq<char>, Json>),
}

impl Json {
    /// The text that an object holds under `key`, where it holds one.
    pub open spec fn text_at(self, key: Seq<char>) -> Option<Seq<char>> {
        match self {
            Json::Object(members) => if members.contains_key(key) {
                match members[key] {
                    Json::Text(s) => Some(s),
                    _ => None,
                }
            } else {
                None
            },
            _ => None,
        }
    }

    /// The whole number that an object holds under `key`, where it holds one.
    pub open spec fn number_at(self, key: Seq<char>) -> Option<u64> {
        match self {
            Json::Object(members) => if members.contains_key(key) {
                match members[key] {
                    Json::Unsigned(n) => Some(n),
                    _ => None,
                }
            } else {
                None
            },
            _ => None,
        }
    }

    /// An object whose members are texts and whole numbers only, under keys
    /// that do not begin with a dollar sign.
    pub open spec fn is_flat_record(self) -> bool {
        match self {
            Json::Object(members) => forall|key: Seq<char>| #[trigger]
                members.contains_key(key) ==> {
                    &&& members[key] is Text || members[key] is Unsigned
                    &&& key.len() == 0 || key[0] != '$'
                },
            _ => false,
        }
    }
}

/// A whole number as a document.
pub open spec fn whole(n: i64) -> Json {
    if n >= 0 {
        Json::Unsigned(n as u64)
    } else {
        Json::Negative(n)
    }
}

/// The document type of `serde_json`.
#[verifier::external_type_specification]
#[verifier::external_body]
pub struct ExValue(serde_json::Value);

/// What a `serde_json` document holds.
pub uninterp spec fn json_of(value: serde_json::Value) -> Json;

/// What `serde_json::from_str` makes of a text: the document, or the message
/// of its error.
pub uninterp spec fn json_parse(text: Seq<char>) -> Result<Json, Seq<char>>;

/// The text that the `Display` of `serde_json::Value` writes for a flat record.
pub uninterp spec fn json_text(document: Json) -> Seq<char>;

/// The outcome of reading a text that is a document.
pub open spec fn well_formed(document: Json) -> Result<Json, Seq<char>> {
    Ok(document)
}

/// The outcome of reading a text that is no document.
pub open spec fn malformed(message: Seq<char>) -> Result<Json, Seq<char>> {
    Err(message)
}

/// `serde_json::from_str` reads a text as a document; `json_parse` names its
/// result. An error is handed out as the message that it displays.
#[verifier::external_body]
pub(crate) fn read_document(text: &str) -> (res: Result<Value, String>)
    ensures
        match res {
            Ok(value) => json_parse(text@) == well_formed(json_of(value)),
            Err(message) => json_parse(text@) == malformed(message@),
        },
{
    match serde_json::from_str(text) {
        Ok(value) => Ok(value),
        Err(error) => Err(error.to_string()),
    }
}

/// Indexing a `serde_json::Value` with a key, then `Value::as_str`: the text
/// under that key; none where the value is no object, lacks the key or holds
/// something else there.
#[verifier::external_body]
pub(crate) fn text_member(value: &Value, key: &str) -> (res: Option<String>)
    ensures
        match res {
            Some(s) => json_of(*value).text_at(key@) == Some(s@),
            None => json_of(*value).text_at(key@) is None,
        },
{
    match value[key].as_str() {
        Some(s) => Some(s.to_owned()),
        None => None,
    }
}

/// Indexing a `serde_json::Value` with a key, then `Value::as_u64`: the
/// whole number under that key; none where the value is no object, lacks the
/// key or holds something else there.
#[verifier::external_body]
pub(crate) fn number_member(value: &Value, key: &str) -> (res: Option<u64>)
    ensures
        res == json_of(*value).number_at(key@),
{
    value[key].as_u64()
}

/// The variant `serde_json::Value::Array`: its items, in order; none where
/// the value is no array.
#[verifier::external_body]
pub(crate) fn array_items(value: Value) -> (res: Option<Vec<Value>>)
    ensures
        match res {
            Some(items) => json_of(value) == Json::Array(
                items@.map_values(|item: Value| json_of(item)),
            ),
            None => !(json_of(value) is Array),
        },
{
    match value {
        Value::Array(items) => Some(items),
        _ => None,
    }
}

/// `serde_json::Map::new` as a document: an object without members.
#[verifier::external_body]
pub(crate) fn empty_object() -> (res: Value)
    ensures
        json_of(res) == Json::Object(Map::empty()),
{
    Value::Object(serde_json::Map::new())
}

/// Assigning to a key of an object through `serde_json`'s `IndexMut`: the
/// member is added, or replaced where there was one. (It panics on a value
/// that is neither an object nor null.)
#[verifier::external_body]
pub(crate) fn set_member(object: &mut Value, key: &str, value: Value)
    requires
        json_of(*old(object)) is Object,
    ensures
        json_of(*final(object)) == Json::Object(
            json_of(*old(object))->Object_0.insert(key@, json_of(value)),
        ),
{
    object[key] = value;
}

/// `serde_json::Value::from` a string: a text.
#[verifier::external_body]
pub(crate) fn text_value(s: &str) -> (res: Value)
    ensures
        json_of(res) == Json::Text(s@),
{
    Value::from(s)
}

/// `serde_json::Value::from` a `u64`: a whole number.
#[verifier::external_body]
pub(crate) fn number_value(n: u64) -> (res: Value)
    ensures
        json_of(res) == Json::Unsigned(n),
{
    Value::from(n)
}

/// `serde_json::Value::from` an `i64`: a whole number.
#[verifier::external_body]
pub(crate) fn integer_value(n: i64) -> (res: Value)
    ensures
        json_of(res) == whole(n),
{
    Value::from(n)
}

/// `serde_json::Value::from` a `bool`: that truth value.
#[verifier::external_body]
pub(crate) fn bool_value(b: bool) -> (res: Value)
    ensures
        json_of(res) == Json::Bool(b),
{
    Value::from(b)
}

/// `serde_json::Value::from` the unit value: null.
#[verifier::external_body]
pub(crate) fn null_value() -> (res: Value)
    ensures
        json_of(res) == Json::Null,
{
    Value::from(())
}

/// `serde_json::Value::from` a list of documents: the array of them.
#[verifier::external_body]
pub(crate) fn array_value(items: Vec<Value>) -> (res: Value)
    ensures
        json_of(res) == Json::Array(items@.map_values(|item: Value| json_of(item))),
{
    Value::from(items)
}

/// The `Display` of `serde_json::Value` writes a document as JSON text, and
/// `serde_json::from_str` reads the same document back from it. `json_text`
/// names the text: the members come in the order of their keys (the crate is
/// built without its feature `preserve_order`), so it depends on nothing but
/// the document. All this is claimed of flat records of texts and whole
/// numbers only: the reader has a depth limit, and takes an object whose first
/// key is one of its own private ones, which begin with a dollar sign, for
/// something else.
#[verifier::external_body]
pub(crate) fn document_text(value: &Value) -> (res: String)
    requires
        json_of(*value).is_flat_record(),
    ensures
        res@ == json_text(json_of(*value)),
        json_parse(res@) == well_formed(json_of(*value)),
{
    value.to_string()
}

} // verus!
