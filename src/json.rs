use vstd::prelude::*;

use crate::path::str_equal;
use serde_json::Value as SerdeJsonValue;

verus! {

/// A JSON document as plain values. A number keeps the decimal text that
/// serde_json gives it; an object keeps its entries in serde_json's order.
#[derive(Debug, PartialEq)]
pub enum Json {
    Null,
    Bool(bool),
    Number(String),
    Str(String),
    Array(Vec<Json>),
    Object(Vec<JsonEntry>),
}

/// One entry of a JSON object.
#[derive(Debug, PartialEq)]
pub struct JsonEntry {
    pub key: String,
    pub value: Json,
}

/// Where and why a text is not JSON.
#[derive(Debug, Clone, PartialEq)]
pub struct JsonSyntaxError {
    pub line: usize,
    pub column: usize,
    pub message: String,
}

/// What serde_json makes of a text: a document, or the syntax error it reports.
pub uninterp spec fn json_parse(text: Seq<char>) -> Result<Json, JsonSyntaxError>;

#[verifier::external_type_specification]
#[verifier::external_body]
pub struct ExJsonValue(SerdeJsonValue);

/// Relies on serde_json::from_str::<serde_json::Value>: it reads one JSON
/// document, and its result depends on the text alone. The tree is copied
/// node for node into `Json`; an error keeps serde_json's line, column and
/// message.
#[verifier::external_body]
pub fn parse_json(text: &str) -> (r: Result<Json, JsonSyntaxError>)
    ensures
        r == json_parse(text@),
{
    match serde_json::from_str::<SerdeJsonValue>(text) {
        Ok(v) => Ok(copy_json(v)),
        Err(e) => Err(JsonSyntaxError { line: e.line(), column: e.column(), message: e.to_string() }),
    }
}

/// What serde_json makes of a byte slice: a document, or the error it reports.
pub uninterp spec fn json_parse_bytes(bytes: Seq<u8>) -> Result<Json, JsonSyntaxError>;

/// Relies on serde_json::from_slice::<serde_json::Value>: it reads one JSON
/// document from UTF-8 bytes, and its result depends on the bytes alone. The
/// tree is copied as by `parse_json`.
#[verifier::external_body]
pub fn parse_json_bytes(bytes: &[u8]) -> (r: Result<Json, JsonSyntaxError>)
    ensures
        r == json_parse_bytes(bytes@),
{
    match serde_json::from_slice::<SerdeJsonValue>(bytes) {
        Ok(v) => Ok(copy_json(v)),
        Err(e) => Err(JsonSyntaxError { line: e.line(), column: e.column(), message: e.to_string() }),
    }
}

/// Copies a serde_json::Value into `Json`, variant for variant; a number
/// becomes serde_json's own decimal text of it.
#[verifier::external_body]
fn copy_json(v: SerdeJsonValue) -> Json {
    match v {
        SerdeJsonValue::Null => Json::Null,
        SerdeJsonValue::Bool(b) => Json::Bool(b),
        SerdeJsonValue::Number(n) => Json::Number(n.to_string()),
        SerdeJsonValue::String(s) => Json::Str(s),
        SerdeJsonValue::Array(a) => Json::Array(a.into_iter().map(copy_json).collect()),
        SerdeJsonValue::Object(m) => Json::Object(m.into_iter().map(|(key, x)| JsonEntry { key, value: copy_json(x) }).collect()),
    }
}

/// The value of the first entry keyed `key`.
pub open spec fn field(fields: Seq<JsonEntry>, key: Seq<char>) -> Option<Json>
    decreases fields.len(),
{
    if fields.len() == 0 {
        None
    } else if fields[0].key@ == key {
        Some(fields[0].value)
    } else {
        field(fields.drop_first(), key)
    }
}

pub fn get_field<'a>(fields: &'a Vec<JsonEntry>, key: &str) -> (r: Option<&'a Json>)
    ensures
        r matches Some(j) ==> field(fields@, key@) == Some(*j),
        r is None ==> field(fields@, key@) is None,
{
    let mut i: usize = 0;
    assert(fields@.subrange(0, fields.len() as int) =~= fields@);
    while i < fields.len()
        invariant
            i <= fields.len(),
            field(fields@, key@) == field(fields@.subrange(i as int, fields.len() as int), key@),
        decreases fields.len() - i,
    {
        let ghost rest = fields@.subrange(i as int, fields.len() as int);
        assert(rest[0] == fields@[i as int]);
        if str_equal(fields[i].key.as_str(), key) {
            return Some(&fields[i].value);
        }
        assert(rest.drop_first() =~= fields@.subrange(i + 1, fields.len() as int));
        i = i + 1;
    }
    assert(fields@.subrange(i as int, fields.len() as int).len() == 0);
    None
}

} // verus!
