//! JSON documents, as the crate `serde_json` reads and writes them.

use vstd::prelude::*;

verus! {

/// `serde_json::Value`, a JSON document.
#[verifier::external_type_specification]
#[verifier::external_body]
pub struct ExValue(serde_json::Value);

/// `serde_json::Error`, why a document could not be read or written.
#[verifier::external_type_specification]
#[verifier::external_body]
pub struct ExError(serde_json::Error);

/// The document that some bytes hold, or the description of why they hold none.
pub uninterp spec fn json_document(bytes: Seq<u8>) -> Result<serde_json::Value, Seq<char>>;

/// The bytes that a document is written as, or the description of why it cannot be written.
pub uninterp spec fn json_bytes(value: serde_json::Value) -> Result<Seq<u8>, Seq<char>>;

/// The member of an object under a key, or `None` where there is none or this is no object.
pub uninterp spec fn json_member(value: serde_json::Value, key: Seq<char>) -> Option<
    serde_json::Value,
>;

/// The number that a document is, or `None` where it is no number that fits.
pub uninterp spec fn json_u64(value: serde_json::Value) -> Option<u64>;

/// The text that a document is, or `None` where it is no text.
pub uninterp spec fn json_str(value: serde_json::Value) -> Option<Seq<char>>;

/// The description of an error.
pub uninterp spec fn json_error_text(error: serde_json::Error) -> Seq<char>;

/// `serde_json::from_slice` into a document. The bytes decide what comes of it, the description of
/// the error included.
#[verifier::external_body]
pub(crate) fn parse_json(bytes: &[u8]) -> (parsed: Result<serde_json::Value, serde_json::Error>)
    ensures
        json_document(bytes@) == (match parsed {
            Ok(value) => Ok::<serde_json::Value, Seq<char>>(value),
            Err(error) => Err::<serde_json::Value, Seq<char>>(json_error_text(error)),
        }),
{
    serde_json::from_slice(bytes)
}

/// `serde_json::to_vec` of a document. The document decides what comes of it, the description of
/// the error included.
#[verifier::external_body]
pub(crate) fn write_json(value: &serde_json::Value) -> (written: Result<Vec<u8>, serde_json::Error>)
    ensures
        match (written, json_bytes(*value)) {
            (Ok(bytes), Ok(named)) => bytes@ == named,
            (Err(error), Err(text)) => json_error_text(error) == text,
            _ => false,
        },
{
    serde_json::to_vec(value)
}

/// `serde_json::Value::get` with a key.
#[verifier::external_body]
pub(crate) fn member<'a>(value: &'a serde_json::Value, key: &str) -> (found: Option<
    &'a serde_json::Value,
>)
    ensures
        json_member(*value, key@) == (match found {
            Some(member) => Some(*member),
            None => None::<serde_json::Value>,
        }),
{
    value.get(key)
}

/// `serde_json::Value::as_u64`.
#[verifier::external_body]
pub(crate) fn as_u64(value: &serde_json::Value) -> (number: Option<u64>)
    ensures
        number == json_u64(*value),
{
    value.as_u64()
}

/// `serde_json::Value::as_str`.
#[verifier::external_body]
pub(crate) fn as_str(value: &serde_json::Value) -> (text: Option<&str>)
    ensures
        match (text, json_str(*value)) {
            (Some(text), Some(named)) => text@ == named,
            (None, None) => true,
            _ => false,
        },
{
    value.as_str()
}

/// `Display` of `serde_json::Error`.
#[verifier::external_body]
pub(crate) fn error_text(error: &serde_json::Error) -> (text: String)
    ensures
        text@ == json_error_text(*error),
{
    error.to_string()
}

/// The number under a key of an object.
pub open spec fn json_number_at(value: serde_json::Value, key: Seq<char>) -> Option<u64> {
    match json_member(value, key) {
        Some(member) => json_u64(member),
        None => None,
    }
}

/// The text under a key of an object.
pub open spec fn json_text_at(value: serde_json::Value, key: Seq<char>) -> Option<Seq<char>> {
    match json_member(value, key) {
        Some(member) => json_str(member),
        None => None,
    }
}

/// The number under a key of an object.
pub fn number_at(value: &serde_json::Value, key: &str) -> (number: Option<u64>)
    ensures
        number == json_number_at(*value, key@),
{
    match member(value, key) {
        Some(member) => as_u64(member),
        None => None,
    }
}

/// The text under a key of an object.
pub fn text_at<'a>(value: &'a serde_json::Value, key: &str) -> (text: Option<&'a str>)
    ensures
        match (text, json_text_at(*value, key@)) {
            (Some(text), Some(named)) => text@ == named,
            (None, None) => true,
            _ => false,
        },
{
    match member(value, key) {
        Some(member) => as_str(member),
        None => None,
    }
}

} // verus!
