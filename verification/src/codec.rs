//! Encodings: UTF-8, JSON text, SHA-256, hexadecimal and base64.
//!
//! The functions that call other crates are declared with what is believed of
//! them; nothing else in the library is taken on trust.

use crate::json::{Json, JsonView};
use crate::text::text_lt;
use base64::Engine;
use sha2::Digest;
use vstd::prelude::*;

verus! {

/// A JSON value of `serde_json`, carried only between two calls into that crate.
#[verifier::external_type_specification]
#[verifier::external_body]
pub struct ExValue(serde_json::Value);

/// The compact JSON text that `serde_json` writes for a document.
pub uninterp spec fn json_text(j: JsonView) -> Seq<char>;

/// What `serde_json` reads from bytes: a document, or the message of its error.
pub uninterp spec fn json_parse(bytes: Seq<u8>) -> Result<JsonView, Seq<char>>;

/// The SHA-256 digest of some bytes.
pub uninterp spec fn sha256_of(bytes: Seq<u8>) -> Seq<u8>;

/// What standard base64 text stands for: bytes, or the message of the decoder's error.
pub uninterp spec fn base64_parse(text: Seq<char>) -> Result<Seq<u8>, Seq<char>>;

/// The text of bytes in UTF-8, with a replacement character for what is not UTF-8.
pub uninterp spec fn lossy_text(bytes: Seq<u8>) -> Seq<char>;

/// The outcome of a read that gives a document.
pub open spec fn read_as(j: JsonView) -> Result<JsonView, Seq<char>> {
    Ok(j)
}

/// The outcome of a read that fails with a message.
pub open spec fn unread(message: Seq<char>) -> Result<JsonView, Seq<char>> {
    Err(message)
}

/// The outcome of a decoding that gives bytes.
pub open spec fn decoded(bytes: Seq<u8>) -> Result<Seq<u8>, Seq<char>> {
    Ok(bytes)
}

/// The outcome of a decoding that fails with a message.
pub open spec fn undecoded(message: Seq<char>) -> Result<Seq<u8>, Seq<char>> {
    Err(message)
}

/// Whether reading a document back from its text gives the same document: its integers are in
/// their ordinary form, no number is fractional, the fields of each object stand in the order
/// of their names, and it is nested at most `depth` deep.
pub open spec fn canonical(j: JsonView, depth: nat) -> bool
    decreases depth,
{
    match j {
        JsonView::Null => true,
        JsonView::Bool(_) => true,
        JsonView::Unsigned(_) => true,
        JsonView::Text(_) => true,
        JsonView::Negative(n) => n < 0,
        JsonView::Decimal(_) => false,
        JsonView::Array(items) => depth > 0 && forall|i: int|
            0 <= i < items.len() ==> canonical(#[trigger] items[i], (depth - 1) as nat),
        JsonView::Object(fields) => depth > 0 && (forall|i: int|
            0 <= i < fields.len() ==> canonical((#[trigger] fields[i]).1, (depth - 1) as nat)) && (forall|
            i: int,
            k: int,
        |
            0 <= i < k < fields.len() ==> text_lt((#[trigger] fields[i]).0, (#[trigger] fields[k]).0)),
    }
}

/// Turns a document into a `serde_json` value, variant by variant. Nothing is claimed of it.
#[verifier::external_body]
fn to_value(j: &Json) -> (r: serde_json::Value) {
    match j {
        Json::Null => serde_json::Value::Null,
        Json::Bool(b) => serde_json::Value::from(*b),
        Json::Unsigned(n) => serde_json::Value::from(*n),
        Json::Negative(n) => serde_json::Value::from(*n),
        Json::Decimal(s) => serde_json::from_str(s).unwrap_or_default(),
        Json::Text(s) => serde_json::Value::from(s.as_str()),
        Json::Array(items) => items.iter().map(to_value).collect(),
        Json::Object(fields) => fields.iter().map(|f| (f.0.clone(), to_value(&f.1))).collect(),
    }
}

/// Turns a `serde_json` value into a document, variant by variant. Nothing is claimed of it.
#[verifier::external_body]
fn from_value(v: serde_json::Value) -> (r: Json) {
    match v {
        serde_json::Value::Null => Json::Null,
        serde_json::Value::Bool(b) => Json::Bool(b),
        serde_json::Value::Number(n) => match (n.as_u64(), n.as_i64()) {
            (Some(u), _) => Json::Unsigned(u),
            (None, Some(i)) => Json::Negative(i),
            (None, None) => Json::Decimal(n.to_string()),
        },
        serde_json::Value::String(s) => Json::Text(s),
        serde_json::Value::Array(a) => Json::Array(a.into_iter().map(from_value).collect()),
        serde_json::Value::Object(o) => Json::Object(o.into_iter().map(|(k, v)| (k, from_value(v))).collect()),
    }
}

/// The compact text of a document, as `serde_json::to_string` writes it. Of that text it is
/// claimed that it depends on the document alone, and that `serde_json` reads a document in
/// ordinary form back from it, as long as it is not nested too deep for its reader.
#[verifier::external_body]
pub(crate) fn write_json(j: &Json) -> (r: String)
    ensures
        r@ == json_text(j@),
        canonical(j@, 100) ==> json_parse(vstd::utf8::encode_utf8(r@)) == read_as(j@),
{
    serde_json::to_string(&to_value(j)).expect("a JSON value has a text")
}

/// Reads a document with `serde_json::from_slice`. Its result, or the message of its error, is
/// claimed to depend on the bytes alone.
#[verifier::external_body]
pub(crate) fn read_json(bytes: &[u8]) -> (r: Result<Json, String>)
    ensures
        match r {
            Ok(j) => json_parse(bytes@) == read_as(j@),
            Err(e) => json_parse(bytes@) == unread(e@),
        },
{
    serde_json::from_slice(bytes).map(from_value).map_err(|e| e.to_string())
}

/// The digest that `sha2::Sha256` computes, claimed to be 32 bytes that depend on the input alone.
#[verifier::external_body]
pub(crate) fn sha256(bytes: &[u8]) -> (r: Vec<u8>)
    ensures
        r@ == sha256_of(bytes@),
        r@.len() == 32,
{
    sha2::Sha256::digest(bytes).to_vec()
}

/// The hexadecimal digit of a value below sixteen, in lower case.
pub open spec fn hex_digit(n: int) -> char {
    if n < 10 {
        (n + 48) as char
    } else {
        (n + 87) as char
    }
}

/// Bytes in hexadecimal: two lower case digits for each.
pub open spec fn hex_view(bytes: Seq<u8>) -> Seq<char> {
    Seq::new(
        2 * bytes.len(),
        |i: int|
            hex_digit(
                if i % 2 == 0 {
                    bytes[i / 2] as int / 16
                } else {
                    bytes[i / 2] as int % 16
                },
            ),
    )
}

/// `hex::encode`: each byte as two lower case hexadecimal digits, the high one first.
#[verifier::external_body]
pub(crate) fn hex_encode(bytes: &Vec<u8>) -> (r: String)
    ensures
        r@ == hex_view(bytes@),
{
    hex::encode(bytes)
}

/// Decodes standard base64 with the `STANDARD` engine of the `base64` crate. The bytes, or the
/// message of its error, are claimed to depend on the text alone.
#[verifier::external_body]
pub(crate) fn base64_decode(text: &str) -> (r: Result<Vec<u8>, String>)
    ensures
        match r {
            Ok(b) => base64_parse(text@) == decoded(b@),
            Err(e) => base64_parse(text@) == undecoded(e@),
        },
{
    base64::engine::general_purpose::STANDARD.decode(text).map_err(|e| e.to_string())
}

/// `String::from_utf8`: the text that bytes encode, exactly where they are valid UTF-8.
#[verifier::external_body]
pub(crate) fn utf8_text(bytes: Vec<u8>) -> (r: Option<String>)
    ensures
        match r {
            Some(s) => vstd::utf8::valid_utf8(bytes@) && s@ == vstd::utf8::decode_utf8(bytes@),
            None => !vstd::utf8::valid_utf8(bytes@),
        },
{
    String::from_utf8(bytes).ok()
}

/// `String::from_utf8_lossy`: the text of bytes, which is the text they encode where they are
/// valid UTF-8.
#[verifier::external_body]
pub(crate) fn utf8_lossy(bytes: &[u8]) -> (r: String)
    ensures
        r@ == lossy_text(bytes@),
        vstd::utf8::valid_utf8(bytes@) ==> r@ == vstd::utf8::decode_utf8(bytes@),
{
    String::from_utf8_lossy(bytes).into_owned()
}

/// The SHA-256 digest of bytes in hexadecimal.
pub open spec fn sha256_hex(bytes: Seq<u8>) -> Seq<char> {
    hex_view(sha256_of(bytes))
}

/// The SHA-256 digest of `bytes`, in lower case hexadecimal.
pub fn sha256_bytes(bytes: &[u8]) -> (r: String)
    ensures
        r@ == sha256_hex(bytes@),
        r@.len() == 64,
{
    let digest = sha256(bytes);
    hex_encode(&digest)
}

/// The digest of a text, by its UTF-8 bytes.
pub open spec fn sha256_text(s: Seq<char>) -> Seq<char> {
    sha256_hex(vstd::utf8::encode_utf8(s))
}

/// The SHA-256 digest of a text's UTF-8 bytes, in lower case hexadecimal.
pub fn sha256_str(s: &str) -> (r: String)
    ensures
        r@ == sha256_text(s@),
{
    sha256_bytes(s.as_bytes())
}

/// The text of a document that is put into other text: a string as it is, anything else as JSON.
pub open spec fn display_view(j: JsonView) -> Seq<char> {
    match j {
        JsonView::Text(s) => s,
        other => json_text(other),
    }
}

/// The compact JSON text of a document.
pub fn encode(j: &Json) -> (r: String)
    ensures
        r@ == json_text(j@),
        canonical(j@, 100) ==> json_parse(vstd::utf8::encode_utf8(r@)) == read_as(j@),
{
    write_json(j)
}

/// The document that bytes write, or the message of the reader's error.
pub fn decode(bytes: &[u8]) -> (r: Result<Json, String>)
    ensures
        match r {
            Ok(j) => json_parse(bytes@) == read_as(j@),
            Err(e) => json_parse(bytes@) == unread(e@),
        },
{
    read_json(bytes)
}

/// The text that `Debug` writes for an optional text.
pub uninterp spec fn debug_text(s: Option<Seq<char>>) -> Seq<char>;

/// Calls `Debug` of std on an optional text: the text that it writes, with its quotes and escapes,
/// is what `debug_text` names. It depends on the optional text alone.
#[verifier::external_body]
pub(crate) fn debug_option(s: &Option<String>) -> (r: String)
    ensures
        r@ == debug_text(
            match *s {
                Some(t) => Some(t@),
                None => None,
            },
        ),
{
    format!("{s:?}")
}

} // verus!
