//! What the library reads out of the daemon's replies and how it resolves
//! URLs. Decoding JSON and parsing URLs are done by serde_json and url; the
//! results are named here and the rest of the library is proved over those
//! names.

use vstd::prelude::*;

verus! {

#[verifier::external_type_specification]
#[verifier::external_body]
pub struct ExUrlParseError(url::ParseError);

/// The text stored under `key`, when `body` is a JSON object that has a
/// string there.
pub uninterp spec fn json_text_field(body: Seq<u8>, key: Seq<char>) -> Option<Seq<char>>;

/// The integer stored under `key`, when `body` is a JSON object that has
/// an integer there that fits in an `i64`.
pub uninterp spec fn json_int_field(body: Seq<u8>, key: Seq<char>) -> Option<int>;

/// Whether `s` parses as an absolute URL.
pub uninterp spec fn url_valid(s: Seq<char>) -> bool;

/// `rel` resolved against the base URL `base`, when both parse.
pub uninterp spec fn url_join(base: Seq<char>, rel: Seq<char>) -> Option<Seq<char>>;

/// Relies on serde_json::from_slice into a serde_json::Value, then Value::get
/// and Value::as_str: the string under `key` of the JSON object in `body`.
#[verifier::external_body]
pub(crate) fn text_field(body: &[u8], key: &str) -> (r: Option<String>)
    ensures
        match r {
            Some(s) => json_text_field(body@, key@) == Some(s@),
            None => json_text_field(body@, key@) is None,
        },
{
    let value: serde_json::Value = serde_json::from_slice(body).ok()?;
    value.get(key)?.as_str().map(String::from)
}

/// Relies on serde_json::from_slice into a serde_json::Value, then Value::get
/// and Value::as_i64: the integer under `key` of the JSON object in `body`.
#[verifier::external_body]
pub(crate) fn int_field(body: &[u8], key: &str) -> (r: Option<i64>)
    ensures
        match r {
            Some(v) => json_int_field(body@, key@) == Some(v as int),
            None => json_int_field(body@, key@) is None,
        },
{
    let value: serde_json::Value = serde_json::from_slice(body).ok()?;
    value.get(key)?.as_i64()
}

/// Relies on url::Url::parse: succeeds exactly when `s` is an absolute URL.
#[verifier::external_body]
pub(crate) fn check_url(s: &str) -> (r: Result<(), url::ParseError>)
    ensures
        r is Ok == url_valid(s@),
{
    url::Url::parse(s).map(|_| ())
}

/// Relies on url::Url::parse of `base` and url::Url::join: the text of `rel`
/// resolved against `base`.
#[verifier::external_body]
pub(crate) fn join_url(base: &str, rel: &str) -> (r: Option<String>)
    ensures
        match r {
            Some(s) => url_join(base@, rel@) == Some(s@),
            None => url_join(base@, rel@) is None,
        },
{
    let base = url::Url::parse(base).ok()?;
    base.join(rel).ok().map(String::from)
}

/// The base URL that a session-open reply names: its `uri`. The session id
/// that comes with it is not used.
pub open spec fn session_uri(body: Seq<u8>) -> Option<Seq<char>> {
    json_text_field(body, "uri"@)
}

/// The identifier that an effect-creation reply names: its `id`, when the
/// reply also carries a numeric `result` code. The code's value is not
/// inspected.
pub open spec fn created_effect_id(body: Seq<u8>) -> Option<Seq<char>> {
    match json_int_field(body, "result"@) {
        Some(_) => json_text_field(body, "id"@),
        None => None,
    }
}

/// Decodes a session-open reply.
pub fn decode_session_uri(body: &[u8]) -> (r: Option<String>)
    ensures
        match r {
            Some(s) => session_uri(body@) == Some(s@),
            None => session_uri(body@) is None,
        },
{
    text_field(body, "uri")
}

/// Decodes an effect-creation reply.
pub fn decode_created_effect_id(body: &[u8]) -> (r: Option<String>)
    ensures
        match r {
            Some(s) => created_effect_id(body@) == Some(s@),
            None => created_effect_id(body@) is None,
        },
{
    match int_field(body, "result") {
        Some(_) => text_field(body, "id"),
        None => None,
    }
}

} // verus!
