//! Reading the upload endpoint's answer: its status and the locator fields of
//! its JSON body.

use vstd::prelude::*;
use crate::retry::{classify_response, AttemptOutcome, STATUS_TOO_MANY_REQUESTS};

verus! {

#[verifier::external_type_specification]
#[verifier::external_body]
pub struct ExValue(serde_json::Value);

/// `text` is a well-formed JSON document.
pub uninterp spec fn is_json(text: Seq<char>) -> bool;

/// Relies on `serde_json::from_str` into a `serde_json::Value`: it succeeds
/// exactly on well-formed JSON text, which the text alone decides.
#[verifier::external_body]
fn parse_json(text: &str) -> (r: Option<serde_json::Value>)
    ensures
        r is Some <==> is_json(text@),
{
    serde_json::from_str::<serde_json::Value>(text).ok()
}

/// Relies on `serde_json::Value::get` with a string key: the member of an
/// object under that key, if the value is an object that has it.
#[verifier::external_body]
fn json_member<'a>(v: &'a serde_json::Value, key: &str) -> (r: Option<&'a serde_json::Value>) {
    v.get(key)
}

/// Relies on `serde_json::Value::as_array`: the elements of a JSON array.
#[verifier::external_body]
fn json_items(v: &serde_json::Value) -> (r: Option<&Vec<serde_json::Value>>) {
    v.as_array()
}

/// Relies on `serde_json::Value::as_str`: the text of a JSON string value.
#[verifier::external_body]
fn json_text(v: &serde_json::Value) -> (r: Option<String>) {
    v.as_str().map(|s| s.to_string())
}

/// The message identifier (member `id`) and the first attachment's URL
/// (member `url` of element 0 of member `attachments`) in an answer body,
/// each when present as a JSON string. A body that is not JSON has neither.
pub fn locator_fields(body: &str) -> (r: (Option<String>, Option<String>))
    ensures
        !is_json(body@) ==> r.0 is None && r.1 is None,
{
    let json = match parse_json(body) {
        Some(v) => v,
        None => return (None, None),
    };
    let message_id = match json_member(&json, "id") {
        Some(v) => json_text(v),
        None => None,
    };
    let url = match json_member(&json, "attachments") {
        Some(list) => match json_items(list) {
            Some(items) if items.len() > 0 => match json_member(&items[0], "url") {
                Some(v) => json_text(v),
                None => None,
            },
            _ => None,
        },
        None => None,
    };
    (message_id, url)
}

/// What one upload attempt that got an HTTP answer came to: rate limited on
/// status 429; otherwise uploaded when the body names both the message
/// identifier and the attachment URL, and malformed when it does not.
pub fn read_answer(status: u16, body: &str) -> (r: AttemptOutcome)
    ensures
        status == STATUS_TOO_MANY_REQUESTS ==> r == AttemptOutcome::RateLimited,
        status != STATUS_TOO_MANY_REQUESTS && !is_json(body@) ==> r == AttemptOutcome::MalformedResponse,
        r is Uploaded || r is RateLimited || r is MalformedResponse,
{
    let (message_id, url) = locator_fields(body);
    classify_response(status, message_id, url)
}

} // verus!
