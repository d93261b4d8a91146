//! Messages of failed requests.

use crate::model::HttpError;
use crate::text::{cat3, opt_text, trimmed};
use vstd::prelude::*;
use vstd::string::*;
use vstd::utf8::*;

verus! {

/// The text of the member `key` of a JSON object, where `body` is one and the
/// member is a string.
pub uninterp spec fn json_text_member(body: Seq<u8>, key: Seq<char>) -> Option<Seq<char>>;

/// `serde_json::from_slice` to a `serde_json::Value`, of which `get` and
/// `as_str` read a member. What comes out depends on the bytes and the key
/// alone; which bytes are JSON is left to that crate.
#[verifier::external_body]
fn read_json_member(body: &[u8], key: &str) -> (r: Option<String>)
    ensures
        opt_text(r) == json_text_member(body@, key@),
{
    let value: serde_json::Value = serde_json::from_slice(body).ok()?;
    value.get(key)?.as_str().map(String::from)
}

/// `std::str::from_utf8` gives the text that bytes encode, where they are
/// well-formed.
#[verifier::external_body]
fn read_utf8(body: &[u8]) -> (r: Option<&str>)
    ensures
        r is Some <==> valid_utf8(body@),
        r is Some ==> r->0.spec_bytes() == body@,
{
    std::str::from_utf8(body).ok()
}

/// The message of a failed request with what its body says under `error` and
/// `message`: that, or else the text of the body behind the error, or else the
/// error alone.
pub open spec fn message_of(
    err: HttpError,
    error: Option<Seq<char>>,
    message: Option<Seq<char>>,
) -> Seq<char> {
    match err.body {
        None => err.text@,
        Some(body) => if error is Some {
            error->0
        } else if message is Some {
            message->0
        } else if valid_utf8(body@) && trimmed(decode_utf8(body@)).len() > 0 {
            err.text@ + ": "@ + trimmed(decode_utf8(body@))
        } else {
            err.text@
        },
    }
}

/// The message of a failed request.
pub open spec fn error_message(err: HttpError) -> Seq<char> {
    match err.body {
        None => err.text@,
        Some(body) => message_of(
            err,
            json_text_member(body@, "error"@),
            json_text_member(body@, "message"@),
        ),
    }
}

/// The message of a failed request, given what its body says under `error` and
/// `message`.
pub fn choose_message(err: &HttpError, error: Option<String>, message: Option<String>) -> (r:
    String)
    ensures
        r@ == message_of(*err, opt_text(error), opt_text(message)),
{
    if let Some(body) = &err.body {
        if let Some(text) = error {
            return text;
        }
        if let Some(text) = message {
            return text;
        }
        if let Some(text) = read_utf8(body.as_slice()) {
            proof {
                encode_utf8_decode_utf8(text@);
            }
            let text = text.trim();
            if !text.is_empty() {
                return cat3(err.text.as_str(), ": ", text);
            }
        }
    }
    err.text.clone()
}

/// The message to show for a failed request.
pub fn extract_error_message(err: &HttpError) -> (r: String)
    ensures
        r@ == error_message(*err),
{
    match &err.body {
        None => err.text.clone(),
        Some(body) => {
            let error = read_json_member(body.as_slice(), "error");
            let message = read_json_member(body.as_slice(), "message");
            choose_message(err, error, message)
        },
    }
}

/// What the body of a reply says as its error is the message, whatever else it says; else what it
/// says as its message; else the text of the reply stands before the body, or alone where there is
/// nothing to read.
pub proof fn lemma_message(err: HttpError, error: Seq<char>, message: Seq<char>)
    ensures
        err.body is Some ==> {
            &&& message_of(err, Some(error), None) == error
            &&& message_of(err, Some(error), Some(message)) == error
            &&& message_of(err, None, Some(message)) == message
        },
        err.body is None ==> message_of(err, Some(error), Some(message)) == err.text@,
        err.text@.is_prefix_of(message_of(err, None, None)),
        match err.body {
            Some(body) => valid_utf8(body@) && trimmed(decode_utf8(body@)).len() > 0
                ==> message_of(err, None, None).len() == err.text@.len() + 2 + trimmed(
                decode_utf8(body@),
            ).len(),
            None => true,
        },
{
    reveal_strlit(": ");
}

} // verus!
