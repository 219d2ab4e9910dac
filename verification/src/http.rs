use vstd::prelude::*;
use vstd::string::StringSliceAdditionalSpecFns;
use vstd::utf8::{decode_utf8, valid_utf8};
use crate::text::text_of;

verus! {

/// Whether a header value may hold the byte `b`: no control byte but the tab.
pub open spec fn header_byte(b: u8) -> bool {
    (b >= 32 && b != 127) || b == 9
}

/// Whether `bytes` can be the value of a header.
pub open spec fn header_value(bytes: Seq<u8>) -> bool {
    forall|i: int| 0 <= i < bytes.len() ==> header_byte(#[trigger] bytes[i])
}

/// Whether `Uri::try_from` takes `text` as the target of a request.
pub uninterp spec fn uri_accepts(text: Seq<char>) -> bool;

/// The reason phrase that `StatusCode::canonical_reason` has for `status`; `None` where
/// `status` is no status code or has no phrase.
pub uninterp spec fn canonical_reason(status: u16) -> Option<Seq<char>>;

/// `HeaderValue::from_str`, asked only whether it succeeds: it does where every byte of
/// `value` is 32 or more and not 127, or is a tab.
#[verifier::external_body]
pub(crate) fn is_header_value(value: &str) -> (r: bool)
    ensures
        r == header_value(value.spec_bytes()),
{
    hyper::header::HeaderValue::from_str(value).is_ok()
}

/// `Uri::try_from` on a string, asked only whether it succeeds. The answer depends on
/// `text` alone.
#[verifier::external_body]
pub(crate) fn is_uri(text: &str) -> (r: bool)
    ensures
        r == uri_accepts(text@),
{
    hyper::Uri::try_from(text).is_ok()
}

/// `StatusCode::from_u16` and `StatusCode::canonical_reason`: the reason phrase of
/// `status`, if it is a status code and has one. The answer depends on `status` alone.
#[verifier::external_body]
pub(crate) fn reason_phrase(status: u16) -> (r: Option<String>)
    ensures
        match r {
            Some(phrase) => canonical_reason(status) == Some(phrase@),
            None => canonical_reason(status) is None,
        },
{
    match hyper::StatusCode::from_u16(status) {
        Ok(code) => code.canonical_reason().map(String::from),
        Err(_) => None,
    }
}

/// Whether `status` reports success: 200 to 299.
pub open spec fn is_success(status: u16) -> bool {
    200 <= status < 300
}

/// Whether `status` reports success.
pub fn status_is_success(status: u16) -> (r: bool)
    ensures
        r == is_success(status),
{
    200 <= status && status < 300
}

/// The reason that goes with a status where the server gave none: its standard phrase,
/// if it has one.
pub open spec fn failure_reason(status: u16) -> Seq<char> {
    match canonical_reason(status) {
        Some(phrase) => phrase,
        None => "<unknown status code>"@,
    }
}

/// The standard phrase of a status, or the words that stand for a status without one.
pub fn phrase_or_unknown(phrase: Option<String>) -> (reason: String)
    ensures
        reason@ == match phrase {
            Some(text) => text@,
            None => "<unknown status code>"@,
        },
{
    match phrase {
        Some(text) => text,
        None => "<unknown status code>".to_owned(),
    }
}

/// The reason of a response of failure: the text of its body, letter for letter, where the
/// body is a text and not empty; else the one that goes with the status.
pub open spec fn rejection_text(status: u16, body: Seq<u8>) -> Seq<char> {
    if body.len() > 0 && valid_utf8(body) {
        decode_utf8(body)
    } else {
        failure_reason(status)
    }
}

/// The reason of a response of failure that came with this status and this body.
pub fn rejection_reason(status: u16, body: &[u8]) -> (reason: String)
    ensures
        reason@ == rejection_text(status, body@),
{
    if body.len() > 0 {
        match text_of(body) {
            Some(text) => {
                return text;
            },
            None => {},
        }
    }
    phrase_or_unknown(reason_phrase(status))
}

} // verus!
