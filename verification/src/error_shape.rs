//! The one shape of every error the Agent and the Server send:
//! `{"code": ..., "message": ...}`. Handlers answer that way already; an
//! error the web framework raises before a handler runs (a malformed JSON
//! body, a wrong method) comes as plain text and is rewritten.

use vstd::prelude::*;

use crate::text::{chars_of, owned, starts_with, string_of, trim, trim_span};

verus! {

/// At most this many characters of a plain-text error become the message.
pub const MAX_MESSAGE_CHARS: usize = 300;

/// A client or server error status.
pub open spec fn is_error_status(status: u16) -> bool {
    400 <= status <= 599
}

/// Without a content type, or with `text/plain...`.
pub open spec fn is_plain(content_type: Option<Seq<char>>) -> bool {
    match content_type {
        None => true,
        Some(t) => starts_with(t, "text/plain"@),
    }
}

/// Whether a response is rewritten: an error whose body is plain text.
pub fn needs_standard_shape(status: u16, content_type: Option<&str>) -> (r: bool)
    ensures
        r == (is_error_status(status) && is_plain(match content_type {
            Some(t) => Some(t@),
            None => None,
        })),
{
    if !(400 <= status && status <= 599) {
        return false;
    }
    match content_type {
        None => true,
        Some(t) => crate::text::has_prefix(t, "text/plain"),
    }
}

/// The message of a rewritten error: the body trimmed and cut to 300
/// characters, else the status's reason phrase, else `error`.
pub open spec fn message_of(body: Seq<char>, reason: Option<Seq<char>>) -> Seq<char> {
    let cut = if trim(body).len() > MAX_MESSAGE_CHARS {
        trim(body).take(MAX_MESSAGE_CHARS as int)
    } else {
        trim(body)
    };
    if cut.len() > 0 {
        cut
    } else {
        match reason {
            Some(r) => r,
            None => "error"@,
        }
    }
}

pub fn error_message(body: &str, reason: Option<&str>) -> (r: String)
    ensures
        r@ == message_of(body@, match reason {
            Some(x) => Some(x@),
            None => None,
        }),
{
    let v = chars_of(body);
    let (s, e) = trim_span(&v, 0, v.len());
    assert(v@.subrange(0, v@.len() as int) =~= body@);
    let end = if e - s > MAX_MESSAGE_CHARS {
        s + MAX_MESSAGE_CHARS
    } else {
        e
    };
    if end == s {
        return match reason {
            Some(x) => owned(x),
            None => owned("error"),
        };
    }
    let m = string_of(&v, s, end);
    assert(m@ =~= if trim(body@).len() > MAX_MESSAGE_CHARS {
        trim(body@).take(MAX_MESSAGE_CHARS as int)
    } else {
        trim(body@)
    });
    m
}

/// A header of the original response that the rewritten one keeps: all but
/// the body's type and length.
pub fn keeps_header(name: &str) -> (r: bool)
    ensures
        r == (name@ != "content-type"@ && name@ != "content-length"@),
{
    !crate::agent::events::text_eq(name, "content-type") && !crate::agent::events::text_eq(name, "content-length")
}

/// The code for an error status; `unauthorized` is the code the caller
/// uses for 401.
pub open spec fn code_of(status: u16, unauthorized: Seq<char>) -> Seq<char> {
    if status == 400 {
        "bad_request"@
    } else if status == 401 {
        unauthorized
    } else if status == 403 {
        "forbidden"@
    } else if status == 404 {
        "not_found"@
    } else if status == 405 {
        "method_not_allowed"@
    } else if status == 413 {
        "payload_too_large"@
    } else if status == 415 {
        "unsupported_media_type"@
    } else if status == 422 {
        "invalid_request"@
    } else if status == 429 {
        "rate_limited"@
    } else if 500 <= status <= 599 {
        "internal_error"@
    } else {
        "error"@
    }
}

pub fn code_with(status: u16, unauthorized: &'static str) -> (r: &'static str)
    ensures
        r@ == code_of(status, unauthorized@),
{
    if status == 400 {
        "bad_request"
    } else if status == 401 {
        unauthorized
    } else if status == 403 {
        "forbidden"
    } else if status == 404 {
        "not_found"
    } else if status == 405 {
        "method_not_allowed"
    } else if status == 413 {
        "payload_too_large"
    } else if status == 415 {
        "unsupported_media_type"
    } else if status == 422 {
        "invalid_request"
    } else if status == 429 {
        "rate_limited"
    } else if 500 <= status && status <= 599 {
        "internal_error"
    } else {
        "error"
    }
}

} // verus!
