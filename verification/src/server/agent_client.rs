//! The Server's side of the Agent's Unix socket: one HTTP/1.1 request per
//! connection, and the reply read back as a status and a JSON body.

use vstd::prelude::*;

use crate::encoding::utf8_text;
use crate::text::{chars_of, decimal, lines, owned, parse_unsigned, push_decimal, push_str, split_lines, split_words, words};

verus! {

#[verifier::external_type_specification]
#[verifier::external_body]
pub struct ExJsonValue(serde_json::Value);

/// Where the Agent listens.
#[derive(Debug, Clone)]
pub struct AgentClient {
    pub socket_path: String,
}

impl AgentClient {
    pub fn new(socket_path: String) -> (r: AgentClient)
        ensures
            r.socket_path@ == socket_path@,
    {
        AgentClient { socket_path }
    }
}

/// The Agent's answer: its HTTP status and its JSON body.
pub struct AgentResponse {
    pub status: u16,
    pub body: serde_json::Value,
}

/// The request line and headers sent for `method path`.
pub open spec fn request_text_of(method: Seq<char>, path: Seq<char>) -> Seq<char> {
    method + " "@ + path + " HTTP/1.1\r\nHost: agent\r\nConnection: close\r\n\r\n"@
}

pub fn request_text(method: &str, path: &str) -> (r: String)
    ensures
        r@ == request_text_of(method@, path@),
{
    let mut out = owned(method);
    push_str(&mut out, " ");
    push_str(&mut out, path);
    push_str(&mut out, " HTTP/1.1\r\nHost: agent\r\nConnection: close\r\n\r\n");
    out
}

/// The error text of `serde_json` for `bytes`, `None` when they hold one
/// JSON value.
pub uninterp spec fn json_error(bytes: Seq<u8>) -> Option<Seq<char>>;

/// The JSON value that `serde_json` reads from `bytes` when they hold one.
pub uninterp spec fn json_value(bytes: Seq<u8>) -> serde_json::Value;

/// `serde_json::from_slice::<serde_json::Value>`: the value the bytes hold,
/// or the parser's error text. Both depend on the bytes alone; they are
/// named, not described.
#[verifier::external_body]
fn parse_json(bytes: &[u8]) -> (r: Result<serde_json::Value, String>)
    ensures
        match json_error(bytes@) {
            None => r matches Ok(v) && v == json_value(bytes@),
            Some(e) => r matches Err(m) && m@ == e,
        },
{
    serde_json::from_slice(bytes).map_err(|error| error.to_string())
}

/// Whether `bytes` hold the blank line `\r\n\r\n` at `i`.
pub open spec fn blank_line_at(bytes: Seq<u8>, i: int) -> bool {
    0 <= i && i + 4 <= bytes.len() && bytes[i] == 13 && bytes[i + 1] == 10 && bytes[i + 2] == 13 && bytes[i
        + 3] == 10
}

/// Where the headers end: the first blank line.
pub open spec fn header_end(bytes: Seq<u8>) -> Option<int> {
    if exists|i: int| blank_line_at(bytes, i) {
        Some(choose|i: int| blank_line_at(bytes, i) && forall|j: int| 0 <= j < i ==> !blank_line_at(bytes, j))
    } else {
        None
    }
}

/// The first blank line found is where the headers end.
pub proof fn lemma_header_end(bytes: Seq<u8>, i: int)
    requires
        blank_line_at(bytes, i),
        forall|j: int| 0 <= j < i ==> !blank_line_at(bytes, j),
    ensures
        header_end(bytes) == Some(i),
        i + 4 <= bytes.len(),
{
    let c = choose|j: int| blank_line_at(bytes, j) && forall|k: int| 0 <= k < j ==> !blank_line_at(bytes, k);
    assert(c == i) by {
        if c < i {
            assert(!blank_line_at(bytes, c));
        } else if c > i {
            assert(!blank_line_at(bytes, i));
        }
    }
}

pub(crate) fn find_header_end(bytes: &[u8]) -> (r: Option<usize>)
    ensures
        match r {
            Some(i) => blank_line_at(bytes@, i as int) && forall|j: int| 0 <= j < i ==> !blank_line_at(bytes@, j),
            None => forall|i: int| !blank_line_at(bytes@, i),
        },
{
    if bytes.len() < 4 {
        return None;
    }
    let mut i: usize = 0;
    while i <= bytes.len() - 4
        invariant
            bytes@.len() >= 4,
            i <= bytes@.len() - 3,
            forall|j: int| 0 <= j < i ==> !blank_line_at(bytes@, j),
        decreases bytes@.len() - i,
    {
        if bytes[i] == 13 && bytes[i + 1] == 10 && bytes[i + 2] == 13 && bytes[i + 3] == 10 {
            return Some(i);
        }
        i = i + 1;
    }
    None
}

/// The status code on the first line of the headers: its second word, a
/// number between 100 and 999.
pub open spec fn status_of(headers: Seq<char>) -> Option<nat> {
    if lines(headers).len() > 0 && words(lines(headers)[0]).len() > 1 {
        match parse_unsigned(words(lines(headers)[0])[1], 65535) {
            Some(n) => if 100 <= n <= 999 {
                Some(n)
            } else {
                None
            },
            None => None,
        }
    } else {
        None
    }
}

/// What the Agent's raw reply reads as: the headers end at the first blank
/// line and must be UTF-8 with a valid status, and the rest must be JSON.
pub open spec fn response_of(bytes: Seq<u8>) -> Result<nat, Seq<char>> {
    match header_end(bytes) {
        None => Err("invalid HTTP response from Agent"@),
        Some(i) => if !vstd::utf8::valid_utf8(bytes.take(i)) {
            Err("Agent returned invalid HTTP headers"@)
        } else {
            match status_of(vstd::utf8::decode_utf8(bytes.take(i))) {
                None => Err("Agent returned an invalid HTTP status"@),
                Some(status) => match json_error(bytes.skip(i + 4)) {
                    Some(e) => Err("Agent returned invalid JSON: "@ + e),
                    None => Ok(status),
                },
            }
        },
    }
}

fn status_line_code(headers: &str) -> (r: Option<u16>)
    ensures
        match status_of(headers@) {
            Some(n) => r == Some(n as u16),
            None => r is None,
        },
{
    let v = chars_of(headers);
    let spans = split_lines(&v);
    if spans.len() == 0 {
        return None;
    }
    let (a, b) = spans[0];
    let ws = split_words(&v, a, b);
    assert(v@.subrange(a as int, b as int) == lines(headers@)[0]);
    if ws.len() < 2 {
        return None;
    }
    let (s, e) = ws[1];
    assert(v@.subrange(s as int, e as int) == words(lines(headers@)[0])[1]);
    match crate::text::parse_unsigned_span(&v, s, e, 65535) {
        Some(n) => if 100 <= n && n <= 999 {
            Some(n as u16)
        } else {
            None
        },
        None => None,
    }
}

pub(crate) fn copy_bytes(bytes: &[u8], start: usize, end: usize) -> (r: Vec<u8>)
    requires
        start <= end <= bytes@.len(),
    ensures
        r@ == bytes@.subrange(start as int, end as int),
{
    let mut out: Vec<u8> = Vec::new();
    let mut i = start;
    while i < end
        invariant
            start <= i <= end <= bytes@.len(),
            out@ == bytes@.subrange(start as int, i as int),
        decreases end - i,
    {
        out.push(bytes[i]);
        assert(out@ =~= bytes@.subrange(start as int, i + 1));
        i = i + 1;
    }
    out
}

/// Reads the Agent's raw reply.
pub fn parse_response(response: &[u8]) -> (r: Result<AgentResponse, String>)
    ensures
        match response_of(response@) {
            Ok(status) => r matches Ok(a) && a.status == status && a.body == json_value(
                response@.skip(header_end(response@)->0 + 4),
            ),
            Err(e) => r matches Err(m) && m@ == e,
        },
{
    let end = match find_header_end(response) {
        Some(i) => i,
        None => {
            assert(!exists|i: int| blank_line_at(response@, i));
            return Err(owned("invalid HTTP response from Agent"));
        },
    };
    proof {
        lemma_header_end(response@, end as int);
    }
    assert(end + 4 <= response@.len());
    let total = response.len();
    assert(end + 4 <= total);
    let head = copy_bytes(response, 0, end);
    assert(head@ =~= response@.take(end as int));
    let headers = match utf8_text(head) {
        Some(h) => h,
        None => return Err(owned("Agent returned invalid HTTP headers")),
    };
    let status = match status_line_code(headers.as_str()) {
        Some(s) => s,
        None => return Err(owned("Agent returned an invalid HTTP status")),
    };
    let rest = copy_bytes(response, end + 4, total);
    assert(rest@ =~= response@.skip(end + 4));
    match parse_json(rest.as_slice()) {
        Ok(body) => Ok(AgentResponse { status, body }),
        Err(error) => {
            let mut m = owned("Agent returned invalid JSON: ");
            push_str(&mut m, error.as_str());
            Err(m)
        },
    }
}

/// `get_json` accepts only a 2xx status.
pub fn require_success(status: u16) -> (r: Result<(), String>)
    ensures
        200 <= status <= 299 ==> r is Ok,
        !(200 <= status <= 299) ==> (r matches Err(m) && m@ == "Agent API returned HTTP "@ + decimal(status as nat)),
{
    if 200 <= status && status <= 299 {
        Ok(())
    } else {
        let mut m = owned("Agent API returned HTTP ");
        push_decimal(&mut m, status as u64);
        Err(m)
    }
}

} // verus!
