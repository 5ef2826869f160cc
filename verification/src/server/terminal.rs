//! The Server's side of the web terminal: where the terminal service
//! listens, how its status reply is framed, and what the browser is told
//! when a session cannot be opened.

use vstd::prelude::*;

use crate::text::owned;

verus! {

pub const DEFAULT_SOCKET: &'static str = "/run/deckox-terminal/terminal.sock";

/// Frames larger than this are refused in both directions.
pub const MAX_MESSAGE_BYTES: usize = 16384;

/// Where the terminal service listens.
#[derive(Debug, Clone)]
pub struct TerminalClient {
    socket_path: String,
}

impl TerminalClient {
    /// The client for a socket path, which must be absolute.
    pub fn new(socket_path: String) -> (r: Result<TerminalClient, String>)
        ensures
            socket_path@.len() > 0 && socket_path@[0] == '/' ==> (r matches Ok(c) && c.socket_path()@
                == socket_path@),
            !(socket_path@.len() > 0 && socket_path@[0] == '/') ==> (r matches Err(m) && m@
                == "DECKOX_TERMINAL_SOCKET must be an absolute path"@),
    {
        let v = crate::text::chars_of(socket_path.as_str());
        if v.len() > 0 && v[0] == '/' {
            Ok(TerminalClient { socket_path })
        } else {
            Err(owned("DECKOX_TERMINAL_SOCKET must be an absolute path"))
        }
    }

    pub closed spec fn socket_path(&self) -> String {
        self.socket_path
    }

    pub fn socket(&self) -> (r: &str)
        ensures
            r@ == self.socket_path()@,
    {
        self.socket_path.as_str()
    }
}

/// What the terminal service reports of itself.
#[derive(Debug, Clone, Copy, PartialEq, Eq)]
pub struct TerminalStatus {
    pub enabled: bool,
    pub isolated: bool,
    pub privileged: bool,
    pub active_sessions: u64,
    pub max_sessions: u64,
    pub idle_timeout_seconds: u64,
}

/// The blank line that ends the headers starts at `i`.
pub open spec fn separator_at(bytes: Seq<u8>, i: int) -> bool {
    crate::server::agent_client::blank_line_at(bytes, i)
}

/// The first line, up to the first `\n`.
pub open spec fn first_line(bytes: Seq<u8>) -> Seq<u8> {
    match first_newline(bytes) {
        Some(i) => bytes.take(i),
        None => bytes,
    }
}

pub open spec fn first_newline(bytes: Seq<u8>) -> Option<int> {
    if exists|i: int| 0 <= i < bytes.len() && bytes[i] == 10 {
        Some(choose|i: int| 0 <= i < bytes.len() && bytes[i] == 10 && forall|j: int| 0 <= j < i ==> bytes[j] != 10)
    } else {
        None
    }
}

/// `HTTP/1.1 200` as bytes.
pub open spec fn ok_status_line() -> Seq<u8> {
    seq![72u8, 84, 84, 80, 47, 49, 46, 49, 32, 50, 48, 48]
}

/// The body of the terminal service's status reply: after the first blank
/// line, when the reply is a `200`.
pub open spec fn status_body_of(bytes: Seq<u8>) -> Result<Seq<u8>, Seq<char>> {
    match crate::server::agent_client::header_end(bytes) {
        None => Err("invalid terminal status response"@),
        Some(i) => {
            let line = first_line(bytes);
            if line.len() >= 12 && line.take(12) == ok_status_line() {
                Ok(bytes.skip(i + 4))
            } else {
                Err("terminal service returned an error"@)
            }
        },
    }
}

fn find_newline(bytes: &[u8]) -> (r: Option<usize>)
    ensures
        match r {
            Some(i) => i < bytes@.len() && bytes@[i as int] == 10 && forall|j: int| 0 <= j < i ==> bytes@[j] != 10,
            None => forall|i: int| 0 <= i < bytes@.len() ==> bytes@[i] != 10,
        },
{
    let mut i: usize = 0;
    while i < bytes.len()
        invariant
            i <= bytes@.len(),
            forall|j: int| 0 <= j < i ==> bytes@[j] != 10,
        decreases bytes@.len() - i,
    {
        if bytes[i] == 10 {
            return Some(i);
        }
        i = i + 1;
    }
    None
}

/// The JSON body of the status reply, or why there is none.
pub fn status_body(response: &[u8]) -> (r: Result<Vec<u8>, String>)
    ensures
        match status_body_of(response@) {
            Ok(b) => r matches Ok(x) && x@ == b,
            Err(e) => r matches Err(m) && m@ == e,
        },
{
    let ghost bytes = response@;
    let end = match crate::server::agent_client::find_header_end(response) {
        Some(i) => i,
        None => {
            assert(crate::server::agent_client::header_end(bytes) is None);
            return Err(owned("invalid terminal status response"));
        },
    };
    proof {
        crate::server::agent_client::lemma_header_end(bytes, end as int);
    }
    let line_end = match find_newline(response) {
        Some(i) => {
            proof {
                let c = choose|k: int| 0 <= k < bytes.len() && bytes[k] == 10 && forall|j: int| 0 <= j < k ==> bytes[j] != 10;
                assert(c == i) by {
                    if c < i {
                        assert(bytes[c] != 10);
                    } else if c > i {
                        assert(bytes[i as int] != 10);
                    }
                }
            }
            i
        },
        None => response.len(),
    };
    assert(first_line(bytes) =~= bytes.take(line_end as int));
    let mut ok = line_end >= 12;
    let want: [u8; 12] = [72, 84, 84, 80, 47, 49, 46, 49, 32, 50, 48, 48];
    let mut k: usize = 0;
    while ok && k < 12
        invariant
            ok ==> line_end >= 12,
            line_end <= bytes.len(),
            bytes == response@,
            want@ == ok_status_line(),
            k <= 12,
            ok ==> forall|j: int| 0 <= j < k ==> bytes[j] == ok_status_line()[j],
            !ok ==> !(line_end >= 12 && bytes.take(line_end as int).take(12) == ok_status_line()),
        decreases 12 - k,
    {
        if response[k] != want[k] {
            ok = false;
            assert(bytes.take(line_end as int).take(12)[k as int] != ok_status_line()[k as int]);
        }
        k = k + 1;
    }
    if !ok {
        return Err(owned("terminal service returned an error"));
    }
    assert(bytes.take(line_end as int).take(12) =~= ok_status_line());
    let total = response.len();
    assert(end + 4 <= total);
    Ok(crate::server::agent_client::copy_bytes(response, end + 4, total))
}

/// Why the terminal could not be opened, as the browser is told it: the
/// HTTP status, the error code and its message, from the status the
/// terminal service refused the WebSocket with (`None` when it did not
/// answer).
pub fn connect_refusal(refused_with: Option<u16>) -> (r: (u16, &'static str, &'static str))
    ensures
        refused_with == Some(429u16) ==> r.0 == 429 && r.1@ == "terminal_session_limit"@ && r.2@
            == "the terminal session limit has been reached"@,
        refused_with == Some(503u16) ==> r.0 == 503 && r.1@ == "terminal_disabled"@ && r.2@
            == "web terminal is disabled"@,
        refused_with != Some(429u16) && refused_with != Some(503u16) ==> r.0 == 503 && r.1@
            == "terminal_unavailable"@ && r.2@ == "terminal service is unavailable"@,
{
    match refused_with {
        Some(429) => (429, "terminal_session_limit", "the terminal session limit has been reached"),
        Some(503) => (503, "terminal_disabled", "web terminal is disabled"),
        _ => (503, "terminal_unavailable", "terminal service is unavailable"),
    }
}

} // verus!
