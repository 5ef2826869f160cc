//! The terminal service: which shell and home directory it may use, when a
//! browser may open a session, what it reports of itself, and what a running
//! session does with each thing that happens to it.

use vstd::prelude::*;

use crate::server::terminal::TerminalStatus;
use crate::text::{chars_of, owned, span_is, spans_are, split, split_char};

verus! {

pub const MAX_SESSIONS: u64 = 2;

/// Fifteen minutes without a message from the browser.
pub const IDLE_TIMEOUT_SECONDS: u64 = 900;

/// The largest message taken from the browser, in bytes.
pub const MAX_MESSAGE_BYTES: usize = 16384;

pub const DEFAULT_SHELL: &'static str = "/bin/sh";

pub const DEFAULT_HOME: &'static str = "/var/lib/deckox-terminal";

// ---------------------------------------------------------------------------
// Settings
// ---------------------------------------------------------------------------

/// The pieces that name a path component: neither empty nor `.`.
pub open spec fn kept_parts(pieces: Seq<Seq<char>>) -> Seq<Seq<char>> {
    pieces.filter(|p: Seq<char>| p.len() > 0 && p != "."@)
}

/// The components of a path as `std::path::Path` compares them, the root
/// aside: the pieces between slashes, without empty pieces and `.`.
pub open spec fn path_parts(path: Seq<char>) -> Seq<Seq<char>> {
    kept_parts(split(path, '/'))
}

/// Whether `path` is the absolute path with the components `parts`.
pub open spec fn is_path(path: Seq<char>, parts: Seq<Seq<char>>) -> bool {
    path.len() > 0 && path[0] == '/' && path_parts(path) == parts
}

/// The shells the service may start: `/bin/sh`, `/bin/bash` and
/// `/usr/bin/bash`, compared as paths.
pub open spec fn allowed_shell(shell: Seq<char>) -> bool {
    ||| is_path(shell, seq!["bin"@, "sh"@])
    ||| is_path(shell, seq!["bin"@, "bash"@])
    ||| is_path(shell, seq!["usr"@, "bin"@, "bash"@])
}

/// The spans of the components of `v`.
fn path_part_spans(v: &Vec<char>) -> (r: Vec<(usize, usize)>)
    ensures
        spans_are(v@, r@, path_parts(v@)),
{
    let spans = split_char(v, 0, v.len(), '/');
    assert(v@.subrange(0, v@.len() as int) =~= v@);
    let ghost pieces = split(v@, '/');
    let mut out: Vec<(usize, usize)> = Vec::new();
    let mut i: usize = 0;
    assert(pieces.take(0) =~= Seq::<Seq<char>>::empty());
    while i < spans.len()
        invariant
            pieces == split(v@, '/'),
            spans_are(v@, spans@, pieces),
            i <= spans@.len(),
            spans_are(v@, out@, kept_parts(pieces.take(i as int))),
        decreases spans@.len() - i,
    {
        let (a, b) = spans[i];
        assert(spans@[i as int] == (a, b));
        assert(pieces.take(i + 1).drop_last() =~= pieces.take(i as int));
        assert(pieces.take(i + 1).last() == pieces[i as int]);
        proof {
            reveal_strlit(".");
            reveal(Seq::filter);
            let t = pieces.take(i + 1);
            assert(v@.subrange(a as int, b as int) == pieces[i as int]);
            assert(kept_parts(t) == if t.last().len() > 0 && t.last() != "."@ {
                kept_parts(t.drop_last()).push(t.last())
            } else {
                kept_parts(t.drop_last())
            });
        }
        if b > a && !span_is(v, a, b, ".") {
            proof {
                crate::text::lemma_spans_push(v@, out@, kept_parts(pieces.take(i as int)), a, b);
            }
            out.push((a, b));
        }
        i = i + 1;
    }
    assert(pieces.take(spans@.len() as int) =~= pieces);
    out
}

/// Whether the components `spans` of `v` are exactly `lits`.
fn parts_are(v: &Vec<char>, spans: &Vec<(usize, usize)>, lits: &Vec<&str>) -> (r: bool)
    requires
        forall|k: int| 0 <= k < spans@.len() ==> #[trigger] spans@[k].0 <= spans@[k].1 <= v@.len(),
    ensures
        r == (spans@.len() == lits@.len() && forall|k: int|
            0 <= k < spans@.len() ==> v@.subrange(#[trigger] spans@[k].0 as int, spans@[k].1 as int)
                == lits@.map_values(|t: &str| t@)[k]),
{
    if spans.len() != lits.len() {
        return false;
    }
    let mut k: usize = 0;
    while k < spans.len()
        invariant
            spans@.len() == lits@.len(),
            forall|j: int| 0 <= j < spans@.len() ==> #[trigger] spans@[j].0 <= spans@[j].1 <= v@.len(),
            k <= spans@.len(),
            forall|j: int| 0 <= j < k ==> v@.subrange(#[trigger] spans@[j].0 as int, spans@[j].1 as int) == lits@[j]@,
        decreases spans@.len() - k,
    {
        let (a, b) = spans[k];
        if !span_is(v, a, b, lits[k]) {
            return false;
        }
        k = k + 1;
    }
    true
}

proof fn lemma_parts_match(
    parts: Seq<Seq<char>>,
    spans: Seq<(usize, usize)>,
    v: Seq<char>,
    lits: Seq<Seq<char>>,
    same: bool,
)
    requires
        parts.len() == spans.len(),
        forall|k: int| 0 <= k < spans.len() ==> v.subrange(#[trigger] spans[k].0 as int, spans[k].1 as int) == parts[k],
        same == (spans.len() == lits.len() && forall|k: int|
            0 <= k < spans.len() ==> v.subrange(#[trigger] spans[k].0 as int, spans[k].1 as int) == lits[k]),
    ensures
        same == (parts == lits),
{
    if same {
        assert forall|k: int| 0 <= k < parts.len() implies parts[k] == lits[k] by {
            assert(v.subrange(spans[k].0 as int, spans[k].1 as int) == parts[k]);
        }
        assert(parts =~= lits);
    }
    if parts == lits {
        assert forall|k: int| 0 <= k < spans.len() implies v.subrange(
            #[trigger] spans[k].0 as int,
            spans[k].1 as int,
        ) == lits[k] by {
            assert(v.subrange(spans[k].0 as int, spans[k].1 as int) == parts[k]);
        }
    }
}

/// Whether `shell` names one of the shells the service may start.
pub fn is_allowed_shell(shell: &str) -> (r: bool)
    ensures
        r == allowed_shell(shell@),
{
    let v = chars_of(shell);
    if v.len() == 0 || v[0] != '/' {
        return false;
    }
    let spans = path_part_spans(&v);
    let ghost parts = path_parts(shell@);
    let l1 = vec!["bin", "sh"];
    let l2 = vec!["bin", "bash"];
    let l3 = vec!["usr", "bin", "bash"];
    let sh = parts_are(&v, &spans, &l1);
    let bash = parts_are(&v, &spans, &l2);
    let usr_bash = parts_are(&v, &spans, &l3);
    proof {
        reveal_strlit("bin");
        reveal_strlit("sh");
        reveal_strlit("bash");
        reveal_strlit("usr");
        assert(v@ == shell@);
        assert forall|k: int| 0 <= k < spans@.len() implies v@.subrange(
            #[trigger] spans@[k].0 as int,
            spans@[k].1 as int,
        ) == parts[k] by {
            assert(spans@[k] == spans@[k]);
        }
        lemma_parts_match(parts, spans@, v@, l1@.map_values(|t: &str| t@), sh);
        lemma_parts_match(parts, spans@, v@, l2@.map_values(|t: &str| t@), bash);
        lemma_parts_match(parts, spans@, v@, l3@.map_values(|t: &str| t@), usr_bash);
        assert(l1@.map_values(|t: &str| t@) =~= seq!["bin"@, "sh"@]);
        assert(l2@.map_values(|t: &str| t@) =~= seq!["bin"@, "bash"@]);
        assert(l3@.map_values(|t: &str| t@) =~= seq!["usr"@, "bin"@, "bash"@]);
    }
    sh || bash || usr_bash
}


/// How the service is set up: whether it opens terminals, the shell it
/// starts and the home directory it starts it in. `root_refused` is set
/// when terminals were asked for but the service runs as root, which
/// leaves them off.
pub struct TerminalSettings {
    pub enabled: bool,
    pub root_refused: bool,
    pub shell: String,
    pub home: String,
}

pub open spec fn opt_view(o: Option<&str>) -> Option<Seq<char>> {
    match o {
        Some(t) => Some(t@),
        None => None,
    }
}

/// The setting's value, or its default when it is not set.
pub open spec fn or_default(value: Option<Seq<char>>, default: Seq<char>) -> Seq<char> {
    match value {
        Some(v) => v,
        None => default,
    }
}

/// The settings from `DECKOX_TERMINAL_ENABLED`, `DECKOX_TERMINAL_SHELL` and
/// `DECKOX_TERMINAL_HOME` (`None` when unset), and whether the process runs
/// as another user than root: terminals are on only when asked for with
/// `true` and not root; the shell must be an allowed one and the home an
/// absolute path.
pub open spec fn settings_of(
    enabled: Option<Seq<char>>,
    shell: Option<Seq<char>>,
    home: Option<Seq<char>>,
    non_root: bool,
) -> Result<(bool, bool, Seq<char>, Seq<char>), Seq<char>> {
    let requested = enabled == Some("true"@);
    let sh = or_default(shell, DEFAULT_SHELL@);
    let hm = or_default(home, DEFAULT_HOME@);
    if !allowed_shell(sh) {
        Err("DECKOX_TERMINAL_SHELL must be one of /bin/sh, /bin/bash, /usr/bin/bash"@)
    } else if !(hm.len() > 0 && hm[0] == '/') {
        Err("DECKOX_TERMINAL_HOME must be an absolute path"@)
    } else {
        Ok((requested && non_root, requested && !non_root, sh, hm))
    }
}

pub fn terminal_settings(
    enabled: Option<&str>,
    shell: Option<&str>,
    home: Option<&str>,
    non_root: bool,
) -> (r: Result<TerminalSettings, String>)
    ensures
        match settings_of(opt_view(enabled), opt_view(shell), opt_view(home), non_root) {
            Ok((on, refused, sh, hm)) => r matches Ok(t) && t.enabled == on && t.root_refused == refused
                && t.shell@ == sh && t.home@ == hm,
            Err(m) => r matches Err(e) && e@ == m,
        },
{
    let requested = match enabled {
        Some(value) => crate::agent::events::text_eq(value, "true"),
        None => false,
    };
    proof {
        reveal_strlit("true");
    }
    let sh = match shell {
        Some(value) => value,
        None => DEFAULT_SHELL,
    };
    let hm = match home {
        Some(value) => value,
        None => DEFAULT_HOME,
    };
    if !is_allowed_shell(sh) {
        return Err(owned("DECKOX_TERMINAL_SHELL must be one of /bin/sh, /bin/bash, /usr/bin/bash"));
    }
    let h = chars_of(hm);
    if !(h.len() > 0 && h[0] == '/') {
        return Err(owned("DECKOX_TERMINAL_HOME must be an absolute path"));
    }
    Ok(
        TerminalSettings {
            enabled: requested && non_root,
            root_refused: requested && !non_root,
            shell: owned(sh),
            home: owned(hm),
        },
    )
}

// ---------------------------------------------------------------------------
// Opening a session, and the service's status
// ---------------------------------------------------------------------------

/// Why a browser may not open a terminal: the HTTP status, the error code
/// and its message; `None` when it may. `permit` tells whether a session
/// slot was free.
pub fn session_refusal(enabled: bool, permit: bool) -> (r: Option<(u16, &'static str, &'static str)>)
    ensures
        !enabled ==> (r matches Some(x) && x.0 == 503 && x.1@ == "terminal_disabled"@ && x.2@
            == "web terminal is disabled"@),
        enabled && !permit ==> (r matches Some(x) && x.0 == 429 && x.1@ == "terminal_session_limit"@ && x.2@
            == "the terminal session limit has been reached"@),
        enabled && permit ==> r is None,
{
    if !enabled {
        Some((503, "terminal_disabled", "web terminal is disabled"))
    } else if !permit {
        Some((429, "terminal_session_limit", "the terminal session limit has been reached"))
    } else {
        None
    }
}

/// What the service reports of itself, `free` being the number of session
/// slots not taken.
pub fn service_status(enabled: bool, free: u64) -> (r: TerminalStatus)
    ensures
        r == (TerminalStatus {
            enabled,
            isolated: true,
            privileged: false,
            active_sessions: if free >= MAX_SESSIONS {
                0
            } else {
                (MAX_SESSIONS - free) as u64
            },
            max_sessions: MAX_SESSIONS,
            idle_timeout_seconds: IDLE_TIMEOUT_SECONDS,
        }),
{
    TerminalStatus {
        enabled,
        isolated: true,
        privileged: false,
        active_sessions: if free >= MAX_SESSIONS {
            0
        } else {
            MAX_SESSIONS - free
        },
        max_sessions: MAX_SESSIONS,
        idle_timeout_seconds: IDLE_TIMEOUT_SECONDS,
    }
}

// ---------------------------------------------------------------------------
// A running session
// ---------------------------------------------------------------------------

pub const READY_MESSAGE: &'static str = "{\"type\":\"ready\"}";

pub const START_FAILED_MESSAGE: &'static str = "{\"type\":\"error\",\"code\":\"terminal_start_failed\"}";

pub const EXIT_MESSAGE: &'static str = "{\"type\":\"exit\"}";

pub const IO_FAILED_MESSAGE: &'static str = "{\"type\":\"error\",\"code\":\"terminal_io_failed\"}";

pub const IDLE_MESSAGE: &'static str = "{\"type\":\"error\",\"code\":\"terminal_idle_timeout\"}";

/// Whether a resize asks for a size the service accepts: 20 to 400
/// columns and 5 to 200 rows.
pub open spec fn size_allowed(cols: u16, rows: u16) -> bool {
    20 <= cols <= 400 && 5 <= rows <= 200
}

/// A message from the browser. A text message is a control; `resize` holds
/// the columns and rows it asks for, `None` when it is not a resize control.
pub enum ClientFrame {
    Binary(Vec<u8>),
    Control { len: usize, resize: Option<(u16, u16)> },
    Ping(usize),
    Pong,
    Other,
}

/// What happens to a running session.
pub enum SessionEvent {
    /// A message from the browser.
    Client(ClientFrame),
    /// The browser's side closed or failed.
    ClientGone,
    /// Writing the browser's input to the terminal, or resizing it, failed.
    InputFailed,
    /// The terminal printed something.
    Output(Vec<u8>),
    /// Sending output to the browser failed.
    OutputUndelivered,
    /// The shell exited.
    ShellExited,
    /// Reading the terminal failed.
    TerminalFailed,
    /// The browser sent nothing for `IDLE_TIMEOUT_SECONDS`.
    IdleTimeout,
}

/// What the session does next. After `Close` the shell is killed, the
/// notice (if any) and a close frame are sent, and the reason is logged.
pub enum SessionAction {
    /// Write the bytes to the terminal.
    Write(Vec<u8>),
    /// Resize the terminal to `cols` columns and `rows` rows.
    Resize { cols: u16, rows: u16 },
    /// Nothing but to go on.
    Continue,
    /// Send the terminal's output to the browser.
    Send(Vec<u8>),
    Close { notice: Option<&'static str>, reason: &'static str },
}

/// Whether the action ends the session with `reason` and no notice.
pub open spec fn closes_quietly(a: SessionAction, reason: Seq<char>) -> bool {
    a matches SessionAction::Close { notice, reason: r } && notice is None && r@ == reason
}

/// Whether the action ends the session with `reason`, after `notice`.
pub open spec fn closes_with(a: SessionAction, notice: Seq<char>, reason: Seq<char>) -> bool {
    a matches SessionAction::Close { notice: n, reason: r } && n matches Some(t) && t@ == notice && r@ == reason
}

/// The next step of a session. The bool tells whether the idle timer
/// starts again: it does on every message from the browser.
pub fn session_step(event: SessionEvent) -> (r: (SessionAction, bool))
    ensures
        r.1 == (event is Client),
        match event {
            SessionEvent::Client(ClientFrame::Binary(bytes)) => if bytes@.len() <= MAX_MESSAGE_BYTES {
                r.0 matches SessionAction::Write(w) && w@ == bytes@
            } else {
                closes_quietly(r.0, "client_closed"@)
            },
            SessionEvent::Client(ClientFrame::Control { len, resize }) => match resize {
                Some((cols, rows)) => if len <= MAX_MESSAGE_BYTES && size_allowed(cols, rows) {
                    r.0 == SessionAction::Resize { cols, rows }
                } else {
                    closes_quietly(r.0, "client_closed"@)
                },
                None => closes_quietly(r.0, "client_closed"@),
            },
            SessionEvent::Client(ClientFrame::Ping(len)) => if len <= MAX_MESSAGE_BYTES {
                r.0 is Continue
            } else {
                closes_quietly(r.0, "client_closed"@)
            },
            SessionEvent::Client(ClientFrame::Pong) => r.0 is Continue,
            SessionEvent::Client(ClientFrame::Other) => closes_quietly(r.0, "client_closed"@),
            SessionEvent::ClientGone => closes_quietly(r.0, "disconnected"@),
            SessionEvent::InputFailed => closes_quietly(r.0, "client_closed"@),
            SessionEvent::Output(bytes) => r.0 matches SessionAction::Send(o) && o@ == bytes@,
            SessionEvent::OutputUndelivered => closes_quietly(r.0, "disconnected"@),
            SessionEvent::ShellExited => closes_with(r.0, EXIT_MESSAGE@, "shell_exited"@),
            SessionEvent::TerminalFailed => closes_with(r.0, IO_FAILED_MESSAGE@, "io_failed"@),
            SessionEvent::IdleTimeout => closes_with(r.0, IDLE_MESSAGE@, "idle_timeout"@),
        },
{
    let quiet = |reason: &'static str| -> (a: SessionAction)
        ensures
            closes_quietly(a, reason@),
        { SessionAction::Close { notice: None, reason } };
    match event {
        SessionEvent::Client(frame) => {
            let action = match frame {
                ClientFrame::Binary(bytes) => if bytes.len() <= MAX_MESSAGE_BYTES {
                    SessionAction::Write(bytes)
                } else {
                    quiet("client_closed")
                },
                ClientFrame::Control { len, resize } => match resize {
                    Some((cols, rows)) => if len <= MAX_MESSAGE_BYTES && 20 <= cols && cols <= 400 && 5 <= rows
                        && rows <= 200 {
                        SessionAction::Resize { cols, rows }
                    } else {
                        quiet("client_closed")
                    },
                    None => quiet("client_closed"),
                },
                ClientFrame::Ping(len) => if len <= MAX_MESSAGE_BYTES {
                    SessionAction::Continue
                } else {
                    quiet("client_closed")
                },
                ClientFrame::Pong => SessionAction::Continue,
                ClientFrame::Other => quiet("client_closed"),
            };
            (action, true)
        },
        SessionEvent::ClientGone => (quiet("disconnected"), false),
        SessionEvent::InputFailed => (quiet("client_closed"), false),
        SessionEvent::Output(bytes) => (SessionAction::Send(bytes), false),
        SessionEvent::OutputUndelivered => (quiet("disconnected"), false),
        SessionEvent::ShellExited => (SessionAction::Close { notice: Some(EXIT_MESSAGE), reason: "shell_exited" }, false),
        SessionEvent::TerminalFailed => (
            SessionAction::Close { notice: Some(IO_FAILED_MESSAGE), reason: "io_failed" },
            false,
        ),
        SessionEvent::IdleTimeout => (SessionAction::Close { notice: Some(IDLE_MESSAGE), reason: "idle_timeout" }, false),
    }
}

} // verus!
