//! `deckox-server <subcommand>` for an SSH console: what each subcommand
//! reads from its input and what it prints.

use vstd::prelude::*;

use crate::text::{chars_of, decimal, owned, push_decimal, push_str, string_of, trim, trim_span};

verus! {

/// The subcommands.
#[derive(Debug, Clone, Copy, PartialEq, Eq, Structural)]
pub enum Subcommand {
    HashPassword,
    ResetPassword,
    DisableTotp,
    AccessUrl,
}

/// The subcommand an argument names; `None` when it is none of them, and
/// the server starts instead.
pub fn subcommand(argument: Option<&str>) -> (r: Option<Subcommand>)
    ensures
        r == match argument {
            Some(a) => if a@ == "hash-password"@ {
                Some(Subcommand::HashPassword)
            } else if a@ == "reset-password"@ {
                Some(Subcommand::ResetPassword)
            } else if a@ == "disable-totp"@ {
                Some(Subcommand::DisableTotp)
            } else if a@ == "access-url"@ {
                Some(Subcommand::AccessUrl)
            } else {
                None
            },
            None => None,
        },
{
    match argument {
        Some(a) => {
            if crate::agent::events::text_eq(a, "hash-password") {
                Some(Subcommand::HashPassword)
            } else if crate::agent::events::text_eq(a, "reset-password") {
                Some(Subcommand::ResetPassword)
            } else if crate::agent::events::text_eq(a, "disable-totp") {
                Some(Subcommand::DisableTotp)
            } else if crate::agent::events::text_eq(a, "access-url") {
                Some(Subcommand::AccessUrl)
            } else {
                None
            }
        },
        None => None,
    }
}

/// `s` without its trailing `\r` and `\n` characters.
pub open spec fn without_line_end(s: Seq<char>) -> Seq<char>
    decreases s.len(),
{
    if s.len() > 0 && (s.last() == '\r' || s.last() == '\n') {
        without_line_end(s.drop_last())
    } else {
        s
    }
}

/// The password read from stdin: the text without its line ending.
pub fn password_from_input(input: &str) -> (r: String)
    ensures
        r@ == without_line_end(input@),
{
    let v = chars_of(input);
    let mut e = v.len();
    assert(v@.subrange(0, e as int) =~= input@);
    while e > 0 && (v[e - 1] == '\r' || v[e - 1] == '\n')
        invariant
            e <= v@.len(),
            v@ == input@,
            without_line_end(input@) == without_line_end(v@.subrange(0, e as int)),
        decreases e,
    {
        assert(v@.subrange(0, e as int).drop_last() =~= v@.subrange(0, e - 1));
        e = e - 1;
    }
    string_of(&v, 0, e)
}

/// A confirmation answer: `y`, `Y`, `yes` or `YES`, once trimmed.
pub fn confirmed(answer: &str) -> (r: bool)
    ensures
        r == (trim(answer@) == "y"@ || trim(answer@) == "Y"@ || trim(answer@) == "yes"@ || trim(answer@) == "YES"@),
{
    let v = chars_of(answer);
    let (s, e) = trim_span(&v, 0, v.len());
    assert(v@.subrange(0, v@.len() as int) =~= answer@);
    let t = string_of(&v, s, e);
    crate::agent::events::text_eq(t.as_str(), "y") || crate::agent::events::text_eq(t.as_str(), "Y")
        || crate::agent::events::text_eq(t.as_str(), "yes") || crate::agent::events::text_eq(t.as_str(), "YES")
}

/// The error of a recovery command while the hash comes from the
/// environment, where there is no file to edit.
pub fn no_account_file(prefix: &str) -> (r: String)
    ensures
        r@ == prefix@
            + " while DECKOX_ADMIN_PASSWORD_HASH is configured; remove it and use DECKOX_ADMIN_PASSWORD_HASH_FILE instead"@,
{
    let mut m = owned(prefix);
    push_str(
        &mut m,
        " while DECKOX_ADMIN_PASSWORD_HASH is configured; remove it and use DECKOX_ADMIN_PASSWORD_HASH_FILE instead",
    );
    m
}

/// What `access-url` prints: one URL per LAN address with the listen port;
/// without an address (or without the Agent), the port, after a note
/// (the Agent's error goes to stderr).
pub struct AccessReport {
    pub stdout: Vec<String>,
    pub stderr: Option<String>,
}

pub open spec fn opt_text(o: Option<String>) -> Option<Seq<char>> {
    match o {
        Some(s) => Some(s@),
        None => None,
    }
}

pub open spec fn url_of(address: Seq<char>, port: u16) -> Seq<char> {
    "http://"@ + address + ":"@ + decimal(port as nat)
}

pub fn access_report(port: u16, addresses: Result<Vec<String>, String>) -> (r: AccessReport)
    ensures
        match addresses {
            Ok(list) => if list@.len() > 0 {
                r.stdout@.len() == list@.len() && r.stderr is None && forall|i: int|
                    0 <= i < list@.len() ==> #[trigger] r.stdout@[i]@ == url_of(list@[i]@, port)
            } else {
                crate::text::texts(r.stdout@) == seq![
                    "No LAN-facing IPv4 address was found."@,
                    "Listening on port "@ + decimal(port as nat) + "."@,
                ] && r.stderr is None
            },
            Err(e) => crate::text::texts(r.stdout@) == seq!["Listening on port "@ + decimal(port as nat) + "."@]
                && opt_text(r.stderr) == Some("Could not reach deckox-agent to detect the LAN address: "@ + e@),
        },
{
    let mut listening = owned("Listening on port ");
    push_decimal(&mut listening, port as u64);
    push_str(&mut listening, ".");
    match addresses {
        Ok(list) => {
            if list.len() > 0 {
                let mut out: Vec<String> = Vec::new();
                let mut i: usize = 0;
                while i < list.len()
                    invariant
                        i <= list@.len(),
                        out@.len() == i,
                        forall|j: int| 0 <= j < i ==> #[trigger] out@[j]@ == url_of(list@[j]@, port),
                    decreases list@.len() - i,
                {
                    let mut url = owned("http://");
                    push_str(&mut url, list[i].as_str());
                    push_str(&mut url, ":");
                    push_decimal(&mut url, port as u64);
                    out.push(url);
                    i = i + 1;
                }
                AccessReport { stdout: out, stderr: None }
            } else {
                let out = vec![owned("No LAN-facing IPv4 address was found."), listening];
                assert(crate::text::texts(out@) =~= seq![
                    "No LAN-facing IPv4 address was found."@,
                    "Listening on port "@ + decimal(port as nat) + "."@,
                ]);
                AccessReport { stdout: out, stderr: None }
            }
        },
        Err(e) => {
            let mut m = owned("Could not reach deckox-agent to detect the LAN address: ");
            push_str(&mut m, e.as_str());
            let out = vec![listening];
            assert(crate::text::texts(out@) =~= seq!["Listening on port "@ + decimal(port as nat) + "."@]);
            AccessReport { stdout: out, stderr: Some(m) }
        },
    }
}

} // verus!
