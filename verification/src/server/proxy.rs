//! What the Server checks and builds before it proxies a request to the
//! Agent: the ids that may reach an Agent path, the paths themselves, and
//! what the audit log records of the outcome.

use vstd::prelude::*;

use crate::protocol::{ServiceLogPriority, UpdateStatus};
use crate::server::auth::PasswordConfirmationResult;
use crate::text::{alnum, chars_of, decimal, ends_with, is_alnum, owned, push_decimal, push_str};

verus! {

/// A character allowed in a systemd service id.
pub open spec fn service_id_char(c: char) -> bool {
    is_alnum(c) || c == '@' || c == '_' || c == '.' || c == ':' || c == '-'
}

/// A systemd unit id that may be put in an Agent path: 1 to 256 characters
/// from `[A-Za-z0-9@_.:-]`, starting with a letter or digit and ending in
/// `.service`.
pub open spec fn valid_service(id: Seq<char>) -> bool {
    &&& 0 < id.len() <= 256
    &&& ends_with(id, ".service"@)
    &&& is_alnum(id[0])
    &&& forall|i: int| 0 <= i < id.len() ==> service_id_char(#[trigger] id[i])
}

/// A character allowed in a package name.
pub open spec fn software_id_char(c: char) -> bool {
    is_alnum(c) || c == '+' || c == '-' || c == '.' || c == '_'
}

/// A package name that may be put in an Agent path: 1 to 100 characters
/// from `[A-Za-z0-9+._-]`, starting with a letter or digit.
pub open spec fn valid_software(id: Seq<char>) -> bool {
    &&& 0 < id.len() <= 100
    &&& is_alnum(id[0])
    &&& forall|i: int| 0 <= i < id.len() ==> software_id_char(#[trigger] id[i])
}

fn all_service_chars(v: &Vec<char>) -> (r: bool)
    ensures
        r == forall|i: int| 0 <= i < v@.len() ==> service_id_char(#[trigger] v@[i]),
{
    let mut i: usize = 0;
    while i < v.len()
        invariant
            i <= v@.len(),
            forall|j: int| 0 <= j < i ==> service_id_char(#[trigger] v@[j]),
        decreases v@.len() - i,
    {
        let c = v[i];
        if !(alnum(c) || c == '@' || c == '_' || c == '.' || c == ':' || c == '-') {
            assert(!service_id_char(v@[i as int]));
            return false;
        }
        i = i + 1;
    }
    true
}

fn all_software_chars(v: &Vec<char>) -> (r: bool)
    ensures
        r == forall|i: int| 0 <= i < v@.len() ==> software_id_char(#[trigger] v@[i]),
{
    let mut i: usize = 0;
    while i < v.len()
        invariant
            i <= v@.len(),
            forall|j: int| 0 <= j < i ==> software_id_char(#[trigger] v@[j]),
        decreases v@.len() - i,
    {
        let c = v[i];
        if !(alnum(c) || c == '+' || c == '-' || c == '.' || c == '_') {
            assert(!software_id_char(v@[i as int]));
            return false;
        }
        i = i + 1;
    }
    true
}

/// A shallow syntax check of a systemd unit id before it reaches the Agent.
pub fn valid_service_id(service_id: &str) -> (r: bool)
    ensures
        r == valid_service(service_id@),
{
    let v = chars_of(service_id);
    if v.len() == 0 || v.len() > 256 || !alnum(v[0]) {
        return false;
    }
    if !crate::text::span_ends_with(&v, 0, v.len(), ".service") {
        assert(v@.subrange(0, v@.len() as int) =~= v@);
        return false;
    }
    assert(v@.subrange(0, v@.len() as int) =~= v@);
    all_service_chars(&v)
}

/// A shallow syntax check of a package name, loose enough for Debian's and
/// RPM's naming rules; the Agent checks that the package exists.
pub fn valid_software_id(software_id: &str) -> (r: bool)
    ensures
        r == valid_software(software_id@),
{
    let v = chars_of(software_id);
    if v.len() == 0 || v.len() > 100 || !alnum(v[0]) {
        return false;
    }
    all_software_chars(&v)
}

/// The log windows a browser may ask for.
pub fn valid_log_lines(lines: u16) -> (r: bool)
    ensures
        r == (lines == 50 || lines == 100 || lines == 200 || lines == 500),
{
    lines == 50 || lines == 100 || lines == 200 || lines == 500
}

pub open spec fn priority_name(priority: ServiceLogPriority) -> Seq<char> {
    match priority {
        ServiceLogPriority::All => "all"@,
        ServiceLogPriority::Error => "error"@,
        ServiceLogPriority::Warning => "warning"@,
        ServiceLogPriority::Info => "info"@,
    }
}

pub fn log_priority_name(priority: ServiceLogPriority) -> (r: &'static str)
    ensures
        r@ == priority_name(priority),
{
    match priority {
        ServiceLogPriority::All => "all",
        ServiceLogPriority::Error => "error",
        ServiceLogPriority::Warning => "warning",
        ServiceLogPriority::Info => "info",
    }
}

/// `/v1/services/{id}` or `/v1/services/{id}/{action}`.
pub open spec fn service_path_of(service_id: Seq<char>, action: Option<Seq<char>>) -> Seq<char> {
    match action {
        Some(a) => "/v1/services/"@ + service_id + "/"@ + a,
        None => "/v1/services/"@ + service_id,
    }
}

pub fn service_path(service_id: &str, action: Option<&str>) -> (r: String)
    ensures
        r@ == service_path_of(
            service_id@,
            match action {
                Some(a) => Some(a@),
                None => None,
            },
        ),
{
    let mut out = owned("/v1/services/");
    push_str(&mut out, service_id);
    match action {
        Some(a) => {
            push_str(&mut out, "/");
            push_str(&mut out, a);
        },
        None => {},
    }
    out
}

/// `/v1/software/{id}/{action}`.
pub fn software_path(software_id: &str, action: &str) -> (r: String)
    ensures
        r@ == "/v1/software/"@ + software_id@ + "/"@ + action@,
{
    let mut out = owned("/v1/software/");
    push_str(&mut out, software_id);
    push_str(&mut out, "/");
    push_str(&mut out, action);
    out
}

/// `/v1/services/{id}/logs?lines={lines}&priority={priority}`.
pub fn service_logs_path(service_id: &str, lines: u16, priority: ServiceLogPriority) -> (r: String)
    ensures
        r@ == "/v1/services/"@ + service_id@ + "/logs?lines="@ + decimal(lines as nat) + "&priority="@
            + priority_name(priority),
{
    let mut out = owned("/v1/services/");
    push_str(&mut out, service_id);
    push_str(&mut out, "/logs?lines=");
    push_decimal(&mut out, lines as u64);
    push_str(&mut out, "&priority=");
    push_str(&mut out, log_priority_name(priority));
    out
}

/// The file name offered for downloaded service logs.
pub fn logs_disposition(service_id: &str) -> (r: String)
    ensures
        r@ == "attachment; filename=\"deckox-service-logs-"@ + service_id@ + ".json\""@,
{
    let mut out = owned("attachment; filename=\"deckox-service-logs-");
    push_str(&mut out, service_id);
    push_str(&mut out, ".json\"");
    out
}

/// The audit detail of a proxied action on a service or a package:
/// `{kind}={id} action={action}`, and the Agent's status when it failed.
pub open spec fn action_detail_of(kind: Seq<char>, id: Seq<char>, action: Seq<char>, failed_with: Option<u16>) -> Seq<char> {
    kind + "="@ + id + " action="@ + action + match failed_with {
        Some(s) => " status="@ + decimal(s as nat),
        None => seq![],
    }
}

pub fn action_detail(kind: &str, id: &str, action: &str, failed_with: Option<u16>) -> (r: String)
    ensures
        r@ == action_detail_of(kind@, id@, action@, failed_with),
{
    let mut out = owned(kind);
    push_str(&mut out, "=");
    push_str(&mut out, id);
    push_str(&mut out, " action=");
    push_str(&mut out, action);
    match failed_with {
        Some(s) => {
            push_str(&mut out, " status=");
            push_decimal(&mut out, s as u64);
        },
        None => {},
    }
    out
}

/// `status={n}`, the audit detail of a refused reboot or update.
pub fn status_detail(status: u16) -> (r: String)
    ensures
        r@ == "status="@ + decimal(status as nat),
{
    let mut out = owned("status=");
    push_decimal(&mut out, status as u64);
    out
}

/// The answer to a password confirmation that did not confirm: the HTTP
/// status, error code and message for the browser, and the audit result
/// and detail.
pub struct Refusal {
    pub status: u16,
    pub code: &'static str,
    pub message: &'static str,
    pub audit_result: &'static str,
    pub audit_detail: Option<&'static str>,
}

pub fn confirmation_refusal(result: PasswordConfirmationResult) -> (r: Option<Refusal>)
    ensures
        result is Confirmed ==> r is None,
        result is Invalid ==> (r matches Some(f) && f.status == 401 && f.code@ == "invalid_current_password"@
            && f.message@ == "current password is incorrect"@ && f.audit_result@ == "failure"@
            && f.audit_detail == Some("invalid_password")),
        result is RateLimited ==> (r matches Some(f) && f.status == 429 && f.code@ == "rate_limited"@
            && f.message@ == "too many password confirmation attempts"@ && f.audit_result@ == "rate_limited"@
            && f.audit_detail is None),
{
    match result {
        PasswordConfirmationResult::Confirmed => None,
        PasswordConfirmationResult::Invalid => Some(
            Refusal {
                status: 401,
                code: "invalid_current_password",
                message: "current password is incorrect",
                audit_result: "failure",
                audit_detail: Some("invalid_password"),
            },
        ),
        PasswordConfirmationResult::RateLimited => Some(
            Refusal {
                status: 429,
                code: "rate_limited",
                message: "too many password confirmation attempts",
                audit_result: "rate_limited",
                audit_detail: None,
            },
        ),
    }
}

/// The version a self-update goes to: the latest release of the last check,
/// only when it is newer than the running one.
pub fn update_target(status: &UpdateStatus) -> (r: Option<String>)
    ensures
        match r {
            Some(t) => status.update_available && status@.latest_version == Some(t@),
            None => !status.update_available || status@.latest_version is None,
        },
{
    if status.update_available {
        crate::protocol::copy_opt(&status.latest_version)
    } else {
        None
    }
}

} // verus!
