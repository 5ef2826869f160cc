//! The operations that can be set (`[security] confirm`) to need the admin
//! password, the check made before one of them runs, and the events that
//! record how an Agent-side command went.

use vstd::prelude::*;

use crate::agent::admin_check::{lock_seconds, verify_outcome, Verifier, LOCK_DURATION};
use crate::agent::error::{AgentError, ErrorKind};
use crate::agent::events::{appended, drafted, EventBus, EventDraft};
use crate::password::argon2_accepts;
use crate::protocol::{opt_view, CommandResult, EventResult, EventView};
use crate::text::{owned, push_str, texts};

verus! {

/// The operations whose requests can be required to carry the password.
pub open spec fn confirmable(name: Seq<char>) -> bool {
    name == "software_action"@ || name == "system_reboot"@ || name == "system_update"@ || name
        == "service_allowlist"@ || name == "software_allowlist"@ || name == "service_stop"@ || name
        == "schedule_change"@
}

pub const KNOWN_OPERATIONS: &'static str = "software_action, system_reboot, system_update, service_allowlist, software_allowlist, service_stop, schedule_change";

pub fn is_confirmable(name: &str) -> (r: bool)
    ensures
        r == confirmable(name@),
{
    let eq = |lit: &str| -> (b: bool)
        ensures
            b == (name@ == lit@),
        { crate::agent::events::text_eq(name, lit) };
    eq("software_action") || eq("system_reboot") || eq("system_update") || eq("service_allowlist") || eq(
        "software_allowlist",
    ) || eq("service_stop") || eq("schedule_change")
}

/// The first name that is not a confirmable operation.
pub open spec fn first_unknown(names: Seq<Seq<char>>) -> Option<Seq<char>>
    decreases names.len(),
{
    if names.len() == 0 {
        None
    } else if !confirmable(names[0]) {
        Some(names[0])
    } else {
        first_unknown(names.drop_first())
    }
}

/// Each name once, in the order of first appearance.
pub open spec fn unique(names: Seq<Seq<char>>) -> Seq<Seq<char>>
    decreases names.len(),
{
    if names.len() == 0 {
        seq![]
    } else if unique(names.drop_last()).contains(names.last()) {
        unique(names.drop_last())
    } else {
        unique(names.drop_last()).push(names.last())
    }
}

pub open spec fn unknown_message(name: Seq<char>) -> Seq<char> {
    "unknown operation \""@ + name + "\" in [security] confirm (known: "@ + KNOWN_OPERATIONS@ + ")"@
}

proof fn lemma_first_unknown_step(names: Seq<Seq<char>>, i: int)
    requires
        0 <= i < names.len(),
        forall|k: int| 0 <= k < i ==> confirmable(#[trigger] names[k]),
    ensures
        first_unknown(names) == first_unknown(names.skip(i)),
    decreases i,
{
    if i > 0 {
        assert(names.skip(1) =~= names.drop_first());
        lemma_first_unknown_step(names.drop_first(), i - 1);
        assert(names.drop_first().skip(i - 1) =~= names.skip(i));
    } else {
        assert(names.skip(0) =~= names);
    }
}

/// The configured list, each operation once, or the error for the first
/// name that is not an operation.
pub fn validated_confirm(names: &Vec<String>) -> (r: Result<Vec<String>, String>)
    ensures
        match first_unknown(texts(names@)) {
            Some(n) => r matches Err(m) && m@ == unknown_message(n),
            None => r matches Ok(v) && texts(v@) == unique(texts(names@)),
        },
{
    let ghost all = texts(names@);
    let mut out: Vec<String> = Vec::new();
    let mut i: usize = 0;
    while i < names.len()
        invariant
            i <= names@.len(),
            all == texts(names@),
            forall|k: int| 0 <= k < i ==> confirmable(#[trigger] all[k]),
            texts(out@) == unique(all.take(i as int)),
        decreases names@.len() - i,
    {
        let name = names[i].as_str();
        if !is_confirmable(name) {
            proof {
                lemma_first_unknown_step(all, i as int);
            }
            let mut m = owned("unknown operation \"");
            push_str(&mut m, name);
            push_str(&mut m, "\" in [security] confirm (known: ");
            push_str(&mut m, KNOWN_OPERATIONS);
            push_str(&mut m, ")");
            return Err(m);
        }
        let ghost t = all.take(i + 1);
        assert(t.drop_last() =~= all.take(i as int));
        if !contains_text(&out, name) {
            let ghost before = texts(out@);
            out.push(owned(name));
            assert(texts(out@) =~= before.push(name@));
        }
        i = i + 1;
    }
    proof {
        assert(all.take(i as int) =~= all);
        lemma_all_known(all);
    }
    Ok(out)
}

proof fn lemma_all_known(names: Seq<Seq<char>>)
    requires
        forall|k: int| 0 <= k < names.len() ==> confirmable(#[trigger] names[k]),
    ensures
        first_unknown(names) is None,
    decreases names.len(),
{
    if names.len() > 0 {
        assert(confirmable(names[0]));
        assert forall|k: int| 0 <= k < names.drop_first().len() implies confirmable(
            #[trigger] names.drop_first()[k],
        ) by {
            assert(names.drop_first()[k] == names[k + 1]);
        }
        lemma_all_known(names.drop_first());
    }
}

fn contains_text(items: &Vec<String>, name: &str) -> (r: bool)
    ensures
        r == texts(items@).contains(name@),
{
    let mut i: usize = 0;
    while i < items.len()
        invariant
            i <= items@.len(),
            forall|k: int| 0 <= k < i ==> texts(items@)[k] != name@,
        decreases items@.len() - i,
    {
        if crate::agent::events::text_eq(items[i].as_str(), name) {
            assert(texts(items@)[i as int] == name@);
            return true;
        }
        i = i + 1;
    }
    false
}

/// The check passes: not locked, and the hash accepts the password.
pub open spec fn accepted(s: crate::agent::admin_check::VerifierView, password: Seq<char>, now: u64) -> bool {
    lock_seconds(s, now) is None && (s.hash matches Some(h) && argon2_accepts(h, password))
}

pub const PASSWORD_REQUIRED: &'static str = "this operation needs the admin password";

/// The event that records a refused password check for `operation`.
pub open spec fn refusal_event(operation: Seq<char>, message: Seq<char>, seq: u64, at: u64) -> EventView {
    EventView {
        seq,
        timestamp_ms: at,
        kind: "password_check"@,
        result: EventResult::Rejected,
        subject: "operation="@ + operation,
        request_id: None,
        command_id: None,
        message: Some(message),
    }
}

/// Refuses `operation`, when it is one that `confirm` lists, unless it
/// carries the admin password; a refusal is recorded as an event stamped
/// `now_ms`. `now` is the clock the password check counts failures by.
pub fn authorize(
    confirm: &Vec<String>,
    verifier: &mut Verifier,
    events: &mut EventBus,
    operation: &str,
    password: Option<&str>,
    now: u64,
    now_ms: u64,
) -> (r: Result<(), AgentError>)
    requires
        now <= u64::MAX - LOCK_DURATION,
        old(events).wf(),
        old(events).next_seq() < u64::MAX,
    ensures
        final(events).wf(),
        final(verifier).path() == old(verifier).path(),
        !texts(confirm@).contains(operation@) ==> r is Ok && final(verifier)@ == old(verifier)@,
        texts(confirm@).contains(operation@) && password is None ==> final(verifier)@ == old(verifier)@ && (r matches Err(
            e,
        ) && e.kind == ErrorKind::Unauthorized && e.message@ == PASSWORD_REQUIRED@),
        texts(confirm@).contains(operation@) && password is Some ==> (r is Ok <==> accepted(
            old(verifier)@,
            password.unwrap()@,
            now,
        )) && verify_outcome(old(verifier)@, password.unwrap()@, now, final(verifier)@, r),
        final(verifier).source() == old(verifier).source(),
        r is Ok ==> final(events).events() == old(events).events() && final(events).next_seq() == old(
            events,
        ).next_seq(),
        r matches Err(e) ==> final(events).events() == appended(
            old(events).events(),
            refusal_event(operation@, e.message@, old(events).next_seq(), now_ms),
        ) && final(events).next_seq() == old(events).next_seq() + 1,
{
    if !contains_text(confirm, operation) {
        return Ok(());
    }
    let outcome = match password {
        Some(p) => verifier.verify(p, now),
        None => Err(AgentError::unauthorized(PASSWORD_REQUIRED)),
    };
    match &outcome {
        Ok(()) => {},
        Err(error) => {
            let mut subject = owned("operation=");
            push_str(&mut subject, operation);
            let draft = EventDraft {
                kind: owned("password_check"),
                result: EventResult::Rejected,
                subject,
                request_id: None,
                command_id: None,
                message: Some(owned(error.message.as_str())),
            };
            assert(drafted(draft, events.next_seq(), now_ms) == refusal_event(
                operation@,
                error.message@,
                events.next_seq(),
                now_ms,
            ));
            events.publish_at(draft, now_ms);
        },
    }
    outcome
}

/// The event that records how an Agent-side command went: accepted with
/// its command id, or rejected with the error's message.
pub open spec fn command_event(
    kind: Seq<char>,
    request_id: Seq<char>,
    detail: Seq<char>,
    ok: Option<Seq<char>>,
    error: Option<Seq<char>>,
    seq: u64,
    at: u64,
) -> EventView {
    EventView {
        seq,
        timestamp_ms: at,
        kind,
        result: if ok is Some {
            EventResult::Accepted
        } else {
            EventResult::Rejected
        },
        subject: detail,
        request_id: Some(request_id),
        command_id: ok,
        message: error,
    }
}

/// The draft that records a command's outcome.
pub fn command_result_draft(
    kind: &str,
    request_id: &str,
    detail: &str,
    result: &Result<CommandResult, AgentError>,
) -> (r: EventDraft)
    ensures
        forall|seq: u64, at: u64|
            drafted(r, seq, at) == command_event(
                kind@,
                request_id@,
                detail@,
                match result {
                    Ok(c) => Some(c.command_id@),
                    Err(_) => None,
                },
                match result {
                    Ok(_) => None,
                    Err(e) => Some(e.message@),
                },
                seq,
                at,
            ),
{
    let (result_kind, command_id, message) = match result {
        Ok(c) => (EventResult::Accepted, Some(owned(c.command_id.as_str())), None),
        Err(e) => (EventResult::Rejected, None, Some(owned(e.message.as_str()))),
    };
    let r = EventDraft {
        kind: owned(kind),
        result: result_kind,
        subject: owned(detail),
        request_id: Some(owned(request_id)),
        command_id,
        message,
    };
    assert(opt_view(r.request_id) == Some(request_id@));
    r
}

/// What `GET /v1/security` reports: whether a password hash is there, how
/// long the check stays locked, and the confirmed operations, sorted.
pub struct SecurityStatus {
    pub verifier_provisioned: bool,
    pub locked_for_seconds: Option<u64>,
    pub confirm: Vec<String>,
}

pub fn security_status(verifier: &Verifier, confirm: &Vec<String>, now: u64) -> (r: SecurityStatus)
    ensures
        r.verifier_provisioned == (verifier@.hash is Some),
        match lock_seconds(verifier@, now) {
            Some(n) => r.locked_for_seconds == Some(n as u64),
            None => r.locked_for_seconds is None,
        },
        texts(r.confirm@) == crate::order::sorted_texts(texts(confirm@)),
{
    SecurityStatus {
        verifier_provisioned: verifier.is_provisioned(),
        locked_for_seconds: verifier.locked_for(now),
        confirm: crate::order::sort_strings(confirm),
    }
}

} // verus!
