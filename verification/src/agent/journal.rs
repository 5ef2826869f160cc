//! The systemd side of service management: the details `systemctl show`
//! reports, the result of a control action, and the journal lines of a
//! service read back as log entries.

use vstd::prelude::*;

use crate::agent::error::{AgentError, ErrorKind};
use crate::agent::services::{
    ServiceManager, allowed_log_lines, is_protected_service, journal_priority, journal_priority_name, last_value,
    lemma_last_value,
    opt_text, property_value, truncate_message, truncated_message, utf8_len, valid_service_id,
    validate_log_lines, validate_service_id,
};
use crate::protocol::{CommandResult, CommandStatus, ServiceAction, ServiceDetails, ServiceLogEntry, ServiceLogPriority};
use crate::text::{decimal, has_key, last_value_is, lines, owned, pair_texts, parse_unsigned, push_decimal, push_str, split_lines, texts, trim};

verus! {

/// The most bytes of journal output read.
pub const MAX_JOURNAL_OUTPUT_BYTES: u64 = 2097152;

/// The most message bytes one answer carries.
pub const MAX_LOG_RESPONSE_BYTES: u64 = 524288;

/// `systemd management requires a Linux host` off Linux.
pub fn ensure_linux(on_linux: bool) -> (r: Result<(), AgentError>)
    ensures
        on_linux ==> r is Ok,
        !on_linux ==> (r matches Err(e) && e.kind == ErrorKind::Unavailable && e.message@
            == "systemd management requires a Linux host"@),
{
    if on_linux {
        Ok(())
    } else {
        Err(AgentError::unavailable("systemd management requires a Linux host"))
    }
}

// ---------------------------------------------------------------------------
// Details
// ---------------------------------------------------------------------------

/// A service's details as plain values.
pub struct DetailsView {
    pub id: Seq<char>,
    pub description: Seq<char>,
    pub load_state: Seq<char>,
    pub active_state: Seq<char>,
    pub sub_state: Seq<char>,
    pub unit_file_state: Option<Seq<char>>,
    pub main_pid: Option<u32>,
    pub control_allowed: bool,
}

pub open spec fn details_view(d: ServiceDetails) -> DetailsView {
    DetailsView {
        id: d.id@,
        description: d.description@,
        load_state: d.load_state@,
        active_state: d.active_state@,
        sub_state: d.sub_state@,
        unit_file_state: opt_text(d.unit_file_state),
        main_pid: d.main_pid,
        control_allowed: d.control_allowed,
    }
}

pub open spec fn or_empty(o: Option<Seq<char>>) -> Seq<char> {
    match o {
        Some(s) => s,
        None => seq![],
    }
}

/// The details `systemctl show` reports (`props`, its `key=value` lines),
/// or `service not found` when its load state is missing or `not-found`.
pub open spec fn details_of(id: Seq<char>, props: Seq<(Seq<char>, Seq<char>)>, control_allowed: bool) -> Result<DetailsView, Seq<char>> {
    match last_value(props, "LoadState"@) {
        None => Err("service not found: "@ + id),
        Some(load) => if load == "not-found"@ {
            Err("service not found: "@ + id)
        } else {
            Ok(
                DetailsView {
                    id: match last_value(props, "Id"@) {
                        Some(v) => v,
                        None => id,
                    },
                    description: or_empty(last_value(props, "Description"@)),
                    load_state: load,
                    active_state: or_empty(last_value(props, "ActiveState"@)),
                    sub_state: or_empty(last_value(props, "SubState"@)),
                    unit_file_state: match last_value(props, "UnitFileState"@) {
                        Some(v) => if v.len() > 0 {
                            Some(v)
                        } else {
                            None
                        },
                        None => None,
                    },
                    main_pid: match last_value(props, "MainPID"@) {
                        Some(v) => match parse_unsigned(v, 0xffff_ffff) {
                            Some(p) => if p != 0 {
                                Some(p as u32)
                            } else {
                                None
                            },
                            None => None,
                        },
                        None => None,
                    },
                    control_allowed,
                },
            )
        },
    }
}

fn value_or_empty(pairs: &Vec<(String, String)>, key: &str) -> (r: String)
    ensures
        r@ == or_empty(last_value(pair_texts(pairs@), key@)),
{
    match property_value(pairs, key) {
        Some(v) => v,
        None => String::new(),
    }
}

/// A key has one last value.
proof fn lemma_last_values_agree(props: Seq<(Seq<char>, Seq<char>)>, key: Seq<char>)
    ensures
        forall|a: Seq<char>, b: Seq<char>|
            last_value_is(props, key, a) && last_value_is(props, key, b) ==> a == b,
{
    assert forall|a: Seq<char>, b: Seq<char>|
        last_value_is(props, key, a) && last_value_is(props, key, b) implies a == b by {
        let i = choose|i: int|
            #![trigger props[i]]
            0 <= i < props.len() && props[i].0 == key && props[i].1 == a && forall|j: int|
                i < j < props.len() ==> (#[trigger] props[j]).0 != key;
        let k = choose|k: int|
            #![trigger props[k]]
            0 <= k < props.len() && props[k].0 == key && props[k].1 == b && forall|j: int|
                k < j < props.len() ==> (#[trigger] props[j]).0 != key;
        if i < k {
            assert(props[k].0 != key);
        } else if k < i {
            assert(props[i].0 != key);
        }
    }
}

/// A text property of the details: the value of the last `key` line, empty
/// when there is none.
pub open spec fn reported(props: Seq<(Seq<char>, Seq<char>)>, key: Seq<char>, v: Seq<char>) -> bool {
    &&& has_key(props, key) ==> last_value_is(props, key, v)
    &&& !has_key(props, key) ==> v == Seq::<char>::empty()
}

/// The details report what `systemctl show` printed: the load state is the
/// last `LoadState` line, and the active state, sub-state and description
/// the last line of their key (empty when there is none); a missing or
/// `not-found` load state means the service is not found.
pub proof fn lemma_details_report_properties(
    id: Seq<char>,
    props: Seq<(Seq<char>, Seq<char>)>,
    control_allowed: bool,
)
    ensures
        details_of(id, props, control_allowed) is Err <==> (!has_key(props, "LoadState"@) || last_value_is(
            props,
            "LoadState"@,
            "not-found"@,
        )),
        details_of(id, props, control_allowed) matches Ok(d) ==> {
            &&& last_value_is(props, "LoadState"@, d.load_state)
            &&& reported(props, "ActiveState"@, d.active_state)
            &&& reported(props, "SubState"@, d.sub_state)
            &&& reported(props, "Description"@, d.description)
            &&& d.control_allowed == control_allowed
            &&& has_key(props, "Id"@) ==> last_value_is(props, "Id"@, d.id)
            &&& !has_key(props, "Id"@) ==> d.id == id
            &&& (d.unit_file_state matches Some(u) ==> u.len() > 0 && last_value_is(props, "UnitFileState"@, u))
            &&& (d.unit_file_state is None ==> !has_key(props, "UnitFileState"@) || last_value_is(
                props,
                "UnitFileState"@,
                seq![],
            ))
        },
{
    lemma_last_value(props, "Id"@);
    lemma_last_value(props, "UnitFileState"@);
    if let Some(v) = last_value(props, "UnitFileState"@) {
        if v.len() == 0 {
            assert(v =~= Seq::<char>::empty());
        }
    }
    lemma_last_value(props, "LoadState"@);
    lemma_last_value(props, "ActiveState"@);
    lemma_last_value(props, "SubState"@);
    lemma_last_value(props, "Description"@);
    lemma_last_values_agree(props, "LoadState"@);
}

/// The `systemctl show` properties asked for a service's details.
pub const DETAIL_PROPERTIES: &'static str = "--property=Id,Description,LoadState,ActiveState,SubState,UnitFileState,MainPID";

impl ServiceManager {
    /// The details of `service_id` from the `key=value` pairs of `systemctl
    /// show`.
    pub fn details_from(&self, service_id: &str, properties: &Vec<(String, String)>) -> (r: Result<ServiceDetails, AgentError>)
        ensures
            match details_of(service_id@, pair_texts(properties@), self@.contains(service_id@)) {
                Ok(d) => r matches Ok(x) && details_view(x) == d,
                Err(m) => r matches Err(e) && e.kind == ErrorKind::NotFound && e.message@ == m,
            },
            r is Err <==> (!has_key(pair_texts(properties@), "LoadState"@) || last_value_is(
                pair_texts(properties@),
                "LoadState"@,
                "not-found"@,
            )),
            r matches Ok(x) ==> {
                let props = pair_texts(properties@);
                &&& last_value_is(props, "LoadState"@, x.load_state@)
                &&& reported(props, "ActiveState"@, x.active_state@)
                &&& reported(props, "SubState"@, x.sub_state@)
                &&& reported(props, "Description"@, x.description@)
                &&& x.control_allowed == self@.contains(service_id@)
            },
    {
        let ghost props = pair_texts(properties@);
        proof {
            lemma_last_value(props, "LoadState"@);
            lemma_last_value(props, "ActiveState"@);
            lemma_last_value(props, "SubState"@);
            lemma_last_value(props, "Description"@);
            lemma_last_values_agree(props, "LoadState"@);
        }
        let load = match property_value(properties, "LoadState") {
            Some(l) => l,
            None => {
                let mut m = owned("service not found: ");
                push_str(&mut m, service_id);
                return Err(AgentError::not_found(m.as_str()));
            },
        };
        if crate::agent::events::text_eq(load.as_str(), "not-found") {
            let mut m = owned("service not found: ");
            push_str(&mut m, service_id);
            return Err(AgentError::not_found(m.as_str()));
        }
        let id = match property_value(properties, "Id") {
            Some(v) => v,
            None => owned(service_id),
        };
        let unit_file_state = match property_value(properties, "UnitFileState") {
            Some(v) => if crate::text::chars_of(v.as_str()).len() > 0 {
                Some(v)
            } else {
                None
            },
            None => None,
        };
        let main_pid = match property_value(properties, "MainPID") {
            Some(v) => {
                let c = crate::text::chars_of(v.as_str());
                assert(c@.subrange(0, c@.len() as int) =~= v@);
                match crate::text::parse_unsigned_span(&c, 0, c.len(), 0xffff_ffff) {
                    Some(p) => if p != 0 {
                        Some(p as u32)
                    } else {
                        None
                    },
                    None => None,
                }
            },
            None => None,
        };
        Ok(
            ServiceDetails {
                id,
                description: value_or_empty(properties, "Description"),
                load_state: load,
                active_state: value_or_empty(properties, "ActiveState"),
                sub_state: value_or_empty(properties, "SubState"),
                unit_file_state,
                main_pid,
                control_allowed: self.is_allowed(service_id),
            },
        )
    }
}

// ---------------------------------------------------------------------------
// Control
// ---------------------------------------------------------------------------

pub open spec fn action_name_of(action: ServiceAction) -> Seq<char> {
    match action {
        ServiceAction::Start => "start"@,
        ServiceAction::Stop => "stop"@,
        ServiceAction::Restart => "restart"@,
        ServiceAction::Enable => "enable"@,
        ServiceAction::Disable => "disable"@,
    }
}

/// The `systemctl` verb of an action.
pub fn action_name(action: ServiceAction) -> (r: &'static str)
    ensures
        r@ == action_name_of(action),
{
    match action {
        ServiceAction::Start => "start",
        ServiceAction::Stop => "stop",
        ServiceAction::Restart => "restart",
        ServiceAction::Enable => "enable",
        ServiceAction::Disable => "disable",
    }
}

impl ServiceManager {
    /// Whether `action` may be run on `service_id`: on Linux, for a valid
    /// id on the allowlist that is not one of Deckox's own services.
    pub fn check_control(&self, service_id: &str, on_linux: bool) -> (r: Result<(), AgentError>)
        ensures
            r is Ok <==> on_linux && valid_service_id(service_id@) && !is_protected_service(service_id@)
                && self@.contains(service_id@),
    {
        ensure_linux(on_linux)?;
        validate_service_id(service_id)?;
        self.ensure_allowed(service_id)
    }
}

/// `cmd-{milliseconds}-{sequence}`.
pub fn command_id(timestamp_ms: u64, sequence: u64) -> (r: String)
    ensures
        r@ == "cmd-"@ + decimal(timestamp_ms as nat) + "-"@ + decimal(sequence as nat),
{
    let mut id = owned("cmd-");
    push_decimal(&mut id, timestamp_ms);
    push_str(&mut id, "-");
    push_decimal(&mut id, sequence);
    id
}

/// The answer once `systemctl {action} {id}` succeeded.
pub fn control_result(service_id: &str, action: ServiceAction, command_id: String) -> (r: CommandResult)
    ensures
        r.command_id@ == command_id@,
        r.status == CommandStatus::Completed,
        crate::protocol::opt_view(r.message) == Some(action_name_of(action) + " completed for "@ + service_id@),
{
    let mut m = owned(action_name(action));
    push_str(&mut m, " completed for ");
    push_str(&mut m, service_id);
    CommandResult { command_id, status: CommandStatus::Completed, message: Some(m) }
}

/// The error of a failed command: what it printed on stderr, trimmed, or
/// `{program} command failed` when it printed nothing.
pub fn command_failure(program: &str, stderr: &str) -> (r: AgentError)
    ensures
        r.kind == ErrorKind::Internal,
        r.message@ == if trim(stderr@).len() == 0 {
            program@ + " command failed"@
        } else {
            trim(stderr@)
        },
{
    let v = crate::text::chars_of(stderr);
    let (s, e) = crate::text::trim_span(&v, 0, v.len());
    assert(v@.subrange(0, v@.len() as int) =~= stderr@);
    if s == e {
        let mut m = owned(program);
        push_str(&mut m, " command failed");
        AgentError::internal(m.as_str())
    } else {
        let m = crate::text::string_of(&v, s, e);
        AgentError::internal(m.as_str())
    }
}

// ---------------------------------------------------------------------------
// Logs
// ---------------------------------------------------------------------------

/// The `journalctl` arguments for the last `lines` entries of a service at
/// `priority` or above.
pub fn journal_arguments(service_id: &str, lines: u16, priority: ServiceLogPriority) -> (r: Vec<String>)
    ensures
        texts(r@) == seq![
            "--unit"@,
            service_id@,
            "--no-pager"@,
            "--output=json"@,
            "--output-fields=__REALTIME_TIMESTAMP,PRIORITY,MESSAGE,SYSLOG_IDENTIFIER,_COMM,_PID"@,
            "--lines"@,
            decimal(lines as nat),
        ] + match journal_priority_name(priority) {
            Some(p) => seq!["--priority"@, p],
            None => Seq::<Seq<char>>::empty(),
        },
{
    let mut count = String::new();
    push_decimal(&mut count, lines as u64);
    let mut args = vec![
        owned("--unit"),
        owned(service_id),
        owned("--no-pager"),
        owned("--output=json"),
        owned("--output-fields=__REALTIME_TIMESTAMP,PRIORITY,MESSAGE,SYSLOG_IDENTIFIER,_COMM,_PID"),
        owned("--lines"),
        count,
    ];
    let ghost head = texts(args@);
    match journal_priority(priority) {
        Some(p) => {
            args.push(owned("--priority"));
            args.push(owned(p));
            assert(texts(args@) =~= head + seq!["--priority"@, p@]);
        },
        None => {
            assert(texts(args@) =~= head + Seq::<Seq<char>>::empty());
        },
    }
    args
}

/// The fields of one JSON journal line that hold strings: each key with
/// its string value, `None` for values of another kind; `None` overall
/// when the line is not JSON. A value other than an object has no fields.
pub uninterp spec fn json_string_fields(line: Seq<char>) -> Option<Seq<(Seq<char>, Option<Seq<char>>)>>;

/// `serde_json::from_str::<serde_json::Value>` of one line, read as the
/// string fields of an object. The outcome depends on the line alone.
#[verifier::external_body]
fn json_fields(line: &str) -> (r: Option<Vec<(String, Option<String>)>>)
    ensures
        match json_string_fields(line@) {
            None => r is None,
            Some(f) => r matches Some(v) && field_texts(v@) == f,
        },
{
    serde_json::from_str::<serde_json::Value>(line).ok().map(|value| match value {
        serde_json::Value::Object(map) => map.into_iter().map(|(key, v)| (key, match v {
            serde_json::Value::String(s) => Some(s),
            _ => None,
        })).collect(),
        _ => Vec::new(),
    })
}

pub open spec fn field_texts(f: Seq<(String, Option<String>)>) -> Seq<(Seq<char>, Option<Seq<char>>)> {
    f.map_values(|p: (String, Option<String>)| (p.0@, opt_text(p.1)))
}

/// The string value of `key`, the first one recorded.
pub open spec fn string_field(fields: Seq<(Seq<char>, Option<Seq<char>>)>, key: Seq<char>) -> Option<Seq<char>>
    decreases fields.len(),
{
    if fields.len() == 0 {
        None
    } else if fields[0].0 == key {
        fields[0].1
    } else {
        string_field(fields.drop_first(), key)
    }
}

fn find_string_field(fields: &Vec<(String, Option<String>)>, key: &str) -> (r: Option<String>)
    ensures
        opt_text(r) == string_field(field_texts(fields@), key@),
{
    let ghost f = field_texts(fields@);
    let mut i: usize = 0;
    assert(f.skip(0) =~= f);
    while i < fields.len()
        invariant
            i <= fields@.len(),
            f == field_texts(fields@),
            string_field(f, key@) == string_field(f.skip(i as int), key@),
        decreases fields@.len() - i,
    {
        assert(f.skip(i as int).drop_first() =~= f.skip(i + 1));
        assert(f.skip(i as int)[0] == f[i as int]);
        if crate::agent::events::text_eq(fields[i].0.as_str(), key) {
            return crate::protocol::copy_opt(&fields[i].1);
        }
        i = i + 1;
    }
    assert(f.skip(i as int) =~= Seq::<(Seq<char>, Option<Seq<char>>)>::empty());
    None
}

/// A journal entry as plain values.
pub type EntryView = (u64, u8, Seq<char>, Option<Seq<char>>, Option<u32>);

pub open spec fn entry_view(e: ServiceLogEntry) -> EntryView {
    (e.timestamp_ms, e.priority, e.message@, opt_text(e.process), e.pid)
}

pub open spec fn parsed(s: Option<Seq<char>>, max: nat) -> Option<nat> {
    match s {
        Some(t) => parse_unsigned(t, max),
        None => None,
    }
}

/// The entry of one journal line: its time in milliseconds (0 when
/// missing), its priority (6 when missing or above 7), its message (cut to
/// size; a placeholder for binary ones), its process and its PID.
pub open spec fn entry_of(fields: Seq<(Seq<char>, Option<Seq<char>>)>) -> EntryView {
    (
        match parsed(string_field(fields, "__REALTIME_TIMESTAMP"@), 0xffff_ffff_ffff_ffff) {
            Some(t) => (t / 1000) as u64,
            None => 0,
        },
        match parsed(string_field(fields, "PRIORITY"@), 255) {
            Some(p) => if p <= 7 {
                p as u8
            } else {
                6
            },
            None => 6,
        },
        match string_field(fields, "MESSAGE"@) {
            Some(m) => truncated_message(m),
            None => "[binary journal message]"@,
        },
        match string_field(fields, "SYSLOG_IDENTIFIER"@) {
            Some(p) => Some(p),
            None => string_field(fields, "_COMM"@),
        },
        match parsed(string_field(fields, "_PID"@), 0xffff_ffff) {
            Some(p) => Some(p as u32),
            None => None,
        },
    )
}

fn parse_field(fields: &Vec<(String, Option<String>)>, key: &str, max: u64) -> (r: Option<u64>)
    ensures
        match parsed(string_field(field_texts(fields@), key@), max as nat) {
            Some(n) => r == Some(n as u64),
            None => r is None,
        },
{
    match find_string_field(fields, key) {
        Some(s) => {
            let c = crate::text::chars_of(s.as_str());
            assert(c@.subrange(0, c@.len() as int) =~= s@);
            crate::text::parse_unsigned_span(&c, 0, c.len(), max)
        },
        None => None,
    }
}

/// Reads one JSON journal line; `None` when it is not JSON.
pub fn parse_journal_entry(line: &str) -> (r: Option<ServiceLogEntry>)
    ensures
        match json_string_fields(line@) {
            None => r is None,
            Some(f) => r matches Some(e) && entry_view(e) == entry_of(f),
        },
{
    let fields = match json_fields(line) {
        Some(f) => f,
        None => return None,
    };
    let timestamp_ms = match parse_field(&fields, "__REALTIME_TIMESTAMP", 0xffff_ffff_ffff_ffff) {
        Some(t) => t / 1000,
        None => 0,
    };
    let priority: u8 = match parse_field(&fields, "PRIORITY", 255) {
        Some(p) => if p <= 7 {
            p as u8
        } else {
            6
        },
        None => 6,
    };
    let message = match find_string_field(&fields, "MESSAGE") {
        Some(m) => truncate_message(m.as_str()),
        None => owned("[binary journal message]"),
    };
    let process = match find_string_field(&fields, "SYSLOG_IDENTIFIER") {
        Some(p) => Some(p),
        None => find_string_field(&fields, "_COMM"),
    };
    let pid = match parse_field(&fields, "_PID", 0xffff_ffff) {
        Some(p) => Some(p as u32),
        None => None,
    };
    Some(ServiceLogEntry { timestamp_ms, priority, message, process, pid })
}

/// The entries of the journal lines, in order, skipping lines that are not
/// JSON and stopping before the entry whose message would take the total
/// over `MAX_LOG_RESPONSE_BYTES`.
pub open spec fn entries_of(ls: Seq<Seq<char>>, used: nat) -> Seq<EntryView>
    decreases ls.len(),
{
    if ls.len() == 0 {
        seq![]
    } else {
        match json_string_fields(ls[0]) {
            None => entries_of(ls.drop_first(), used),
            Some(f) => {
                let e = entry_of(f);
                let total = used + utf8_len(e.2);
                if total > MAX_LOG_RESPONSE_BYTES {
                    seq![]
                } else {
                    seq![e] + entries_of(ls.drop_first(), total)
                }
            },
        }
    }
}

pub open spec fn entry_views(es: Seq<ServiceLogEntry>) -> Seq<EntryView> {
    es.map_values(|e: ServiceLogEntry| entry_view(e))
}

pub fn parse_journal_entries(input: &str) -> (r: Vec<ServiceLogEntry>)
    ensures
        entry_views(r@) == entries_of(lines(input@), 0),
{
    let v = crate::text::chars_of(input);
    let spans = split_lines(&v);
    let ghost ls = lines(v@);
    let mut out: Vec<ServiceLogEntry> = Vec::new();
    let mut used: u64 = 0;
    let mut k: usize = 0;
    let mut stopped = false;
    assert(ls.skip(0) =~= ls);
    assert(entry_views(out@) + entries_of(ls.skip(0), 0) =~= entries_of(ls, 0));
    while k < spans.len() && !stopped
        invariant
            k <= spans@.len() == ls.len(),
            ls == lines(v@),
            v@ == input@,
            crate::text::spans_are(v@, spans@, ls),
            used <= MAX_LOG_RESPONSE_BYTES,
            !stopped ==> entry_views(out@) + entries_of(ls.skip(k as int), used as nat) == entries_of(ls, 0),
            stopped ==> entry_views(out@) == entries_of(ls, 0),
        decreases spans@.len() - k,
    {
        let (a, b) = spans[k];
        let line = crate::text::string_of(&v, a, b);
        assert(line@ == ls[k as int]);
        assert(ls.skip(k as int).drop_first() =~= ls.skip(k + 1));
        assert(ls.skip(k as int)[0] == ls[k as int]);
        match parse_journal_entry(line.as_str()) {
            None => {},
            Some(entry) => {
                let size = message_bytes(entry.message.as_str());
                if size > MAX_LOG_RESPONSE_BYTES - used {
                    stopped = true;
                    assert(entries_of(ls.skip(k as int), used as nat) =~= Seq::<EntryView>::empty());
                    assert(entry_views(out@) =~= entry_views(out@) + Seq::<EntryView>::empty());
                } else {
                    let ghost before = entry_views(out@);
                    let ghost e = entry_view(entry);
                    used = used + size;
                    out.push(entry);
                    assert(entry_views(out@) =~= before.push(e));
                    assert(before + entries_of(ls.skip(k as int), (used - size) as nat) =~= before.push(e)
                        + entries_of(ls.skip(k + 1), used as nat));
                }
            },
        }
        k = k + 1;
    }
    if !stopped {
        assert(ls.skip(k as int) =~= Seq::<Seq<char>>::empty());
        assert(entry_views(out@) + Seq::<EntryView>::empty() =~= entry_views(out@));
    }
    out
}

/// The UTF-8 length of a message, saturating above the response budget.
fn message_bytes(message: &str) -> (r: u64)
    ensures
        r == if utf8_len(message@) <= MAX_LOG_RESPONSE_BYTES {
            utf8_len(message@) as int
        } else {
            MAX_LOG_RESPONSE_BYTES + 1
        },
{
    crate::agent::services::utf8_len_capped(message, MAX_LOG_RESPONSE_BYTES)
}

} // verus!
