//! `deckox-server doctor`: a one-shot health check for an SSH console. Every
//! check is one `[ OK ]`, `[WARN]` or `[FAIL]` line; the command fails only
//! when something is actually broken.

use vstd::prelude::*;
use vstd::string::StrSliceExecFns;

use crate::text::{chars_of, decimal, join, lines, owned, push_decimal, push_str, split_lines, string_of, trim, trim_span};
use crate::toml_doc::{EntryView, ItemView, TomlEntry, TomlItem, doc_view, opt_texts, entry_of, find_entry, get_item, lookup_item, parse_toml, toml_document};

verus! {

#[derive(Debug, Clone, Copy, PartialEq, Eq, Structural)]
pub enum Level {
    Okay,
    Warn,
    Fail,
}

#[derive(Debug, Clone)]
pub struct Check {
    pub level: Level,
    pub name: &'static str,
    pub detail: String,
}

impl Check {
    pub fn new(level: Level, name: &'static str, detail: String) -> (r: Check)
        ensures
            r.level == level,
            r.name == name,
            r.detail@ == detail@,
    {
        Check { level, name, detail }
    }

    /// `[ OK ]`, `[WARN]` or `[FAIL]`, the name padded to 13 characters,
    /// and the detail.
    pub fn render(&self) -> (r: String)
        ensures
            r@ == tag(self.level) + " "@ + padded(self.name@, 13) + " "@ + self.detail@,
    {
        let mut line = match self.level {
            Level::Okay => owned("[ OK ]"),
            Level::Warn => owned("[WARN]"),
            Level::Fail => owned("[FAIL]"),
        };
        push_str(&mut line, " ");
        let ghost before = line@;
        push_str(&mut line, self.name);
        let n = self.name.unicode_len();
        let mut k = n;
        while k < 13
            invariant
                n == self.name@.len(),
                n <= k <= 13 || (k == n && n > 13),
                line@ == before + self.name@ + Seq::new((k - n) as nat, |i: int| ' '),
            decreases 13 - k,
        {
            let ghost prev = line@;
            crate::text::push_char(&mut line, ' ');
            assert(line@ =~= before + self.name@ + Seq::new((k + 1 - n) as nat, |i: int| ' '));
            k = k + 1;
        }
        assert(line@ =~= before + padded(self.name@, 13));
        push_str(&mut line, " ");
        push_str(&mut line, self.detail.as_str());
        line
    }
}

pub open spec fn tag(level: Level) -> Seq<char> {
    match level {
        Level::Okay => "[ OK ]"@,
        Level::Warn => "[WARN]"@,
        Level::Fail => "[FAIL]"@,
    }
}

/// `s` padded with spaces to `width` characters (`{:<width}`).
pub open spec fn padded(s: Seq<char>, width: nat) -> Seq<char> {
    if s.len() >= width {
        s
    } else {
        s + Seq::new((width - s.len()) as nat, |i: int| ' ')
    }
}

/// The installed version marker: its first line, trimmed, without leading
/// `v`s; `None` without a marker or a line.
pub open spec fn marker_version(marker: Option<Seq<char>>) -> Option<Seq<char>> {
    match marker {
        Some(text) => if lines(text).len() > 0 {
            Some(strip_v(trim(lines(text)[0])))
        } else {
            None
        },
        None => None,
    }
}

/// `s` without leading `'v'`s.
pub open spec fn strip_v(s: Seq<char>) -> Seq<char>
    decreases s.len(),
{
    if s.len() > 0 && s[0] == 'v' {
        strip_v(s.drop_first())
    } else {
        s
    }
}

/// Compares the running binary with the installed version marker: a
/// mismatch means an update stopped half-way or the service was not
/// restarted after one.
pub fn check_version(binary: &str, marker: Option<&str>) -> (r: Check)
    ensures
        r.name@ == "version"@,
        match marker_version(match marker {
            Some(m) => Some(m@),
            None => None,
        }) {
            None => r.level == Level::Warn && r.detail@ == binary@ + " (no version marker found)"@,
            Some(v) => if v == binary@ {
                r.level == Level::Okay && r.detail@ == binary@
            } else {
                r.level == Level::Warn && r.detail@ == "binary "@ + binary@ + " differs from installed marker "@ + v
                    + "; restart the services"@
            },
        },
{
    let text = match marker {
        Some(t) => t,
        None => {
            let mut detail = owned(binary);
            push_str(&mut detail, " (no version marker found)");
            return Check::new(Level::Warn, "version", detail);
        },
    };
    let v = chars_of(text);
    let spans = split_lines(&v);
    if spans.len() == 0 {
        let mut detail = owned(binary);
        push_str(&mut detail, " (no version marker found)");
        return Check::new(Level::Warn, "version", detail);
    }
    let (a, b) = spans[0];
    let (s, e) = trim_span(&v, a, b);
    let mut start = s;
    while start < e && v[start] == 'v'
        invariant
            s <= start <= e <= v@.len(),
            strip_v(v@.subrange(s as int, e as int)) == strip_v(v@.subrange(start as int, e as int)),
        decreases e - start,
    {
        assert(v@.subrange(start as int, e as int).drop_first() =~= v@.subrange(start + 1, e as int));
        start = start + 1;
    }
    let marker_text = string_of(&v, start, e);
    if crate::agent::events::text_eq(marker_text.as_str(), binary) {
        Check::new(Level::Okay, "version", owned(binary))
    } else {
        let mut detail = owned("binary ");
        push_str(&mut detail, binary);
        push_str(&mut detail, " differs from installed marker ");
        push_str(&mut detail, marker_text.as_str());
        push_str(&mut detail, "; restart the services");
        Check::new(Level::Warn, "version", detail)
    }
}

// ---------------------------------------------------------------------------
// agent.toml
// ---------------------------------------------------------------------------

/// Why agent.toml could not be read.
pub enum ReadFailure {
    PermissionDenied,
    Other(String),
}

/// The length of the list `doc[table][key]`, 0 when it is not a list.
pub open spec fn list_count(doc: Seq<EntryView>, table: Seq<char>, key: Seq<char>) -> nat {
    match lookup_item(doc, table, key) {
        Some(ItemView::List(items)) => items.len(),
        _ => 0,
    }
}

/// The boolean `doc[table][key]`, else `default`.
pub open spec fn flag(doc: Seq<EntryView>, table: Seq<char>, key: Seq<char>, default: bool) -> bool {
    match lookup_item(doc, table, key) {
        Some(ItemView::Bool(b)) => b,
        _ => default,
    }
}

/// The string items of a list, in order.
pub open spec fn names_of(items: Seq<Option<Seq<char>>>) -> Seq<Seq<char>>
    decreases items.len(),
{
    if items.len() == 0 {
        seq![]
    } else {
        match items.last() {
            Some(name) => names_of(items.drop_last()).push(name),
            None => names_of(items.drop_last()),
        }
    }
}

/// The string items of a list, joined with `, `.
pub open spec fn joined_names(items: Seq<Option<Seq<char>>>) -> Seq<char> {
    join(names_of(items), ", "@)
}

/// The modules switched off, or `none`.
pub open spec fn modules_off(doc: Seq<EntryView>) -> Seq<char> {
    match lookup_item(doc, "modules"@, "disabled"@) {
        Some(ItemView::List(items)) => if joined_names(items).len() > 0 {
            joined_names(items)
        } else {
            "none"@
        },
        _ => "none"@,
    }
}

pub open spec fn on_off(b: bool, on: Seq<char>) -> Seq<char> {
    if b {
        on
    } else {
        "off"@
    }
}

/// The summary of a readable agent.toml.
pub open spec fn config_summary(doc: Seq<EntryView>) -> Seq<char> {
    "reboot "@ + on_off(flag(doc, "system"@, "allow_reboot"@, false), "allowed"@) + ", update "@ + on_off(
        flag(doc, "system"@, "allow_update"@, false),
        "allowed"@,
    ) + ", "@ + decimal(list_count(doc, "services"@, "allowed"@)) + " allowed service(s), "@ + decimal(
        list_count(doc, "software"@, "allowed"@),
    ) + " managed package(s), auto_adopt "@ + on_off(flag(doc, "software"@, "auto_adopt"@, true), "on"@)
        + ", modules off: "@ + modules_off(doc)
}

/// The warning for a missing table.
pub open spec fn missing_table(table: Seq<char>) -> Seq<char> {
    "["@ + table + "] is missing, defaults apply (compare with the backups: ls /etc/deckox)"@
}

/// A check as plain values.
pub open spec fn check_view(c: Check) -> (Level, Seq<char>, Seq<char>) {
    (c.level, c.name@, c.detail@)
}

/// The checks of agent.toml: what it allows, then a warning per missing
/// table; one failure when it cannot be read or parsed, one warning when
/// reading it is not permitted.
pub open spec fn config_checks(path: Seq<char>, read: Result<Seq<char>, Option<Seq<char>>>) -> Seq<(Level, Seq<char>, Seq<char>)> {
    match read {
        Err(None) => seq![(Level::Warn, "agent.toml"@, "cannot read "@ + path + " (run as root or as a member of the deckox group)"@)],
        Err(Some(error)) => seq![(Level::Fail, "agent.toml"@, "cannot read "@ + path + ": "@ + error)],
        Ok(text) => match toml_document(text) {
            Err(error) => seq![(Level::Fail, "agent.toml"@, path + " is not valid TOML and the Agent will not start: "@ + error)],
            Ok(doc) => document_checks_of(doc),
        },
    }
}

/// The checks of a parsed agent.toml: what it allows, then a warning per
/// missing table.
pub open spec fn document_checks_of(doc: Seq<EntryView>) -> Seq<(Level, Seq<char>, Seq<char>)> {
    let first = seq![(Level::Okay, "agent.toml"@, config_summary(doc))];
    let w1 = if entry_of(doc, "system"@) is None { seq![(Level::Warn, "agent.toml"@, missing_table("system"@))] } else { seq![] };
    let w2 = if entry_of(doc, "software"@) is None { seq![(Level::Warn, "agent.toml"@, missing_table("software"@))] } else { seq![] };
    let w3 = if entry_of(doc, "services"@) is None { seq![(Level::Warn, "agent.toml"@, missing_table("services"@))] } else { seq![] };
    first + w1 + w2 + w3
}

/// How reading agent.toml came out, as plain values: the text, or why it
/// could not be read (`None` when it was not permitted).
pub open spec fn read_view(read: &Result<String, ReadFailure>) -> Result<Seq<char>, Option<Seq<char>>> {
    match read {
        Ok(text) => Ok(text@),
        Err(ReadFailure::PermissionDenied) => Err(None),
        Err(ReadFailure::Other(error)) => Err(Some(error@)),
    }
}

pub open spec fn checks_view(checks: Seq<Check>) -> Seq<(Level, Seq<char>, Seq<char>)> {
    checks.map_values(|c: Check| check_view(c))
}

/// The number of items of the list `doc[table][key]`.
fn count_of(doc: &Vec<TomlEntry>, table: &str, key: &str) -> (r: usize)
    ensures
        r == list_count(doc_view(doc@), table@, key@),
{
    match get_item(doc, table, key) {
        Some(TomlItem::List(items)) => items.len(),
        _ => 0,
    }
}

/// The boolean `doc[table][key]`, else `default`.
fn flag_of(doc: &Vec<TomlEntry>, table: &str, key: &str, default: bool) -> (r: bool)
    ensures
        r == flag(doc_view(doc@), table@, key@, default),
{
    match get_item(doc, table, key) {
        Some(TomlItem::Bool(b)) => *b,
        _ => default,
    }
}

proof fn lemma_names_step(items: Seq<Option<Seq<char>>>, k: int)
    requires
        0 <= k < items.len(),
    ensures
        names_of(items.take(k + 1)) == match items[k] {
            Some(name) => names_of(items.take(k)).push(name),
            None => names_of(items.take(k)),
        },
{
    assert(items.take(k + 1).drop_last() =~= items.take(k));
}

/// The string items of `items` joined with `, `.
fn join_names(items: &Vec<Option<String>>) -> (r: String)
    ensures
        r@ == joined_names(opt_texts(items@)),
{
    let ghost all = opt_texts(items@);
    let mut out = String::new();
    let mut k: usize = 0;
    let mut any = false;
    while k < items.len()
        invariant
            k <= items@.len(),
            all == opt_texts(items@),
            any == (names_of(all.take(k as int)).len() > 0),
            out@ == join(names_of(all.take(k as int)), ", "@),
        decreases items@.len() - k,
    {
        proof {
            lemma_names_step(all, k as int);
        }
        match &items[k] {
            Some(name) => {
                let ghost prev = names_of(all.take(k as int));
                assert(all[k as int] == Some(name@));
                if any {
                    push_str(&mut out, ", ");
                }
                push_str(&mut out, name.as_str());
                any = true;
                assert(prev.push(name@).drop_last() =~= prev);
                proof {
                    if prev.len() == 0 {
                        assert(out@ =~= join(prev.push(name@), ", "@));
                    }
                }
            },
            None => {
                assert(all[k as int] is None);
            },
        }
        k = k + 1;
    }
    assert(all.take(items@.len() as int) =~= all);
    out
}

/// The modules switched off, or `none`.
fn modules_off_text(doc: &Vec<TomlEntry>) -> (r: String)
    ensures
        r@ == modules_off(doc_view(doc@)),
{
    match get_item(doc, "modules", "disabled") {
        Some(TomlItem::List(items)) => {
            let joined = join_names(items);
            if joined.as_str().unicode_len() > 0 {
                joined
            } else {
                owned("none")
            }
        },
        _ => owned("none"),
    }
}

fn push_on_off(out: &mut String, b: bool, on: &str)
    ensures
        final(out)@ == old(out)@ + on_off(b, on@),
{
    if b {
        push_str(out, on);
    } else {
        push_str(out, "off");
    }
}

/// The summary line of a readable agent.toml.
fn summary(doc: &Vec<TomlEntry>) -> (r: String)
    ensures
        r@ == config_summary(doc_view(doc@)),
{
    let mut out = owned("reboot ");
    push_on_off(&mut out, flag_of(doc, "system", "allow_reboot", false), "allowed");
    push_str(&mut out, ", update ");
    push_on_off(&mut out, flag_of(doc, "system", "allow_update", false), "allowed");
    push_str(&mut out, ", ");
    push_decimal(&mut out, count_of(doc, "services", "allowed") as u64);
    push_str(&mut out, " allowed service(s), ");
    push_decimal(&mut out, count_of(doc, "software", "allowed") as u64);
    push_str(&mut out, " managed package(s), auto_adopt ");
    push_on_off(&mut out, flag_of(doc, "software", "auto_adopt", true), "on");
    push_str(&mut out, ", modules off: ");
    let off = modules_off_text(doc);
    push_str(&mut out, off.as_str());
    out
}

/// Adds the warning for `table` when the document has no such key.
fn warn_missing(checks: &mut Vec<Check>, doc: &Vec<TomlEntry>, table: &'static str)
    ensures
        checks_view(final(checks)@) == checks_view(old(checks)@) + if entry_of(doc_view(doc@), table@) is None {
            seq![(Level::Warn, "agent.toml"@, missing_table(table@))]
        } else {
            seq![]
        },
{
    let ghost before = checks@;
    if find_entry(doc, table).is_none() {
        let mut detail = owned("[");
        push_str(&mut detail, table);
        push_str(&mut detail, "] is missing, defaults apply (compare with the backups: ls /etc/deckox)");
        checks.push(Check::new(Level::Warn, "agent.toml", detail));
        assert(checks_view(checks@) =~= checks_view(before) + seq![(Level::Warn, "agent.toml"@, missing_table(table@))]);
    } else {
        assert(checks_view(checks@) =~= checks_view(before) + seq![]);
    }
}

/// Reads what agent.toml allows: a summary, then a warning per missing
/// table; one failure when it cannot be read or parsed, one warning when
/// reading it is not permitted. `read` is how reading `path` came out.
pub fn check_agent_config(path: &str, read: Result<String, ReadFailure>) -> (r: Vec<Check>)
    ensures
        checks_view(r@) == config_checks(path@, read_view(&read)),
{
    let ghost rv = read_view(&read);
    let text = match read {
        Ok(text) => text,
        Err(ReadFailure::PermissionDenied) => {
            let mut detail = owned("cannot read ");
            push_str(&mut detail, path);
            push_str(&mut detail, " (run as root or as a member of the deckox group)");
            let r = vec![Check::new(Level::Warn, "agent.toml", detail)];
            assert(checks_view(r@) =~= config_checks(path@, rv));
            return r;
        },
        Err(ReadFailure::Other(error)) => {
            let mut detail = owned("cannot read ");
            push_str(&mut detail, path);
            push_str(&mut detail, ": ");
            push_str(&mut detail, error.as_str());
            let r = vec![Check::new(Level::Fail, "agent.toml", detail)];
            assert(checks_view(r@) =~= config_checks(path@, rv));
            return r;
        },
    };
    match parse_toml(text.as_str()) {
        Err(error) => {
            let mut detail = owned(path);
            push_str(&mut detail, " is not valid TOML and the Agent will not start: ");
            push_str(&mut detail, error.as_str());
            let r = vec![Check::new(Level::Fail, "agent.toml", detail)];
            assert(checks_view(r@) =~= config_checks(path@, rv));
            r
        },
        Ok(doc) => document_checks(&doc),
    }
}

/// The checks of an agent.toml that parsed as `doc`.
pub fn document_checks(doc: &Vec<TomlEntry>) -> (r: Vec<Check>)
    ensures
        checks_view(r@) == document_checks_of(doc_view(doc@)),
{
    let mut checks = vec![Check::new(Level::Okay, "agent.toml", summary(doc))];
    warn_missing(&mut checks, doc, "system");
    warn_missing(&mut checks, doc, "software");
    warn_missing(&mut checks, doc, "services");
    checks
}

// ---------------------------------------------------------------------------
// The other checks and the verdict
// ---------------------------------------------------------------------------

/// The check of a systemd unit from what `systemctl is-active` printed
/// (`None` when systemctl could not be run).
pub fn unit_check(unit: &str, printed: Option<&str>) -> (r: Check)
    ensures
        r.name@ == (if crate::text::contains(unit@, "agent"@) { "agent unit"@ } else { "server unit"@ }),
        match printed {
            None => r.level == Level::Warn && r.detail@ == "systemctl is not available here"@,
            Some(out) => if trim(out@) == "active"@ {
                r.level == Level::Okay && r.detail@ == unit@ + " is active"@
            } else {
                r.level == Level::Fail && r.detail@ == unit@ + " is "@ + trim(out@) + "; see: journalctl -u "@ + unit@
                    + " -n 50"@
            },
        },
{
    let name: &'static str = if crate::text::contains_str(unit, "agent") {
        "agent unit"
    } else {
        "server unit"
    };
    match printed {
        None => Check::new(Level::Warn, name, owned("systemctl is not available here")),
        Some(out) => {
            let v = chars_of(out);
            let (s, e) = trim_span(&v, 0, v.len());
            assert(v@.subrange(0, v@.len() as int) =~= v@);
            let state = string_of(&v, s, e);
            if crate::agent::events::text_eq(state.as_str(), "active") {
                let mut detail = owned(unit);
                push_str(&mut detail, " is active");
                Check::new(Level::Okay, name, detail)
            } else {
                let mut detail = owned(unit);
                push_str(&mut detail, " is ");
                push_str(&mut detail, state.as_str());
                push_str(&mut detail, "; see: journalctl -u ");
                push_str(&mut detail, unit);
                push_str(&mut detail, " -n 50");
                Check::new(Level::Fail, name, detail)
            }
        },
    }
}

/// The check of the Agent from its answer to `GET /v1/status`: its host
/// name, operating system and architecture, or why it could not be asked.
pub fn agent_check(socket: &str, status: Result<(String, String, String), String>) -> (r: Check)
    ensures
        r.name@ == "agent"@,
        match status {
            Ok((host, os, arch)) => r.level == Level::Okay && r.detail@ == host@ + " ("@ + os@ + " "@ + arch@ + ")"@,
            Err(e) => r.level == Level::Fail && r.detail@ == "cannot reach the Agent at "@ + socket@ + ": "@ + e@,
        },
{
    match status {
        Ok((host, os, arch)) => {
            let mut detail = host;
            push_str(&mut detail, " (");
            push_str(&mut detail, os.as_str());
            push_str(&mut detail, " ");
            push_str(&mut detail, arch.as_str());
            push_str(&mut detail, ")");
            Check::new(Level::Okay, "agent", detail)
        },
        Err(e) => {
            let mut detail = owned("cannot reach the Agent at ");
            push_str(&mut detail, socket);
            push_str(&mut detail, ": ");
            push_str(&mut detail, e.as_str());
            Check::new(Level::Fail, "agent", detail)
        },
    }
}

/// The check of the Web files: `index.html` must be in `dir`.
pub fn web_check(dir: &str, has_index: bool) -> (r: Check)
    ensures
        r.name@ == "web files"@,
        has_index ==> r.level == Level::Okay && r.detail@ == dir@,
        !has_index ==> r.level == Level::Fail && r.detail@ == dir@ + "/index.html is missing"@,
{
    if has_index {
        Check::new(Level::Okay, "web files", owned(dir))
    } else {
        let mut detail = owned(dir);
        push_str(&mut detail, "/index.html is missing");
        Check::new(Level::Fail, "web files", detail)
    }
}

/// How reading the admin account went: the hash comes from the
/// environment, or the account was read (with the number of recovery codes
/// left when two-factor is on), or the error.
pub enum AccountState {
    FromEnvironment,
    Found(Option<usize>),
    Unreadable(String),
}

pub fn account_check(state: AccountState) -> (r: Check)
    ensures
        r.name@ == "account"@,
        match state {
            AccountState::FromEnvironment => r.level == Level::Okay && r.detail@
                == "password comes from DECKOX_ADMIN_PASSWORD_HASH (two-factor is not used)"@,
            AccountState::Found(None) => r.level == Level::Okay && r.detail@ == "admin account found, two-factor disabled"@,
            AccountState::Found(Some(n)) => r.level == Level::Okay && r.detail@ == "admin account found, two-factor enabled ("@
                + decimal(n as nat) + " recovery code(s) left)"@,
            AccountState::Unreadable(e) => r.level == Level::Fail && r.detail@ == e@,
        },
{
    match state {
        AccountState::FromEnvironment => Check::new(
            Level::Okay,
            "account",
            owned("password comes from DECKOX_ADMIN_PASSWORD_HASH (two-factor is not used)"),
        ),
        AccountState::Found(None) => Check::new(Level::Okay, "account", owned("admin account found, two-factor disabled")),
        AccountState::Found(Some(n)) => {
            let mut detail = owned("admin account found, two-factor enabled (");
            push_decimal(&mut detail, n as u64);
            push_str(&mut detail, " recovery code(s) left)");
            Check::new(Level::Okay, "account", detail)
        },
        AccountState::Unreadable(e) => Check::new(Level::Fail, "account", e),
    }
}

/// The number of checks at `level`.
pub open spec fn level_count(checks: Seq<Check>, level: Level) -> nat
    decreases checks.len(),
{
    if checks.len() == 0 {
        0
    } else {
        level_count(checks.drop_last(), level) + if checks.last().level == level { 1nat } else { 0nat }
    }
}

fn count_level(checks: &Vec<Check>, level: Level) -> (r: usize)
    ensures
        r == level_count(checks@, level),
{
    let mut n: usize = 0;
    let mut k: usize = 0;
    while k < checks.len()
        invariant
            k <= checks@.len(),
            n == level_count(checks@.take(k as int), level),
            n <= k,
        decreases checks@.len() - k,
    {
        assert(checks@.take(k + 1).drop_last() =~= checks@.take(k as int));
        if checks[k].level == level {
            n = n + 1;
        }
        k = k + 1;
    }
    assert(checks@.take(checks@.len() as int) =~= checks@);
    n
}

/// The closing line: an error naming the failures when any check failed,
/// else the number of warnings.
pub fn verdict(checks: &Vec<Check>) -> (r: Result<String, String>)
    ensures
        ({
            let failures = level_count(checks@, Level::Fail);
            let warnings = level_count(checks@, Level::Warn);
            if failures > 0 {
                r matches Err(m) && m@ == decimal(failures) + " check(s) failed, "@ + decimal(warnings)
                    + " warning(s). See the [FAIL] lines above."@
            } else {
                r matches Ok(m) && m@ == "No failures ("@ + decimal(warnings) + " warning(s))."@
            }
        }),
{
    let failures = count_level(checks, Level::Fail);
    let warnings = count_level(checks, Level::Warn);
    if failures > 0 {
        let mut m = String::new();
        push_decimal(&mut m, failures as u64);
        push_str(&mut m, " check(s) failed, ");
        push_decimal(&mut m, warnings as u64);
        push_str(&mut m, " warning(s). See the [FAIL] lines above.");
        Err(m)
    } else {
        let mut m = owned("No failures (");
        push_decimal(&mut m, warnings as u64);
        push_str(&mut m, " warning(s)).");
        Ok(m)
    }
}

} // verus!
