//! `deckox-agent config <subcommand>`: edits agent.toml from an SSH console
//! through the same table-aware writers the web admin uses, so the other
//! tables and their comments survive. The running Agent reads the file only
//! at start, so a change needs a restart.

use vstd::prelude::*;

use crate::agent::config::{
    AgentConfig, ConfigView, SoftwareConfig, SystemConfig, bounded_replacement, config_text_of, read_config,
    render_standard_layout, services_replacement, services_section, software_section, standard_layout,
    system_section, write_allowed_services, write_software_settings, write_system_settings,
};
use crate::agent::services::{is_protected, is_protected_service, valid_service_id, validate_service_id};
use crate::agent::software::{valid_package_name, validate_package_name};
use crate::text::{chars_of, contains_text, owned, push_str, string_of, texts};

verus! {

pub const USAGE: &'static str = "Usage: deckox-agent config <command>\n\n  show                             print the settings stored in the file\n  set allow_reboot <true|false>    allow the Web UI to reboot the host\n  set allow_update <true|false>    allow the Web UI to update Deckox\n  set auto_adopt <true|false>      manage software you installed yourself automatically\n  allow-service <id>               allow start/stop/restart of a service (e.g. nginx.service)\n  deny-service <id>                remove a service from the allowlist\n  allow-software <name>            manage a package (e.g. docker-ce)\n  deny-software <name>             stop managing a package and do not adopt it again\n  repair                           rewrite the file in its standard layout, restoring\n                                   missing tables (the old file is kept as agent.toml.bak)\n\nChanges take effect after: sudo systemctl restart deckox-agent";

pub const RESTART: &'static str = "Restart the Agent for this to take effect: sudo systemctl restart deckox-agent";

/// What a command did: its output, the file's new text when it changed the
/// file, and whether the old file is to be kept as a backup first.
pub struct CliOutcome {
    pub output: String,
    pub new_text: Option<String>,
    pub backup: bool,
}

pub type OutcomeView = (Seq<char>, Option<Seq<char>>, bool);

pub open spec fn outcome_view(o: CliOutcome) -> OutcomeView {
    (
        o.output@,
        match o.new_text {
            Some(t) => Some(t@),
            None => None,
        },
        o.backup,
    )
}

/// `true`, `on`, `yes`, `1` and `false`, `off`, `no`, `0`.
pub open spec fn bool_word(value: Seq<char>) -> Option<bool> {
    if value == "true"@ || value == "on"@ || value == "yes"@ || value == "1"@ {
        Some(true)
    } else if value == "false"@ || value == "off"@ || value == "no"@ || value == "0"@ {
        Some(false)
    } else {
        None
    }
}

pub fn parse_bool(value: &str) -> (r: Result<bool, String>)
    ensures
        match bool_word(value@) {
            Some(b) => r == Ok::<bool, String>(b),
            None => r matches Err(m) && m@ == "expected true or false, got: "@ + value@,
        },
{
    let eq = |lit: &str| -> (b: bool)
        ensures
            b == (value@ == lit@),
        { crate::agent::events::text_eq(value, lit) };
    if eq("true") || eq("on") || eq("yes") || eq("1") {
        Ok(true)
    } else if eq("false") || eq("off") || eq("no") || eq("0") {
        Ok(false)
    } else {
        let mut m = owned("expected true or false, got: ");
        push_str(&mut m, value);
        Err(m)
    }
}

/// The items, or `(none)`, as `show` lists them.
pub open spec fn listing(items: Seq<Seq<char>>) -> Seq<char> {
    if items.len() == 0 {
        "(none)"@
    } else {
        crate::text::join(items, ", "@)
    }
}

fn push_listing(out: &mut String, items: &Vec<String>)
    ensures
        final(out)@ == old(out)@ + listing(texts(items@)),
{
    if items.len() == 0 {
        push_str(out, "(none)");
        return;
    }
    let ghost head = out@;
    push_str(out, items[0].as_str());
    assert(texts(items@).take(1) =~= seq![items@[0]@]);
    let mut i: usize = 1;
    while i < items.len()
        invariant
            1 <= i <= items@.len(),
            out@ == head + crate::text::join(texts(items@).take(i as int), ", "@),
        decreases items@.len() - i,
    {
        assert(texts(items@).take(i + 1).drop_last() =~= texts(items@).take(i as int));
        push_str(out, ", ");
        push_str(out, items[i].as_str());
        i = i + 1;
    }
    assert(texts(items@).take(items@.len() as int) =~= texts(items@));
}

pub open spec fn bool_display(b: bool) -> Seq<char> {
    if b {
        "true"@
    } else {
        "false"@
    }
}

fn push_bool_display(out: &mut String, b: bool)
    ensures
        final(out)@ == old(out)@ + bool_display(b),
{
    if b {
        push_str(out, "true");
    } else {
        push_str(out, "false");
    }
}

/// What `show` prints.
pub open spec fn show_text(path: Seq<char>, c: ConfigView) -> Seq<char> {
    path + "\n\nallow_reboot: "@ + bool_display(c.allow_reboot) + "\nallow_update: "@ + bool_display(c.allow_update)
        + "\nauto_adopt: "@ + bool_display(c.auto_adopt) + "\nsoftware allowed: "@ + listing(c.software_allowed)
        + "\nsoftware dismissed: "@ + listing(c.dismissed) + "\nservices allowed: "@ + listing(c.services_allowed)
}

pub fn show(path: &str, config: &AgentConfig) -> (r: String)
    ensures
        r@ == show_text(path@, crate::agent::config::config_view(config)),
{
    let mut out = owned(path);
    push_str(&mut out, "\n\nallow_reboot: ");
    push_bool_display(&mut out, config.system.allow_reboot);
    push_str(&mut out, "\nallow_update: ");
    push_bool_display(&mut out, config.system.allow_update);
    push_str(&mut out, "\nauto_adopt: ");
    push_bool_display(&mut out, config.software.auto_adopt);
    push_str(&mut out, "\nsoftware allowed: ");
    push_listing(&mut out, &config.software.allowed);
    push_str(&mut out, "\nsoftware dismissed: ");
    push_listing(&mut out, &config.software.dismissed);
    push_str(&mut out, "\nservices allowed: ");
    push_listing(&mut out, &config.services.allowed);
    out
}

/// `items` with `x` added at the end when it is not there yet.
pub open spec fn with_item(items: Seq<Seq<char>>, x: Seq<char>) -> Seq<Seq<char>> {
    if items.contains(x) {
        items
    } else {
        items.push(x)
    }
}

/// `items` without any `x`.
pub open spec fn without_item(items: Seq<Seq<char>>, x: Seq<char>) -> Seq<Seq<char>>
    decreases items.len(),
{
    if items.len() == 0 {
        seq![]
    } else if items.last() == x {
        without_item(items.drop_last(), x)
    } else {
        without_item(items.drop_last(), x).push(items.last())
    }
}

/// Allowing a name leaves it listed once it was there or not; denying it
/// leaves it nowhere in the list, and every other name where it was.
pub proof fn lemma_allow_and_deny(items: Seq<Seq<char>>, x: Seq<char>)
    ensures
        with_item(items, x).contains(x),
        !without_item(items, x).contains(x),
        forall|y: Seq<char>| y != x ==> (without_item(items, x).contains(y) <==> items.contains(y)),
        forall|y: Seq<char>| items.contains(y) ==> with_item(items, x).contains(y),
    decreases items.len(),
{
    if !items.contains(x) {
        assert(items.push(x)[items.len() as int] == x);
    }
    assert forall|y: Seq<char>| items.contains(y) implies with_item(items, x).contains(y) by {
        let j = choose|j: int| 0 <= j < items.len() && items[j] == y;
        if !items.contains(x) {
            assert(items.push(x)[j] == y);
        }
    }
    if items.len() > 0 {
        let d = items.drop_last();
        lemma_allow_and_deny(d, x);
        assert forall|y: Seq<char>| y != x implies (without_item(items, x).contains(y) <==> items.contains(y)) by {
            let w = without_item(d, x);
            if items.last() != x {
                assert(without_item(items, x) == w.push(items.last()));
                if w.push(items.last()).contains(y) {
                    let j = choose|j: int| 0 <= j < w.push(items.last()).len() && w.push(items.last())[j] == y;
                    if j < w.len() {
                        assert(w.contains(y));
                        assert(d.contains(y));
                        let k = choose|k: int| 0 <= k < d.len() && d[k] == y;
                        assert(items[k] == y);
                    } else {
                        assert(items[items.len() - 1] == y);
                    }
                }
                if items.contains(y) {
                    let k = choose|k: int| 0 <= k < items.len() && items[k] == y;
                    if k < d.len() {
                        assert(d[k] == y);
                        assert(d.contains(y));
                        assert(w.contains(y));
                        let j = choose|j: int| 0 <= j < w.len() && w[j] == y;
                        assert(w.push(items.last())[j] == y);
                    } else {
                        assert(w.push(items.last())[w.len() as int] == y);
                    }
                }
            } else {
                if items.contains(y) {
                    let k = choose|k: int| 0 <= k < items.len() && items[k] == y;
                    if k < d.len() {
                        assert(d[k] == y);
                        assert(d.contains(y));
                    }
                }
                assert(without_item(items, x) == w);
                if w.contains(y) {
                    assert(d.contains(y));
                    let k = choose|k: int| 0 <= k < d.len() && d[k] == y;
                    assert(items[k] == y);
                }
            }
        }
        assert(!without_item(items, x).contains(x)) by {
            let w = without_item(d, x);
            if items.last() != x {
                if w.push(items.last()).contains(x) {
                    let j = choose|j: int| 0 <= j < w.push(items.last()).len() && w.push(items.last())[j] == x;
                    if j < w.len() {
                        assert(w.contains(x));
                    }
                }
            }
        }
    }
}

fn add_item(items: &mut Vec<String>, x: &str)
    ensures
        texts(final(items)@) == with_item(texts(old(items)@), x@),
{
    let s = owned(x);
    if !contains_text(items, &s) {
        let ghost before = items@;
        items.push(s);
        assert(texts(items@) =~= texts(before).push(x@));
    }
}

fn remove_item(items: &Vec<String>, x: &str) -> (r: Vec<String>)
    ensures
        texts(r@) == without_item(texts(items@), x@),
{
    let mut out: Vec<String> = Vec::new();
    let mut i: usize = 0;
    while i < items.len()
        invariant
            i <= items@.len(),
            texts(out@) == without_item(texts(items@).take(i as int), x@),
        decreases items@.len() - i,
    {
        assert(texts(items@).take(i + 1).drop_last() =~= texts(items@).take(i as int));
        if !crate::agent::events::text_eq(items[i].as_str(), x) {
            let ghost before = out@;
            out.push(items[i].clone());
            assert(texts(out@) =~= texts(before).push(items@[i as int]@));
        }
        i = i + 1;
    }
    assert(texts(items@).take(items@.len() as int) =~= texts(items@));
    out
}

/// Where `repair` keeps the old file: the path with its extension (the
/// part of the file name after its last `.`, unless that `.` starts the
/// name) replaced by `toml.bak`.
pub open spec fn backup_path(path: Seq<char>) -> Seq<char> {
    path.take(stem_end(path)) + ".toml.bak"@
}

/// Where the file name starts: after the last `/`.
pub open spec fn name_start(path: Seq<char>) -> int
    decreases path.len(),
{
    if path.len() == 0 {
        0
    } else if path.last() == '/' {
        path.len() as int
    } else {
        name_start(path.drop_last())
    }
}

/// Where the file name's extension (with its `.`) starts, or the end.
pub open spec fn stem_end(path: Seq<char>) -> int {
    let s = name_start(path);
    if exists|i: int| s < i < path.len() && path[i] == '.' {
        choose|i: int| s < i < path.len() && path[i] == '.' && forall|j: int| i < j < path.len() ==> path[j] != '.'
    } else {
        path.len() as int
    }
}

proof fn lemma_name_start(path: Seq<char>)
    ensures
        0 <= name_start(path) <= path.len(),
        forall|j: int| name_start(path) <= j < path.len() ==> path[j] != '/',
        name_start(path) > 0 ==> path[name_start(path) - 1] == '/',
    decreases path.len(),
{
    if path.len() > 0 && path.last() != '/' {
        lemma_name_start(path.drop_last());
        assert forall|j: int| name_start(path) <= j < path.len() implies path[j] != '/' by {
            if j < path.len() - 1 {
                assert(path.drop_last()[j] == path[j]);
            }
        }
    }
}

fn make_backup_path(path: &str) -> (r: String)
    ensures
        r@ == backup_path(path@),
{
    let v = chars_of(path);
    let n = v.len();
    let mut s = n;
    while s > 0 && v[s - 1] != '/'
        invariant
            s <= n == v@.len(),
            forall|j: int| s <= j < n ==> v@[j] != '/',
        decreases s,
    {
        s = s - 1;
    }
    proof {
        lemma_name_start(v@);
        assert(name_start(v@) == s as int) by {
            let t = name_start(v@);
            if t < s {
                assert(v@[s - 1] == '/');
            } else if t > s {
                assert(v@[t - 1] == '/');
            }
        }
    }
    let mut e = n;
    let mut found = false;
    let mut k = n;
    while s < k && k - s > 1 && !found
        invariant
            s <= k <= n == v@.len(),
            found ==> (s < e < n && v@[e as int] == '.' && forall|j: int| e < j < n ==> v@[j] != '.'),
            !found ==> e == n && forall|j: int| k <= j < n ==> v@[j] != '.',
        decreases k,
    {
        if v[k - 1] == '.' {
            e = k - 1;
            found = true;
        }
        k = k - 1;
    }
    proof {
        if found {
            let c = choose|i: int| s < i < n && v@[i] == '.' && forall|j: int| i < j < n ==> v@[j] != '.';
            assert(c == e) by {
                if c < e {
                    assert(v@[e as int] == '.');
                } else if c > e {
                    assert(v@[c] == '.');
                }
            }
        } else {
            assert(!exists|i: int| s < i < n && v@[i] == '.');
        }
    }
    let mut out = string_of(&v, 0, e);
    assert(v@.subrange(0, e as int) =~= v@.take(e as int));
    push_str(&mut out, ".toml.bak");
    out
}

/// `set <key> <value>`.
pub open spec fn set_outcome(key: Seq<char>, word: Seq<char>, file: Seq<char>) -> Result<OutcomeView, Seq<char>> {
    match bool_word(word) {
        None => Err("expected true or false, got: "@ + word),
        Some(value) => match config_text_of(file) {
            Err(m) => Err(m),
            Ok(c) => {
                let out = key + " = "@ + bool_display(value) + "\n"@ + RESTART@;
                if key == "allow_reboot"@ {
                    Ok((out, Some(bounded_replacement(file, "system"@, system_section(value, c.allow_update))), false))
                } else if key == "allow_update"@ {
                    Ok((out, Some(bounded_replacement(file, "system"@, system_section(c.allow_reboot, value))), false))
                } else if key == "auto_adopt"@ {
                    Ok(
                        (
                            out,
                            Some(bounded_replacement(file, "software"@, software_section(value, c.software_allowed, c.dismissed))),
                            false,
                        ),
                    )
                } else {
                    Err("unknown setting: "@ + key + "\n\n"@ + USAGE@)
                }
            },
        },
    }
}

/// `allow-service <id>`.
pub open spec fn allow_service_outcome(id: Seq<char>, file: Seq<char>) -> Result<OutcomeView, Seq<char>> {
    if !valid_service_id(id) {
        Err("invalid systemd service id"@)
    } else if is_protected_service(id) {
        Err("Deckox's own services cannot be added to the allowlist"@)
    } else {
        match config_text_of(file) {
            Err(m) => Err(m),
            Ok(c) => Ok(
                (
                    id + " added to the service allowlist\n"@ + RESTART@,
                    Some(services_replacement(file, services_section(with_item(c.services_allowed, id)))),
                    false,
                ),
            ),
        }
    }
}

/// `deny-service <id>`.
pub open spec fn deny_service_outcome(id: Seq<char>, file: Seq<char>) -> Result<OutcomeView, Seq<char>> {
    match config_text_of(file) {
        Err(m) => Err(m),
        Ok(c) => Ok(
            (
                id + " removed from the service allowlist\n"@ + RESTART@,
                Some(services_replacement(file, services_section(without_item(c.services_allowed, id)))),
                false,
            ),
        ),
    }
}

/// `allow-software <name>` (`allow`) or `deny-software <name>`: managing a
/// package lifts its dismissal, and the other way round.
pub open spec fn software_outcome(allow: bool, name: Seq<char>, file: Seq<char>) -> Result<OutcomeView, Seq<char>> {
    if !valid_package_name(name) {
        Err("invalid package name"@)
    } else {
        match config_text_of(file) {
            Err(m) => Err(m),
            Ok(c) => {
                let (allowed, dismissed) = if allow {
                    (with_item(c.software_allowed, name), without_item(c.dismissed, name))
                } else {
                    (without_item(c.software_allowed, name), with_item(c.dismissed, name))
                };
                Ok(
                    (
                        name + if allow {
                            " added to software management\n"@
                        } else {
                            " removed from software management\n"@
                        } + RESTART@,
                        Some(bounded_replacement(file, "software"@, software_section(c.auto_adopt, allowed, dismissed))),
                        false,
                    ),
                )
            },
        }
    }
}

/// What a command line does to the file whose text is `file`: its output,
/// the new text when it changes the file, and whether the old file is kept
/// first; or the message it fails with.
pub open spec fn cli_outcome(path: Seq<char>, args: Seq<Seq<char>>, file: Seq<char>) -> Result<OutcomeView, Seq<char>> {
    let restart = RESTART@;
    if args.len() == 0 || (args.len() == 1 && (args[0] == "help"@ || args[0] == "--help"@ || args[0] == "-h"@)) {
        Ok((USAGE@, None, false))
    } else if args.len() == 1 && args[0] == "show"@ {
        match config_text_of(file) {
            Err(m) => Err(m),
            Ok(c) => Ok((show_text(path, c), None, false)),
        }
    } else if args.len() == 3 && args[0] == "set"@ {
        set_outcome(args[1], args[2], file)
    } else if args.len() == 2 && args[0] == "allow-service"@ {
        allow_service_outcome(args[1], file)
    } else if args.len() == 2 && args[0] == "deny-service"@ {
        deny_service_outcome(args[1], file)
    } else if args.len() == 2 && (args[0] == "allow-software"@ || args[0] == "deny-software"@) {
        software_outcome(args[0] == "allow-software"@, args[1], file)
    } else if args.len() == 1 && args[0] == "repair"@ {
        match config_text_of(file) {
            Err(m) => Err(m),
            Ok(c) => Ok(
                (
                    "Rewrote "@ + path + " in its standard layout (previous file: "@ + backup_path(path) + ").\n"@
                        + restart,
                    Some(standard_layout(c)),
                    true,
                ),
            ),
        }
    } else {
        Err("unrecognized command\n\n"@ + USAGE@)
    }
}

/// The command shapes the command line knows.
pub open spec fn known_shape(args: Seq<Seq<char>>) -> bool {
    ||| args.len() == 0
    ||| args.len() == 1 && (args[0] == "help"@ || args[0] == "--help"@ || args[0] == "-h"@ || args[0] == "show"@ || args[0]
        == "repair"@)
    ||| args.len() == 3 && args[0] == "set"@
    ||| args.len() == 2 && (args[0] == "allow-service"@ || args[0] == "deny-service"@ || args[0] == "allow-software"@
        || args[0] == "deny-software"@)
}

/// Help is answered with the usage whatever the file holds, and writes
/// nothing; a refused command (a value that is no boolean word, an unknown
/// setting, an invalid or protected service id, an invalid package name,
/// an unknown command) is an error, so there is no new text to write.
pub proof fn lemma_refusals_write_nothing(path: Seq<char>, args: Seq<Seq<char>>, file: Seq<char>)
    ensures
        (args.len() == 0 || (args.len() == 1 && (args[0] == "help"@ || args[0] == "--help"@ || args[0] == "-h"@)))
            ==> cli_outcome(path, args, file) == Ok::<OutcomeView, Seq<char>>((USAGE@, None, false)),
        args.len() == 3 && args[0] == "set"@ && (bool_word(args[2]) is None || !(args[1] == "allow_reboot"@ || args[1]
            == "allow_update"@ || args[1] == "auto_adopt"@)) ==> cli_outcome(path, args, file) is Err,
        args.len() == 2 && args[0] == "allow-service"@ && (!valid_service_id(args[1]) || is_protected_service(args[1]))
            ==> cli_outcome(path, args, file) is Err,
        args.len() == 2 && (args[0] == "allow-software"@ || args[0] == "deny-software"@) && !valid_package_name(args[1])
            ==> cli_outcome(path, args, file) is Err,
        !known_shape(args) ==> cli_outcome(path, args, file) is Err,
{
    reveal_strlit("allow-service");
    reveal_strlit("deny-service");
    reveal_strlit("allow-software");
    reveal_strlit("deny-software");
    if args.len() == 2 && (args[0] == "allow-software"@ || args[0] == "deny-software"@) && !valid_package_name(args[1]) {
        assert("allow-software"@[7] != "allow-service"@[7]);
        assert("deny-software"@[6] != "deny-service"@[6]);
        assert("allow-software"@[0] != "deny-service"@[0]);
        assert("deny-software"@[0] != "allow-service"@[0]);
        assert(software_outcome(args[0] == "allow-software"@, args[1], file) is Err);
    }
}

fn done(output: String, new_text: String, backup: bool) -> (r: Result<CliOutcome, String>)
    ensures
        r matches Ok(o) && outcome_view(o) == (output@, Some(new_text@), backup),
{
    Ok(CliOutcome { output, new_text: Some(new_text), backup })
}

fn restart_line(first: &str, rest: &str) -> (r: String)
    ensures
        r@ == first@ + rest@ + RESTART@,
{
    let mut out = owned(first);
    push_str(&mut out, rest);
    push_str(&mut out, RESTART);
    out
}

pub open spec fn matches_outcome(r: Result<CliOutcome, String>, v: Result<OutcomeView, Seq<char>>) -> bool {
    match (r, v) {
        (Ok(o), Ok(x)) => outcome_view(o) == x,
        (Err(m), Err(e)) => m@ == e,
        _ => false,
    }
}

fn run_set(key: &str, word: &str, file: &str) -> (r: Result<CliOutcome, String>)
    ensures
        matches_outcome(r, set_outcome(key@, word@, file@)),
{
    let value = parse_bool(word)?;
    let mut c = match read_config(file) {
        Err(e) => return Err(e.message),
        Ok(c) => c,
    };
    let mut out = owned(key);
    push_str(&mut out, " = ");
    push_bool_display(&mut out, value);
    push_str(&mut out, "\n");
    push_str(&mut out, RESTART);
    if crate::agent::events::text_eq(key, "allow_reboot") {
        c.system.allow_reboot = value;
        let t = write_system_settings(file, &c.system);
        done(out, t, false)
    } else if crate::agent::events::text_eq(key, "allow_update") {
        c.system.allow_update = value;
        let t = write_system_settings(file, &c.system);
        done(out, t, false)
    } else if crate::agent::events::text_eq(key, "auto_adopt") {
        c.software.auto_adopt = value;
        let t = write_software_settings(file, &c.software);
        done(out, t, false)
    } else {
        let mut m = owned("unknown setting: ");
        push_str(&mut m, key);
        push_str(&mut m, "\n\n");
        push_str(&mut m, USAGE);
        Err(m)
    }
}

fn run_allow_service(id: &str, file: &str) -> (r: Result<CliOutcome, String>)
    ensures
        matches_outcome(r, allow_service_outcome(id@, file@)),
{
    if let Err(e) = validate_service_id(id) {
        return Err(e.message);
    }
    if is_protected(id) {
        return Err(owned("Deckox's own services cannot be added to the allowlist"));
    }
    let mut c = match read_config(file) {
        Err(e) => return Err(e.message),
        Ok(c) => c,
    };
    add_item(&mut c.services.allowed, id);
    let t = write_allowed_services(file, &c.services.allowed);
    done(restart_line(id, " added to the service allowlist\n"), t, false)
}

fn run_deny_service(id: &str, file: &str) -> (r: Result<CliOutcome, String>)
    ensures
        matches_outcome(r, deny_service_outcome(id@, file@)),
{
    let c = match read_config(file) {
        Err(e) => return Err(e.message),
        Ok(c) => c,
    };
    let allowed = remove_item(&c.services.allowed, id);
    let t = write_allowed_services(file, &allowed);
    done(restart_line(id, " removed from the service allowlist\n"), t, false)
}

fn run_software(allow: bool, name: &str, file: &str) -> (r: Result<CliOutcome, String>)
    ensures
        matches_outcome(r, software_outcome(allow, name@, file@)),
{
    if let Err(e) = validate_package_name(name) {
        return Err(e.message);
    }
    let c = match read_config(file) {
        Err(e) => return Err(e.message),
        Ok(c) => c,
    };
    let auto_adopt = c.software.auto_adopt;
    let mut allowed = c.software.allowed;
    let mut dismissed = c.software.dismissed;
    if allow {
        add_item(&mut allowed, name);
        dismissed = remove_item(&dismissed, name);
    } else {
        allowed = remove_item(&allowed, name);
        add_item(&mut dismissed, name);
    }
    let software = SoftwareConfig { allowed, auto_adopt, dismissed };
    let t = write_software_settings(file, &software);
    let rest = if allow {
        " added to software management\n"
    } else {
        " removed from software management\n"
    };
    done(restart_line(name, rest), t, false)
}

fn run_repair(path: &str, file: &str) -> (r: Result<CliOutcome, String>)
    ensures
        matches_outcome(
            r,
            match config_text_of(file@) {
                Err(m) => Err(m),
                Ok(c) => Ok(
                    (
                        "Rewrote "@ + path@ + " in its standard layout (previous file: "@ + backup_path(path@)
                            + ").\n"@ + RESTART@,
                        Some(standard_layout(c)),
                        true,
                    ),
                ),
            },
        ),
{
    let c = match read_config(file) {
        Err(e) => return Err(e.message),
        Ok(c) => c,
    };
    let mut out = owned("Rewrote ");
    push_str(&mut out, path);
    push_str(&mut out, " in its standard layout (previous file: ");
    let backup = make_backup_path(path);
    push_str(&mut out, backup.as_str());
    push_str(&mut out, ").\n");
    push_str(&mut out, RESTART);
    done(out, render_standard_layout(&c), true)
}

/// Runs `deckox-agent config ...` on the file at `path`, whose text is
/// `file` (empty when there is none yet). The caller writes `new_text`
/// back, after copying the old file to the backup path when `backup` is
/// set.
pub fn run(path: &str, arguments: &Vec<String>, file: &str) -> (r: Result<CliOutcome, String>)
    ensures
        matches_outcome(r, cli_outcome(path@, texts(arguments@), file@)),
{
    let ghost args = texts(arguments@);
    let n = arguments.len();
    if n == 0 {
        return Ok(CliOutcome { output: owned(USAGE), new_text: None, backup: false });
    }
    assert(args[0] == arguments@[0]@);
    let first = arguments[0].as_str();
    let is = |lit: &str| -> (b: bool)
        ensures
            b == (first@ == lit@),
        { crate::agent::events::text_eq(first, lit) };
    if n == 1 && (is("help") || is("--help") || is("-h")) {
        return Ok(CliOutcome { output: owned(USAGE), new_text: None, backup: false });
    }
    if n == 1 && is("show") {
        return match read_config(file) {
            Err(e) => Err(e.message),
            Ok(c) => Ok(CliOutcome { output: show(path, &c), new_text: None, backup: false }),
        };
    }
    if n == 3 && is("set") {
        assert(args[1] == arguments@[1]@ && args[2] == arguments@[2]@);
        return run_set(arguments[1].as_str(), arguments[2].as_str(), file);
    }
    if n == 2 && is("allow-service") {
        assert(args[1] == arguments@[1]@);
        return run_allow_service(arguments[1].as_str(), file);
    }
    if n == 2 && is("deny-service") {
        assert(args[1] == arguments@[1]@);
        return run_deny_service(arguments[1].as_str(), file);
    }
    if n == 2 && (is("allow-software") || is("deny-software")) {
        assert(args[1] == arguments@[1]@);
        return run_software(is("allow-software"), arguments[1].as_str(), file);
    }
    if n == 1 && is("repair") {
        return run_repair(path, file);
    }
    let mut m = owned("unrecognized command\n\n");
    push_str(&mut m, USAGE);
    Err(m)
}

} // verus!
