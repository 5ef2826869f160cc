//! The Agent's settings (`/etc/deckox/agent.toml`) and the table-aware
//! rewriting of that file: one table is replaced, the others and their
//! comments are kept as they were.

use vstd::prelude::*;
use vstd::string::StrSliceExecFns;

use crate::order::{dedup, dedup_strings, sort_strings, sorted_texts};
use crate::agent::error::AgentError;
use crate::toml_doc::{
    EntryView, ItemView, TomlEntry, TomlItem, TomlValue, ValueView, doc_view, entry_of, find_entry, get_item,
    lookup_item, opt_texts, parse_toml, toml_document,
};
use crate::text::{
    chars_of, find, find_char, join, lemma_find_bounds, lines, owned, push_char, push_span,
    push_str, skip_ws, skip_ws_back, span_starts_with, split_lines, starts_with, string_of,
    texts, trim_end, trim_start, is_ws, lines_from, strip_cr,
};

verus! {

pub const DEFAULT_CONFIG_PATH: &'static str = "/etc/deckox/agent.toml";

pub const DEFAULT_SOCKET_PATH: &'static str = "/run/deckox/agent.sock";

/// What the Agent may do, as read from its config file.
#[derive(Debug, Clone)]
pub struct AgentConfig {
    /// The Unix socket the Agent listens on; the default when `None`.
    pub socket: Option<String>,
    pub system: SystemConfig,
    pub software: SoftwareConfig,
    pub services: ServicesConfig,
}

#[derive(Debug, Clone, Copy, PartialEq, Eq, Structural)]
pub struct SystemConfig {
    pub allow_reboot: bool,
    pub allow_update: bool,
}

#[derive(Debug, Clone)]
pub struct SoftwareConfig {
    pub allowed: Vec<String>,
    /// When `true` (the default), packages the admin installed on purpose are
    /// managed without being listed in `allowed`.
    pub auto_adopt: bool,
    /// Packages the admin removed from management by hand; they are never
    /// adopted automatically again.
    pub dismissed: Vec<String>,
}

#[derive(Debug, Clone)]
pub struct ServicesConfig {
    pub allowed: Vec<String>,
}

/// A missing `auto_adopt` means `true`.
pub fn default_auto_adopt() -> (r: bool)
    ensures
        r,
{
    true
}

impl Default for SystemConfig {
    fn default() -> (r: Self)
        ensures
            !r.allow_reboot,
            !r.allow_update,
    {
        SystemConfig { allow_reboot: false, allow_update: false }
    }
}

impl Default for SoftwareConfig {
    fn default() -> (r: Self)
        ensures
            r.allowed@.len() == 0,
            r.auto_adopt,
            r.dismissed@.len() == 0,
    {
        SoftwareConfig { allowed: Vec::new(), auto_adopt: default_auto_adopt(), dismissed: Vec::new() }
    }
}

impl Default for ServicesConfig {
    fn default() -> (r: Self)
        ensures
            r.allowed@.len() == 0,
    {
        ServicesConfig { allowed: Vec::new() }
    }
}

impl Default for AgentConfig {
    /// The settings of a host without a config file: nothing is allowed.
    fn default() -> (r: Self)
        ensures
            r.socket is None,
            !r.system.allow_reboot,
            !r.system.allow_update,
            r.software.allowed@.len() == 0,
            r.software.auto_adopt,
            r.software.dismissed@.len() == 0,
            r.services.allowed@.len() == 0,
    {
        AgentConfig {
            socket: None,
            system: SystemConfig::default(),
            software: SoftwareConfig::default(),
            services: ServicesConfig::default(),
        }
    }
}

impl AgentConfig {
    /// The socket path: the configured one, else `/run/deckox/agent.sock`.
    pub fn socket_path(&self) -> (r: String)
        ensures
            r@ == match self.socket {
                Some(s) => s@,
                None => DEFAULT_SOCKET_PATH@,
            },
    {
        match &self.socket {
            Some(s) => owned(s.as_str()),
            None => owned(DEFAULT_SOCKET_PATH),
        }
    }
}

// ---------------------------------------------------------------------------
// Rendering the managed tables
// ---------------------------------------------------------------------------

/// `  "<item>",\n` for each item, in order.
pub open spec fn item_lines(items: Seq<Seq<char>>) -> Seq<char>
    decreases items.len(),
{
    if items.len() == 0 {
        seq![]
    } else {
        item_lines(items.drop_last()) + "  \""@ + items.last() + "\",\n"@
    }
}

/// `key = []` for no items, else `key = [` and one quoted item per line.
pub open spec fn list_text(key: Seq<char>, items: Seq<Seq<char>>) -> Seq<char> {
    if items.len() == 0 {
        key + " = []\n"@
    } else {
        key + " = [\n"@ + item_lines(items) + "]\n"@
    }
}

/// Appends the `key = [...]` lines of `items`, as given.
fn push_list(section: &mut String, key: &str, items: &Vec<String>)
    ensures
        final(section)@ == old(section)@ + list_text(key@, texts(items@)),
{
    if items.len() == 0 {
        push_str(section, key);
        push_str(section, " = []\n");
        return;
    }
    push_str(section, key);
    push_str(section, " = [\n");
    let ghost head = section@;
    let mut i: usize = 0;
    assert(texts(items@).take(0) =~= Seq::<Seq<char>>::empty());
    assert(section@ =~= head + item_lines(texts(items@).take(0)));
    while i < items.len()
        invariant
            i <= items@.len(),
            section@ == head + item_lines(texts(items@).take(i as int)),
        decreases items@.len() - i,
    {
        assert(texts(items@).take(i + 1).drop_last() =~= texts(items@).take(i as int));
        push_str(section, "  \"");
        push_str(section, items[i].as_str());
        push_str(section, "\",\n");
        i = i + 1;
    }
    assert(texts(items@).take(items@.len() as int) =~= texts(items@));
    push_str(section, "]\n");
}

/// Appends `key = [...]` with the values sorted and each kept once.
pub fn render_string_list(section: &mut String, key: &str, values: &Vec<String>)
    ensures
        final(section)@ == old(section)@ + list_text(key@, dedup(sorted_texts(texts(values@)))),
{
    let sorted = sort_strings(values);
    let unique = dedup_strings(&sorted);
    push_list(section, key, &unique);
}

pub const SOFTWARE_HEADER: &'static str = "# Package state can always be read. Install, remove, and upgrade are permitted\n# only for package names that are managed: those listed in `allowed`, plus (when\n# `auto_adopt` is true) packages installed on purpose that are not in\n# `dismissed`. Names in `allowed` were confirmed, when added, to resolve from\n# this host's own configured package repositories or to be installed already\n# (never a newly added third-party repository). Managed from the web admin's\n# Software screen; hand edits are kept as long as this table is followed only\n# by [services] (or nothing).\n[software]\n";

pub const SERVICES_HEADER: &'static str = "# Service state can always be read. Start, stop, and restart are permitted only\n# for service IDs listed here. Deckox's own services are always rejected.\n# Managed from the web admin's Services screen; hand edits are kept as long as\n# this stays the last table in the file.\n[services]\n";

pub open spec fn bool_text(b: bool) -> Seq<char> {
    if b {
        "true"@
    } else {
        "false"@
    }
}

/// The `[software]` table, with its comment.
pub open spec fn software_section(
    auto_adopt: bool,
    allowed: Seq<Seq<char>>,
    dismissed: Seq<Seq<char>>,
) -> Seq<char> {
    SOFTWARE_HEADER@ + "auto_adopt = "@ + bool_text(auto_adopt) + "\n"@ + list_text(
        "allowed"@,
        dedup(sorted_texts(allowed)),
    ) + list_text("dismissed"@, dedup(sorted_texts(dismissed)))
}

/// The `[services]` table, with its comment.
pub open spec fn services_section(allowed: Seq<Seq<char>>) -> Seq<char> {
    SERVICES_HEADER@ + list_text("allowed"@, sorted_texts(allowed))
}

pub fn render_software_section(settings: &SoftwareConfig) -> (r: String)
    ensures
        r@ == software_section(
            settings.auto_adopt,
            texts(settings.allowed@),
            texts(settings.dismissed@),
        ),
{
    let mut section = owned(SOFTWARE_HEADER);
    push_str(&mut section, "auto_adopt = ");
    if settings.auto_adopt {
        push_str(&mut section, "true");
    } else {
        push_str(&mut section, "false");
    }
    push_str(&mut section, "\n");
    render_string_list(&mut section, "allowed", &settings.allowed);
    render_string_list(&mut section, "dismissed", &settings.dismissed);
    section
}

pub fn render_services_section(allowed: &Vec<String>) -> (r: String)
    ensures
        r@ == services_section(texts(allowed@)),
{
    let sorted = sort_strings(allowed);
    let mut section = owned(SERVICES_HEADER);
    push_list(&mut section, "allowed", &sorted);
    section
}

// ---------------------------------------------------------------------------
// Finding tables
// ---------------------------------------------------------------------------

/// Where the line starting at `p` ends: its `'\n'`, or the end of `text`.
pub open spec fn line_end(text: Seq<char>, p: int) -> int {
    match find(text.skip(p), '\n') {
        Some(i) => p + i,
        None => text.len() as int,
    }
}

/// The line starting at `p`, without its `'\n'`.
pub open spec fn line_at(text: Seq<char>, p: int) -> Seq<char> {
    text.subrange(p, line_end(text, p))
}

/// Where the line after the one starting at `p` starts.
pub open spec fn next_line(text: Seq<char>, p: int) -> int {
    if line_end(text, p) < text.len() {
        line_end(text, p) + 1
    } else {
        text.len() as int
    }
}

pub open spec fn is_line_start(text: Seq<char>, p: int) -> bool {
    0 <= p < text.len() && (p == 0 || text[p - 1] == '\n')
}

/// `[name]`.
pub open spec fn header_text(name: Seq<char>) -> Seq<char> {
    seq!['['] + name + seq![']']
}

/// The line at `p` is the `[name]` table header (leading whitespace aside).
#[verifier::opaque]
pub open spec fn is_header_of(text: Seq<char>, p: int, name: Seq<char>) -> bool {
    is_line_start(text, p) && starts_with(trim_start(line_at(text, p)), header_text(name))
}

/// The offset of the first `[name]` header line. Whole lines are matched:
/// a comment that mentions `[name]` in prose is no header.
pub open spec fn header_offset(text: Seq<char>, name: Seq<char>) -> Option<int> {
    if exists|p: int| #[trigger] is_header_of(text, p, name) {
        Some(
            choose|p: int|
                #[trigger] is_header_of(text, p, name) && forall|q: int|
                    0 <= q < p ==> !#[trigger] is_header_of(text, q, name),
        )
    } else {
        None
    }
}

/// The end of the line of `v` starting at `p`, and facts about it.
fn line_end_at(v: &Vec<char>, p: usize) -> (e: usize)
    requires
        p <= v@.len(),
    ensures
        p <= e <= v@.len(),
        p < v@.len() ==> e == line_end(v@, p as int),
        forall|q: int| p <= q < e ==> v@[q] != '\n',
        e < v@.len() ==> v@[e as int] == '\n',
{
    let n = v.len();
    proof {
        lemma_find_bounds(v@.subrange(p as int, n as int), '\n');
        assert(v@.skip(p as int) =~= v@.subrange(p as int, n as int));
    }
    match find_char(v, p, n, '\n') {
        Some(i) => {
            proof {
                assert forall|q: int| p <= q < i implies v@[q] != '\n' by {
                    assert(v@.subrange(p as int, n as int)[q - p] == v@[q]);
                }
            }
            i
        },
        None => {
            proof {
                assert forall|q: int| p <= q < n implies v@[q] != '\n' by {
                    assert(v@.subrange(p as int, n as int)[q - p] == v@[q]);
                }
            }
            n
        },
    }
}

/// The character offset of the `[name]` header line of `v`, if any.
pub fn table_header_offset(v: &Vec<char>, name: &str) -> (r: Option<usize>)
    ensures
        match header_offset(v@, name@) {
            Some(p) => r matches Some(q) && q as int == p,
            None => r is None,
        },
        r matches Some(p) ==> p < v@.len() && is_header_of(v@, p as int, name@),
{
    reveal(header_offset);
    reveal(is_header_of);
    let mut header = String::new();
    push_char(&mut header, '[');
    push_str(&mut header, name);
    push_char(&mut header, ']');
    assert(header@ =~= header_text(name@));
    let n = v.len();
    let mut p: usize = 0;
    while p < n
        invariant
            n == v@.len(),
            p <= n,
            header@ == header_text(name@),
            p == 0 || p == n || v@[p - 1] == '\n',
            forall|q: int| 0 <= q < p ==> !#[trigger] is_header_of(v@, q, name@),
        decreases n - p,
    {
        let e = line_end_at(v, p);
        let ts = skip_ws(v, p, e);
        if span_starts_with(v, ts, e, header.as_str()) {
            proof {
                reveal(is_header_of);
                let t = v@.subrange(ts as int, e as int);
                assert(t.take(header@.len() as int) =~= v@.subrange(ts as int, ts + header@.len()));
                assert(is_header_of(v@, p as int, name@));
                let c = choose|c: int|
                    #[trigger] is_header_of(v@, c, name@) && forall|q: int|
                        0 <= q < c ==> !#[trigger] is_header_of(v@, q, name@);
                assert(is_header_of(v@, c, name@));
                if c < p {
                } else if c > p {
                    assert(!is_header_of(v@, p as int, name@));
                }
            }
            return Some(p);
        }
        proof {
            reveal(is_header_of);
            let t = v@.subrange(ts as int, e as int);
            if header@.len() <= t.len() {
                assert(t.take(header@.len() as int) =~= v@.subrange(ts as int, ts + header@.len()));
            }
            assert forall|q: int| 0 <= q < next_line(v@, p as int) implies !#[trigger] is_header_of(
                v@,
                q,
                name@,
            ) by {
                if p < q && q <= e {
                    assert(v@[q - 1] != '\n');
                }
            }
        }
        p = if e < n {
            e + 1
        } else {
            n
        };
    }
    proof {
        assert forall|q: int| !#[trigger] is_header_of(v@, q, name@) by {
            if 0 <= q < n {
            }
        }
    }
    None
}

// ---------------------------------------------------------------------------
// Comment blocks and table ends
// ---------------------------------------------------------------------------

/// A line that is a comment (leading whitespace aside).
pub open spec fn comment_line(line: Seq<char>) -> bool {
    starts_with(trim_start(line), "#"@)
}

/// The lines without the comment lines at their end.
pub open spec fn drop_comment_lines(ls: Seq<Seq<char>>) -> Seq<Seq<char>>
    decreases ls.len(),
{
    if ls.len() > 0 && comment_line(ls.last()) {
        drop_comment_lines(ls.drop_last())
    } else {
        ls
    }
}

/// `prefix` without the comment block right above the table that follows
/// it (each rewritten table brings its own comment), trailing whitespace
/// dropped.
#[verifier::opaque]
pub open spec fn strip_comment_block(prefix: Seq<char>) -> Seq<char> {
    trim_end(join(drop_comment_lines(lines(trim_end(prefix))), "\n"@))
}

/// A text with no `'\r'` in it.
pub open spec fn no_cr(s: Seq<char>) -> bool {
    forall|i: int| 0 <= i < s.len() ==> s[i] != '\r'
}

proof fn lemma_trim_end_append(a: Seq<char>, b: Seq<char>)
    requires
        trim_end(b).len() > 0,
    ensures
        trim_end(a + b) == a + trim_end(b),
    decreases b.len(),
{
    if b.len() > 0 && is_ws(b.last()) {
        assert((a + b).drop_last() =~= a + b.drop_last());
        lemma_trim_end_append(a, b.drop_last());
    } else {
        assert((a + b).last() == b.last());
    }
}

proof fn lemma_lines_split(a: Seq<char>, b: Seq<char>, cur: Seq<char>)
    ensures
        lines_from(a + seq!['\n'] + b, cur) == lines_from(a + seq!['\n'], cur) + lines_from(b, seq![]),
    decreases a.len(),
{
    let s = a + seq!['\n'] + b;
    let e = Seq::<char>::empty();
    if a.len() == 0 {
        assert(s =~= seq!['\n'] + b);
        assert(s.drop_first() =~= b);
        assert((a + seq!['\n']) =~= seq!['\n']);
        assert(seq!['\n'].drop_first() =~= e);
        assert(lines_from(e, e) =~= Seq::<Seq<char>>::empty());
        assert(lines_from(seq!['\n'], cur) == seq![strip_cr(cur)] + lines_from(e, e));
        assert(lines_from(s, cur) == seq![strip_cr(cur)] + lines_from(b, e));
        assert(lines_from(s, cur) =~= lines_from(a + seq!['\n'], cur) + lines_from(b, e));
    } else {
        let a1 = a.drop_first();
        assert(s[0] == a[0]);
        assert(s.drop_first() =~= a1 + seq!['\n'] + b);
        assert((a + seq!['\n']).drop_first() =~= a1 + seq!['\n']);
        assert((a + seq!['\n'])[0] == a[0]);
        if a[0] == '\n' {
            lemma_lines_split(a1, b, e);
            assert(lines_from(s, cur) == seq![strip_cr(cur)] + lines_from(a1 + seq!['\n'] + b, e));
            assert(lines_from(a + seq!['\n'], cur) == seq![strip_cr(cur)] + lines_from(a1 + seq!['\n'], e));
            assert(lines_from(s, cur) =~= lines_from(a + seq!['\n'], cur) + lines_from(b, e));
        } else {
            lemma_lines_split(a1, b, cur.push(a[0]));
            assert(lines_from(s, cur) == lines_from(a1 + seq!['\n'] + b, cur.push(a[0])));
            assert(lines_from(a + seq!['\n'], cur) == lines_from(a1 + seq!['\n'], cur.push(a[0])));
        }
    }
}

proof fn lemma_lines_newline(s: Seq<char>, cur: Seq<char>)
    requires
        (cur + s).len() > 0,
        (cur + s).last() != '\n',
        no_cr(cur + s),
    ensures
        lines_from(s + seq!['\n'], cur) == lines_from(s, cur),
    decreases s.len(),
{
    let t = s + seq!['\n'];
    let e = Seq::<char>::empty();
    if s.len() == 0 {
        assert(cur + s =~= cur);
        assert(t =~= seq!['\n']);
        assert(t.drop_first() =~= e);
        assert(cur.last() == (cur + s)[cur.len() - 1]);
        assert(strip_cr(cur) == cur);
        assert(lines_from(e, e) =~= Seq::<Seq<char>>::empty());
        assert(lines_from(t, cur) == seq![strip_cr(cur)] + lines_from(e, e));
        assert(lines_from(t, cur) =~= seq![cur]);
    } else {
        let s1 = s.drop_first();
        assert(t[0] == s[0]);
        assert(t.drop_first() =~= s1 + seq!['\n']);
        if s[0] == '\n' {
            assert(s1.len() > 0) by {
                if s1.len() == 0 {
                    assert((cur + s).last() == s[0]);
                }
            }
            assert(e + s1 =~= s1);
            assert((cur + s).last() == s1.last());
            assert forall|i: int| 0 <= i < s1.len() implies (e + s1)[i] != '\r' by {
                assert(s1[i] == (cur + s)[cur.len() + 1 + i]);
            }
            lemma_lines_newline(s1, e);
            if cur.len() > 0 {
                assert(cur.last() == (cur + s)[cur.len() - 1]);
            }
            assert(lines_from(t, cur) == seq![strip_cr(cur)] + lines_from(s1 + seq!['\n'], e));
            assert(lines_from(s, cur) == seq![strip_cr(cur)] + lines_from(s1, e));
        } else {
            assert(cur.push(s[0]) + s1 =~= cur + s);
            lemma_lines_newline(s1, cur.push(s[0]));
            assert(lines_from(t, cur) == lines_from(s1 + seq!['\n'], cur.push(s[0])));
        }
    }
}

proof fn lemma_trim_end_len(s: Seq<char>)
    ensures
        trim_end(s).len() <= s.len(),
    decreases s.len(),
{
    if s.len() > 0 && is_ws(s.last()) {
        lemma_trim_end_len(s.drop_last());
    }
}

proof fn lemma_lines_nonempty(s: Seq<char>, cur: Seq<char>)
    requires
        (cur + s).len() > 0,
    ensures
        lines_from(s, cur).len() > 0,
    decreases s.len(),
{
    if s.len() > 0 && s[0] != '\n' {
        assert(cur.push(s[0]) + s.drop_first() =~= cur + s);
        lemma_lines_nonempty(s.drop_first(), cur.push(s[0]));
    } else if s.len() == 0 {
        assert(cur + s =~= cur);
    }
}

proof fn lemma_join_prepend(x: Seq<char>, rest: Seq<Seq<char>>, sep: Seq<char>)
    requires
        rest.len() > 0,
    ensures
        join(seq![x] + rest, sep) == x + sep + join(rest, sep),
    decreases rest.len(),
{
    let all = seq![x] + rest;
    assert(all.drop_last() =~= seq![x] + rest.drop_last());
    assert(all.last() == rest.last());
    assert(join(all, sep) == join(all.drop_last(), sep) + sep + all.last());
    if rest.len() == 1 {
        assert(seq![x] + rest.drop_last() =~= seq![x]);
        assert(join(seq![x], sep) == x);
        assert(join(rest, sep) == rest[0]);
        assert(join(all, sep) =~= x + sep + join(rest, sep));
    } else {
        lemma_join_prepend(x, rest.drop_last(), sep);
        assert(join(rest, sep) == join(rest.drop_last(), sep) + sep + rest.last());
        assert(join(all, sep) =~= x + sep + join(rest, sep));
    }
}

proof fn lemma_join_lines(s: Seq<char>, cur: Seq<char>)
    requires
        (cur + s).len() > 0,
        (cur + s).last() != '\n',
        no_cr(cur + s),
    ensures
        join(lines_from(s, cur), "\n"@) == cur + s,
    decreases s.len(),
{
    reveal_strlit("\n");
    if s.len() == 0 {
        assert(cur + s =~= cur);
    } else if s[0] == '\n' {
        let rest = s.drop_first();
        assert(rest.len() > 0) by {
            if rest.len() == 0 {
                assert((cur + s).last() == s[0]);
            }
        }
        assert(seq![] + rest =~= rest);
        assert((cur + s).last() == rest.last());
        assert forall|i: int| 0 <= i < rest.len() implies rest[i] != '\r' by {
            assert(rest[i] == (cur + s)[cur.len() + 1 + i]);
        }
        lemma_join_lines(rest, seq![]);
        lemma_lines_nonempty(rest, seq![]);
        lemma_join_prepend(strip_cr(cur), lines_from(rest, seq![]), "\n"@);
        if cur.len() > 0 {
            assert(cur.last() == (cur + s)[cur.len() - 1]);
        }
        assert(strip_cr(cur) == cur);
        assert(cur + "\n"@ + rest =~= cur + s);
    } else {
        assert(cur.push(s[0]) + s.drop_first() =~= cur + s);
        lemma_join_lines(s.drop_first(), cur.push(s[0]));
    }
}

proof fn lemma_drop_comment_suffix(a: Seq<Seq<char>>, b: Seq<Seq<char>>)
    requires
        forall|i: int| 0 <= i < b.len() ==> comment_line(#[trigger] b[i]),
    ensures
        drop_comment_lines(a + b) == drop_comment_lines(a),
    decreases b.len(),
{
    if b.len() == 0 {
        assert(a + b =~= a);
    } else {
        assert((a + b).last() == b.last());
        assert(comment_line(b[b.len() - 1]));
        assert((a + b).drop_last() =~= a + b.drop_last());
        lemma_drop_comment_suffix(a, b.drop_last());
    }
}

/// A table's comment block written after a prefix that has no comment block
/// at its end, with the blank line a rewrite puts there, is stripped again
/// and leaves the prefix as it was: `prefix` is a text without `'\r'` and
/// without trailing whitespace, `comment` one whose lines (trailing
/// whitespace aside) are all comments.
pub proof fn lemma_comment_block_strips_back(prefix: Seq<char>, comment: Seq<char>)
    requires
        no_cr(prefix),
        trim_end(prefix) == prefix,
        trim_end(comment).len() > 0,
        forall|i: int|
            0 <= i < lines(trim_end(comment)).len() ==> comment_line(#[trigger] lines(trim_end(comment))[i]),
    ensures
        strip_comment_block(with_gap(prefix) + comment) == prefix,
{
    reveal(strip_comment_block);
    reveal_strlit("\n\n");
    reveal_strlit("\n");
    reveal_strlit("#");
    let c = trim_end(comment);
    if prefix.len() == 0 {
        assert(with_gap(prefix) + comment =~= comment);
        lemma_drop_comment_suffix(seq![], lines(c));
        assert(seq![] + lines(c) =~= lines(c));
    } else {
        let p = prefix;
        assert(!is_ws(p.last())) by {
            if is_ws(p.last()) {
                lemma_trim_end_len(p.drop_last());
            }
        }
        assert(p.last() != '\n');
        lemma_trim_end_append(p + "\n\n"@, comment);
        assert(with_gap(p) + comment == p + "\n\n"@ + comment);
        let t = p + "\n\n"@ + c;
        assert(t =~= p + seq!['\n'] + (seq!['\n'] + c));
        lemma_lines_split(p, seq!['\n'] + c, seq![]);
        assert(seq![] + p =~= p);
        lemma_lines_newline(p, seq![]);
        assert((seq!['\n'] + c)[0] == '\n');
        assert((seq!['\n'] + c).drop_first() =~= c);
        assert(strip_cr(Seq::<char>::empty()) == Seq::<char>::empty());
        let lp = lines(p);
        assert(lines(t) =~= lp + seq![Seq::<char>::empty()] + lines(c));
        lemma_drop_comment_suffix(lp + seq![Seq::<char>::empty()], lines(c));
        assert(!comment_line(Seq::<char>::empty()));
        let kept = lp + seq![Seq::<char>::empty()];
        assert(kept.last() == Seq::<char>::empty());
        assert(drop_comment_lines(kept) == kept);
        lemma_lines_nonempty(p, seq![]);
        assert(kept.drop_last() =~= lp);
        lemma_join_lines(p, seq![]);
        assert(join(kept, "\n"@) == p + "\n"@);
        assert((p + "\n"@).last() == '\n');
        assert((p + "\n"@).drop_last() =~= p);
    }
}

/// A fresh vector holding `v[start..end]`.
fn sub_chars(v: &Vec<char>, start: usize, end: usize) -> (r: Vec<char>)
    requires
        start <= end <= v@.len(),
    ensures
        r@ == v@.subrange(start as int, end as int),
{
    let mut r: Vec<char> = Vec::new();
    let mut i = start;
    while i < end
        invariant
            start <= i <= end <= v@.len(),
            r@ == v@.subrange(start as int, i as int),
        decreases end - i,
    {
        r.push(v[i]);
        assert(r@ =~= v@.subrange(start as int, i + 1));
        i = i + 1;
    }
    r
}

/// Whether `v[start..end]` is a comment line.
fn is_comment_span(v: &Vec<char>, start: usize, end: usize) -> (r: bool)
    requires
        start <= end <= v@.len(),
    ensures
        r == comment_line(v@.subrange(start as int, end as int)),
{
    let s = skip_ws(v, start, end);
    let r = span_starts_with(v, s, end, "#");
    proof {
        let t = v@.subrange(s as int, end as int);
        if "#"@.len() <= t.len() {
            assert(t.take("#"@.len() as int) =~= v@.subrange(s as int, s + "#"@.len()));
        }
    }
    r
}

/// `v[start..end]` without the comment block at its end.
pub fn strip_trailing_comment_block(v: &Vec<char>, start: usize, end: usize) -> (r: String)
    requires
        start <= end <= v@.len(),
    ensures
        r@ == strip_comment_block(v@.subrange(start as int, end as int)),
{
    reveal(strip_comment_block);
    let te = skip_ws_back(v, start, end);
    let t = sub_chars(v, start, te);
    let spans = split_lines(&t);
    let ghost ls = lines(t@);
    let mut k = spans.len();
    let mut stop = false;
    assert(ls.take(k as int) =~= ls);
    while k > 0 && !stop
        invariant
            stop ==> k > 0 && !comment_line(ls[k - 1]),
            k <= spans@.len(),
            spans@.len() == ls.len(),
            ls == lines(t@),
            forall|m: int|
                #![trigger spans@[m]]
                0 <= m < spans@.len() ==> spans@[m].0 <= spans@[m].1 <= t@.len() && t@.subrange(
                    spans@[m].0 as int,
                    spans@[m].1 as int,
                ) == ls[m],
            drop_comment_lines(ls) == drop_comment_lines(ls.take(k as int)),
        decreases k + if stop {
            0int
        } else {
            1int
        },
    {
        let (a, b) = spans[k - 1];
        if is_comment_span(&t, a, b) {
            assert(ls.take(k as int).drop_last() =~= ls.take(k - 1));
            k = k - 1;
        } else {
            stop = true;
        }
    }
    let ghost kept = ls.take(k as int);
    assert(drop_comment_lines(ls) == kept) by {
        if k > 0 {
            assert(kept.last() == ls[k - 1]);
        } else {
            assert(kept =~= Seq::<Seq<char>>::empty());
        }
    }
    // Join the kept lines with '\n'.
    let mut joined = String::new();
    let mut j: usize = 0;
    assert(kept.take(0) =~= Seq::<Seq<char>>::empty());
    while j < k
        invariant
            j <= k <= spans@.len(),
            spans@.len() == ls.len(),
            kept == ls.take(k as int),
            forall|m: int|
                #![trigger spans@[m]]
                0 <= m < spans@.len() ==> spans@[m].0 <= spans@[m].1 <= t@.len() && t@.subrange(
                    spans@[m].0 as int,
                    spans@[m].1 as int,
                ) == ls[m],
            joined@ == join(kept.take(j as int), "\n"@),
        decreases k - j,
    {
        let (a, b) = spans[j];
        assert(kept.take(j + 1).drop_last() =~= kept.take(j as int));
        if j > 0 {
            push_str(&mut joined, "\n");
        }
        push_span(&mut joined, &t, a, b);
        proof {
            if j == 0 {
                assert(joined@ =~= kept.take(1)[0]);
            } else {
                assert(joined@ =~= join(kept.take(j as int), "\n"@) + "\n"@ + kept.take(j + 1).last());
            }
        }
        j = j + 1;
    }
    assert(kept.take(k as int) =~= kept);
    let jc = chars_of(joined.as_str());
    let je = skip_ws_back(&jc, 0, jc.len());
    assert(jc@.subrange(0, jc@.len() as int) =~= jc@);
    assert(t@ == trim_end(v@.subrange(start as int, end as int)));
    string_of(&jc, 0, je)
}

/// Where the table ends when its body starts at line `p`: at the next table
/// header, or at the comment block right above that header (the comment
/// belongs to the next table); the end of `text` when no header follows.
pub open spec fn table_end_from(text: Seq<char>, p: int, comment: Option<int>) -> int
    decreases text.len() - p,
{
    if p < 0 || p >= text.len() {
        text.len() as int
    } else {
        let t = trim_start(line_at(text, p));
        if starts_with(t, "["@) {
            match comment {
                Some(c) => c,
                None => p,
            }
        } else {
            proof {
                lemma_find_bounds(text.skip(p), '\n');
            }
            table_end_from(
                text,
                next_line(text, p),
                if comment_line(line_at(text, p)) {
                    match comment {
                        Some(c) => Some(c),
                        None => Some(p),
                    }
                } else {
                    None
                },
            )
        }
    }
}

/// The end of the table whose body starts at `from` (a line start or the
/// end of `v`).
pub fn table_end(v: &Vec<char>, from: usize) -> (r: usize)
    requires
        from <= v@.len(),
    ensures
        r == table_end_from(v@, from as int, None),
        r <= v@.len(),
{
    let n = v.len();
    let mut p = from;
    let mut comment: Option<usize> = None;
    while p < n
        invariant
            n == v@.len(),
            from <= p <= n,
            comment matches Some(c) ==> c <= p,
            table_end_from(v@, from as int, None) == table_end_from(
                v@,
                p as int,
                match comment {
                    Some(c) => Some(c as int),
                    None => None::<int>,
                },
            ),
        decreases n - p,
    {
        let e = line_end_at(v, p);
        let ts = skip_ws(v, p, e);
        let opens = span_starts_with(v, ts, e, "[");
        proof {
            let t = v@.subrange(ts as int, e as int);
            if "["@.len() <= t.len() {
                assert(t.take("["@.len() as int) =~= v@.subrange(ts as int, ts + "["@.len()));
            }
            assert(opens == starts_with(trim_start(line_at(v@, p as int)), "["@));
        }
        if opens {
            return match comment {
                Some(c) => c,
                None => p,
            };
        }
        if is_comment_span(v, p, e) {
            if comment.is_none() {
                comment = Some(p);
            }
        } else {
            comment = None;
        }
        p = if e < n {
            e + 1
        } else {
            n
        };
    }
    n
}

// ---------------------------------------------------------------------------
// Replacing a table
// ---------------------------------------------------------------------------

/// `text`, then a blank line when `text` is not empty.
pub open spec fn with_gap(text: Seq<char>) -> Seq<char> {
    if text.len() > 0 {
        text + "\n\n"@
    } else {
        text
    }
}

/// `original` with its `[name]` table replaced by `section`: everything
/// before the header (less the header's comment block) is kept, and so is
/// everything from the next table on. Without such a table, `section` is
/// appended.
pub open spec fn bounded_replacement(original: Seq<char>, name: Seq<char>, section: Seq<char>) -> Seq<char> {
    match header_offset(original, name) {
        None => with_gap(trim_end(original)) + section,
        Some(start) => {
            let body = next_line(original, start);
            let end = table_end_from(original, body, None);
            with_gap(strip_comment_block(original.take(start))) + section + if end
                < original.len() {
                "\n"@ + original.skip(end)
            } else {
                seq![]
            }
        },
    }
}

/// `original` with the `[services]` table, and everything after it,
/// replaced by `section` (it is the last table of the file).
pub open spec fn services_replacement(original: Seq<char>, section: Seq<char>) -> Seq<char> {
    let prefix = match header_offset(original, "services"@) {
        Some(start) => original.take(start),
        None => original,
    };
    with_gap(strip_comment_block(prefix)) + section
}

/// `v` with the table whose header line starts at `start` replaced.
fn splice_table(v: &Vec<char>, start: usize, new_section: &str) -> (r: String)
    requires
        start < v@.len(),
    ensures
        r@ == with_gap(strip_comment_block(v@.take(start as int))) + new_section@ + {
            let end = table_end_from(v@, next_line(v@, start as int), None);
            if end < v@.len() {
                "\n"@ + v@.skip(end)
            } else {
                seq![]
            }
        },
{
    let n = v.len();
    let e = line_end_at(v, start);
    let body = if e < n {
        e + 1
    } else {
        n
    };
    assert(body == next_line(v@, start as int));
    let end = table_end(v, body);
    let mut result = strip_trailing_comment_block(v, 0, start);
    assert(v@.subrange(0, start as int) =~= v@.take(start as int));
    if result.as_str().unicode_len() > 0 {
        push_str(&mut result, "\n\n");
    }
    push_str(&mut result, new_section);
    if end < n {
        push_str(&mut result, "\n");
        push_span(&mut result, v, end, n);
        assert(v@.subrange(end as int, n as int) =~= v@.skip(end as int));
    }
    result
}

pub fn replace_bounded_section(original: &str, table_name: &str, new_section: &str) -> (r: String)
    ensures
        r@ == bounded_replacement(original@, table_name@, new_section@),
{
    let v = chars_of(original);
    let n = v.len();
    match table_header_offset(&v, table_name) {
        None => {
            let te = skip_ws_back(&v, 0, n);
            assert(v@.subrange(0, n as int) =~= original@);
            let mut result = string_of(&v, 0, te);
            if te > 0 {
                push_str(&mut result, "\n\n");
            }
            push_str(&mut result, new_section);
            result
        },
        Some(start) => splice_table(&v, start, new_section),
    }
}

pub fn replace_services_section(original: &str, new_section: &str) -> (r: String)
    ensures
        r@ == services_replacement(original@, new_section@),
{
    let v = chars_of(original);
    let n = v.len();
    let services = "services";
    let found = table_header_offset(&v, services);
    assert(services@ == "services"@);
    let ghost prefix = match header_offset(original@, "services"@) {
        Some(start) => original@.take(start),
        None => original@,
    };
    let cut = match found {
        Some(start) => {
            assert(header_offset(original@, "services"@) == Some(start as int));
            start
        },
        None => {
            assert(header_offset(original@, "services"@) is None);
            n
        },
    };
    assert(v@.subrange(0, cut as int) =~= prefix);
    let mut result = strip_trailing_comment_block(&v, 0, cut);
    assert(result@ == strip_comment_block(prefix));
    if result.as_str().unicode_len() > 0 {
        push_str(&mut result, "\n\n");
    }
    assert(result@ == with_gap(strip_comment_block(prefix)));
    push_str(&mut result, new_section);
    result
}

/// The config file's new text once the `[services]` allowlist is `allowed`.
/// (The caller reads the file, treating a missing one as empty, and swaps
/// the result in through a temp file plus a rename.)
pub fn write_allowed_services(original: &str, allowed: &Vec<String>) -> (r: String)
    ensures
        r@ == services_replacement(original@, services_section(texts(allowed@))),
{
    let section = render_services_section(allowed);
    replace_services_section(original, section.as_str())
}

/// The config file's new text once the `[software]` table holds `settings`.
pub fn write_software_settings(original: &str, settings: &SoftwareConfig) -> (r: String)
    ensures
        r@ == bounded_replacement(
            original@,
            "software"@,
            software_section(settings.auto_adopt, texts(settings.allowed@), texts(settings.dismissed@)),
        ),
{
    let section = render_software_section(settings);
    replace_bounded_section(original, "software", section.as_str())
}

// ---------------------------------------------------------------------------
// The [system] table and the standard layout
// ---------------------------------------------------------------------------

pub const SYSTEM_HEADER: &'static str = "# Host actions the web admin may take. Each stays off unless enabled here.\n[system]\n";

/// The `[system]` table, with its comment.
pub open spec fn system_section(allow_reboot: bool, allow_update: bool) -> Seq<char> {
    SYSTEM_HEADER@ + "allow_reboot = "@ + bool_text(allow_reboot) + "\nallow_update = "@ + bool_text(allow_update)
        + "\n"@
}

fn push_bool(out: &mut String, b: bool)
    ensures
        final(out)@ == old(out)@ + bool_text(b),
{
    if b {
        push_str(out, "true");
    } else {
        push_str(out, "false");
    }
}

pub fn render_system_section(system: &SystemConfig) -> (r: String)
    ensures
        r@ == system_section(system.allow_reboot, system.allow_update),
{
    let mut section = owned(SYSTEM_HEADER);
    push_str(&mut section, "allow_reboot = ");
    push_bool(&mut section, system.allow_reboot);
    push_str(&mut section, "\nallow_update = ");
    push_bool(&mut section, system.allow_update);
    push_str(&mut section, "\n");
    section
}

/// The config file's new text once the `[system]` table holds `system`.
pub fn write_system_settings(original: &str, system: &SystemConfig) -> (r: String)
    ensures
        r@ == bounded_replacement(original@, "system"@, system_section(system.allow_reboot, system.allow_update)),
{
    let section = render_system_section(system);
    replace_bounded_section(original, "system", section.as_str())
}

/// A TOML basic string: `text` in double quotes, with `\\` and `"`
/// escaped.
pub open spec fn quoted(text: Seq<char>) -> Seq<char> {
    "\""@ + escaped(text) + "\""@
}

pub open spec fn escaped(text: Seq<char>) -> Seq<char>
    decreases text.len(),
{
    if text.len() == 0 {
        seq![]
    } else {
        escaped(text.drop_last()) + if text.last() == '\\' || text.last() == '"' {
            seq!['\\', text.last()]
        } else {
            seq![text.last()]
        }
    }
}

fn push_quoted(out: &mut String, text: &str)
    ensures
        final(out)@ == old(out)@ + quoted(text@),
{
    let v = chars_of(text);
    push_str(out, "\"");
    let ghost head = out@;
    let mut i: usize = 0;
    while i < v.len()
        invariant
            i <= v@.len(),
            v@ == text@,
            out@ == head + escaped(v@.take(i as int)),
        decreases v@.len() - i,
    {
        assert(v@.take(i + 1).drop_last() =~= v@.take(i as int));
        let c = v[i];
        if c == '\\' || c == '"' {
            push_char(out, '\\');
        }
        push_char(out, c);
        assert(out@ =~= head + escaped(v@.take(i + 1)));
        i = i + 1;
    }
    assert(v@.take(v@.len() as int) =~= v@);
    push_str(out, "\"");
    assert(out@ =~= old(out)@ + quoted(text@));
}

/// The whole file in its standard layout: the socket when one is set, then
/// `[system]`, `[software]` and `[services]` with their comments.
pub open spec fn standard_layout(config: ConfigView) -> Seq<char> {
    (match config.socket {
        Some(s) => "socket = "@ + quoted(s) + "\n\n"@,
        None => seq![],
    }) + system_section(config.allow_reboot, config.allow_update) + "\n"@ + software_section(
        config.auto_adopt,
        config.software_allowed,
        config.dismissed,
    ) + "\n"@ + services_section(config.services_allowed)
}

pub fn render_standard_layout(config: &AgentConfig) -> (r: String)
    ensures
        r@ == standard_layout(config_view(config)),
{
    let mut out = String::new();
    match &config.socket {
        Some(s) => {
            push_str(&mut out, "socket = ");
            push_quoted(&mut out, s.as_str());
            push_str(&mut out, "\n\n");
        },
        None => {},
    }
    let system = render_system_section(&config.system);
    push_str(&mut out, system.as_str());
    push_str(&mut out, "\n");
    let software = render_software_section(&config.software);
    push_str(&mut out, software.as_str());
    push_str(&mut out, "\n");
    let services = render_services_section(&config.services.allowed);
    push_str(&mut out, services.as_str());
    out
}

// ---------------------------------------------------------------------------
// Reading the file
// ---------------------------------------------------------------------------

/// The settings as plain values.
pub struct ConfigView {
    pub socket: Option<Seq<char>>,
    pub allow_reboot: bool,
    pub allow_update: bool,
    pub software_allowed: Seq<Seq<char>>,
    pub auto_adopt: bool,
    pub dismissed: Seq<Seq<char>>,
    pub services_allowed: Seq<Seq<char>>,
}

pub open spec fn config_view(c: &AgentConfig) -> ConfigView {
    ConfigView {
        socket: match c.socket {
            Some(s) => Some(s@),
            None => None,
        },
        allow_reboot: c.system.allow_reboot,
        allow_update: c.system.allow_update,
        software_allowed: texts(c.software.allowed@),
        auto_adopt: c.software.auto_adopt,
        dismissed: texts(c.software.dismissed@),
        services_allowed: texts(c.services.allowed@),
    }
}

/// Whether the top-level `name` is absent or a table.
pub open spec fn table_ok(doc: Seq<EntryView>, name: Seq<char>) -> bool {
    !(entry_of(doc, name) matches Some(ValueView::Item(_)))
}

/// `doc[table][key]` as a boolean: `default` when absent, `None` when it
/// is something else.
pub open spec fn bool_setting(doc: Seq<EntryView>, table: Seq<char>, key: Seq<char>, default: bool) -> Option<bool> {
    match lookup_item(doc, table, key) {
        None => Some(default),
        Some(ItemView::Bool(b)) => Some(b),
        _ => None,
    }
}

/// The strings of a list, when every item is one.
pub open spec fn all_texts(items: Seq<Option<Seq<char>>>) -> Option<Seq<Seq<char>>>
    decreases items.len(),
{
    if items.len() == 0 {
        Some(seq![])
    } else {
        match (all_texts(items.drop_last()), items.last()) {
            (Some(rest), Some(t)) => Some(rest.push(t)),
            _ => None,
        }
    }
}

/// `doc[table][key]` as a list of strings: empty when absent, `None` when
/// it is something else.
pub open spec fn list_setting(doc: Seq<EntryView>, table: Seq<char>, key: Seq<char>) -> Option<Seq<Seq<char>>> {
    match lookup_item(doc, table, key) {
        None => Some(seq![]),
        Some(ItemView::List(items)) => all_texts(items),
        _ => None,
    }
}

/// The socket: absent, or a string.
pub open spec fn socket_setting(doc: Seq<EntryView>) -> Option<Option<Seq<char>>> {
    match entry_of(doc, "socket"@) {
        None => Some(None),
        Some(ValueView::Item(ItemView::Text(s))) => Some(Some(s)),
        _ => None,
    }
}

/// The settings a document holds, or the first thing wrong with it (in
/// the order socket, `[system]`, `[software]`, `[services]`). Missing
/// tables and keys take their defaults; other keys are ignored.
pub open spec fn config_of(doc: Seq<EntryView>) -> Result<ConfigView, Seq<char>> {
    if socket_setting(doc) is None {
        Err("socket must be a string"@)
    } else if !table_ok(doc, "system"@) {
        Err("[system] must be a table"@)
    } else if bool_setting(doc, "system"@, "allow_reboot"@, false) is None {
        Err("system.allow_reboot must be true or false"@)
    } else if bool_setting(doc, "system"@, "allow_update"@, false) is None {
        Err("system.allow_update must be true or false"@)
    } else if !table_ok(doc, "software"@) {
        Err("[software] must be a table"@)
    } else if list_setting(doc, "software"@, "allowed"@) is None {
        Err("software.allowed must be a list of strings"@)
    } else if bool_setting(doc, "software"@, "auto_adopt"@, true) is None {
        Err("software.auto_adopt must be true or false"@)
    } else if list_setting(doc, "software"@, "dismissed"@) is None {
        Err("software.dismissed must be a list of strings"@)
    } else if !table_ok(doc, "services"@) {
        Err("[services] must be a table"@)
    } else if list_setting(doc, "services"@, "allowed"@) is None {
        Err("services.allowed must be a list of strings"@)
    } else {
        Ok(
            ConfigView {
                socket: socket_setting(doc).unwrap(),
                allow_reboot: bool_setting(doc, "system"@, "allow_reboot"@, false).unwrap(),
                allow_update: bool_setting(doc, "system"@, "allow_update"@, false).unwrap(),
                software_allowed: list_setting(doc, "software"@, "allowed"@).unwrap(),
                auto_adopt: bool_setting(doc, "software"@, "auto_adopt"@, true).unwrap(),
                dismissed: list_setting(doc, "software"@, "dismissed"@).unwrap(),
                services_allowed: list_setting(doc, "services"@, "allowed"@).unwrap(),
            },
        )
    }
}

/// What reading the file's text gives: the settings, or why not, each
/// reason after `prefix`.
pub open spec fn config_read_of(prefix: Seq<char>, text: Seq<char>) -> Result<ConfigView, Seq<char>> {
    match toml_document(text) {
        Err(e) => Err(prefix + e),
        Ok(doc) => match config_of(doc) {
            Ok(c) => Ok(c),
            Err(e) => Err(prefix + e),
        },
    }
}

/// What reading the file's text gives: the settings, or why not.
pub open spec fn config_text_of(text: Seq<char>) -> Result<ConfigView, Seq<char>> {
    config_read_of("invalid config: "@, text)
}

/// What the Agent reads at start from the file at `path`: the settings, or
/// `invalid config PATH: REASON`.
pub open spec fn config_file_of(path: Seq<char>, text: Seq<char>) -> Result<ConfigView, Seq<char>> {
    config_read_of("invalid config "@ + path + ": "@, text)
}

fn table_is_ok(doc: &Vec<TomlEntry>, name: &str) -> (r: bool)
    ensures
        r == table_ok(doc_view(doc@), name@),
{
    match find_entry(doc, name) {
        Some(i) => match &doc[i].1 {
            TomlValue::Table(_) => true,
            TomlValue::Item(_) => false,
        },
        None => true,
    }
}

fn read_bool(doc: &Vec<TomlEntry>, table: &str, key: &str, default: bool) -> (r: Option<bool>)
    ensures
        r == bool_setting(doc_view(doc@), table@, key@, default),
{
    match get_item(doc, table, key) {
        None => Some(default),
        Some(TomlItem::Bool(b)) => Some(*b),
        Some(_) => None,
    }
}

fn read_texts(items: &Vec<Option<String>>) -> (r: Option<Vec<String>>)
    ensures
        match all_texts(opt_texts(items@)) {
            Some(t) => r matches Some(v) && texts(v@) == t,
            None => r is None,
        },
{
    let ghost all = opt_texts(items@);
    let mut out: Vec<String> = Vec::new();
    let mut i: usize = 0;
    while i < items.len()
        invariant
            i <= items@.len(),
            all == opt_texts(items@),
            all_texts(all.take(i as int)) == Some(texts(out@)),
        decreases items@.len() - i,
    {
        assert(all.take(i + 1).drop_last() =~= all.take(i as int));
        match &items[i] {
            Some(t) => {
                let ghost before = out@;
                out.push(t.clone());
                assert(texts(out@) =~= texts(before).push(t@));
            },
            None => {
                proof {
                    lemma_all_texts_stays_none(all, i as int);
                }
                return None;
            },
        }
        i = i + 1;
    }
    assert(all.take(items@.len() as int) =~= all);
    Some(out)
}

proof fn lemma_all_texts_stays_none(items: Seq<Option<Seq<char>>>, i: int)
    requires
        0 <= i < items.len(),
        items[i] is None,
    ensures
        all_texts(items) is None,
    decreases items.len(),
{
    if i < items.len() - 1 {
        lemma_all_texts_stays_none(items.drop_last(), i);
    }
}

fn read_list(doc: &Vec<TomlEntry>, table: &str, key: &str) -> (r: Option<Vec<String>>)
    ensures
        match list_setting(doc_view(doc@), table@, key@) {
            Some(t) => r matches Some(v) && texts(v@) == t,
            None => r is None,
        },
{
    match get_item(doc, table, key) {
        None => Some(Vec::new()),
        Some(TomlItem::List(items)) => read_texts(items),
        Some(_) => None,
    }
}

fn read_socket(doc: &Vec<TomlEntry>) -> (r: Option<Option<String>>)
    ensures
        match socket_setting(doc_view(doc@)) {
            Some(Some(s)) => r matches Some(Some(x)) && x@ == s,
            Some(None) => r == Some(None::<String>),
            None => r is None,
        },
{
    match find_entry(doc, "socket") {
        None => Some(None),
        Some(i) => match &doc[i].1 {
            TomlValue::Item(TomlItem::Text(s)) => Some(Some(s.clone())),
            _ => None,
        },
    }
}

fn invalid(message: &str) -> (r: Result<AgentConfig, String>)
    ensures
        r matches Err(e) && e@ == message@,
{
    Err(owned(message))
}

/// The settings a parsed config file holds, or the first thing wrong with
/// them.
pub fn config_from_document(doc: &Vec<TomlEntry>) -> (r: Result<AgentConfig, String>)
    ensures
        match config_of(doc_view(doc@)) {
            Ok(c) => r matches Ok(x) && config_view(&x) == c,
            Err(m) => r matches Err(e) && e@ == m,
        },
{
    let ghost dv = doc_view(doc@);
    let socket = match read_socket(doc) {
        Some(s) => s,
        None => return invalid("socket must be a string"),
    };
    if !table_is_ok(doc, "system") {
        return invalid("[system] must be a table");
    }
    let allow_reboot = match read_bool(doc, "system", "allow_reboot", false) {
        Some(b) => b,
        None => return invalid("system.allow_reboot must be true or false"),
    };
    let allow_update = match read_bool(doc, "system", "allow_update", false) {
        Some(b) => b,
        None => return invalid("system.allow_update must be true or false"),
    };
    if !table_is_ok(doc, "software") {
        return invalid("[software] must be a table");
    }
    let software_allowed = match read_list(doc, "software", "allowed") {
        Some(l) => l,
        None => return invalid("software.allowed must be a list of strings"),
    };
    let auto_adopt = match read_bool(doc, "software", "auto_adopt", true) {
        Some(b) => b,
        None => return invalid("software.auto_adopt must be true or false"),
    };
    let dismissed = match read_list(doc, "software", "dismissed") {
        Some(l) => l,
        None => return invalid("software.dismissed must be a list of strings"),
    };
    if !table_is_ok(doc, "services") {
        return invalid("[services] must be a table");
    }
    let services_allowed = match read_list(doc, "services", "allowed") {
        Some(l) => l,
        None => return invalid("services.allowed must be a list of strings"),
    };
    Ok(
        AgentConfig {
            socket,
            system: SystemConfig { allow_reboot, allow_update },
            software: SoftwareConfig { allowed: software_allowed, auto_adopt, dismissed },
            services: ServicesConfig { allowed: services_allowed },
        },
    )
}

/// The settings in the config file's text, each reason after `prefix`.
fn read_with_prefix(prefix: String, text: &str) -> (r: Result<AgentConfig, AgentError>)
    ensures
        match config_read_of(prefix@, text@) {
            Ok(c) => r matches Ok(x) && config_view(&x) == c,
            Err(m) => r matches Err(e) && e.message@ == m,
        },
{
    let mut m = prefix;
    match parse_toml(text) {
        Ok(doc) => match config_from_document(&doc) {
            Ok(c) => Ok(c),
            Err(reason) => {
                push_str(&mut m, reason.as_str());
                Err(AgentError::internal(m.as_str()))
            },
        },
        Err(error) => {
            push_str(&mut m, error.as_str());
            Err(AgentError::internal(m.as_str()))
        },
    }
}

/// The settings in the config file's text.
pub fn read_config(text: &str) -> (r: Result<AgentConfig, AgentError>)
    ensures
        match config_text_of(text@) {
            Ok(c) => r matches Ok(x) && config_view(&x) == c,
            Err(m) => r matches Err(e) && e.message@ == m,
        },
{
    read_with_prefix(owned("invalid config: "), text)
}

/// The settings the Agent starts with, from the text of the file at `path`:
/// an unreadable file is refused as `invalid config PATH: REASON`.
pub fn load_config(path: &str, text: &str) -> (r: Result<AgentConfig, AgentError>)
    ensures
        match config_file_of(path@, text@) {
            Ok(c) => r matches Ok(x) && config_view(&x) == c,
            Err(m) => r matches Err(e) && e.message@ == m,
        },
{
    let mut prefix = owned("invalid config ");
    push_str(&mut prefix, path);
    push_str(&mut prefix, ": ");
    read_with_prefix(prefix, text)
}

} // verus!
