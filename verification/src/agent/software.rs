//! Package management: which names may be managed, and the reading of what
//! apt, dnf, pacman, zypper and rpm report.

use vstd::prelude::*;

use crate::agent::error::{AgentError, ErrorKind};
use crate::agent::services::opt_text;
use crate::text::{
    alnum, chars_of, filter_map, find_char, first_some, is_alnum, lemma_filter_map_step,
    lemma_first_some_end, lemma_first_some_step, lines, pair_texts, skip_ws, span_is,
    span_starts_with, spans_are, split, split_char, split_lines, split_once, split_words,
    starts_with, string_of, trim, trim_span, trim_start, words,
};

verus! {

/// The package managers of the systemd-based distributions Deckox targets.
#[derive(Debug, Clone, Copy, PartialEq, Eq, Structural)]
pub enum PackageManager {
    Apt,
    Dnf,
    Pacman,
    Zypper,
}

pub open spec fn is_package_char(c: char) -> bool {
    is_alnum(c) || c == '+' || c == '-' || c == '.' || c == '_'
}

/// A package name: 1 to 100 characters from `[A-Za-z0-9+-._]`, starting
/// with an ASCII letter or digit.
pub open spec fn valid_package_name(name: Seq<char>) -> bool {
    &&& 0 < name.len() <= 100
    &&& is_alnum(name[0])
    &&& forall|i: int| 0 <= i < name.len() ==> is_package_char(#[trigger] name[i])
}

pub fn package_name_is_valid(name: &str) -> (r: bool)
    ensures
        r == valid_package_name(name@),
{
    let v = chars_of(name);
    let n = v.len();
    if n == 0 || n > 100 || !alnum(v[0]) {
        return false;
    }
    let mut i: usize = 0;
    while i < n
        invariant
            n == v@.len(),
            v@ == name@,
            i <= n,
            forall|j: int| 0 <= j < i ==> is_package_char(#[trigger] v@[j]),
        decreases n - i,
    {
        let c = v[i];
        if !(alnum(c) || c == '+' || c == '-' || c == '.' || c == '_') {
            return false;
        }
        i = i + 1;
    }
    true
}

/// `Ok` exactly for a valid package name.
pub fn validate_package_name(name: &str) -> (r: Result<(), AgentError>)
    ensures
        r is Ok <==> valid_package_name(name@),
        r matches Err(e) ==> e.kind == ErrorKind::BadRequest && e.message@
            == "invalid package name"@,
{
    if package_name_is_valid(name) {
        Ok(())
    } else {
        Err(AgentError::bad_request("invalid package name"))
    }
}

// ---------------------------------------------------------------------------
// Labeled fields (`Candidate:`, `Version :`)
// ---------------------------------------------------------------------------

/// The value of a `<label> :` line, trimmed: the trimmed line starts with
/// `label`, then optional whitespace and a colon.
pub open spec fn labeled_value(line: Seq<char>, label: Seq<char>) -> Option<Seq<char>> {
    let t = trim(line);
    if starts_with(t, label) {
        let rest = trim_start(t.skip(label.len() as int));
        if rest.len() > 0 && rest[0] == ':' {
            Some(trim(rest.drop_first()))
        } else {
            None
        }
    } else {
        None
    }
}

/// The first labeled line decides; an empty value or `(none)` is absent.
pub open spec fn labeled_version(output: Seq<char>, label: Seq<char>) -> Option<Seq<char>> {
    match first_some(lines(output), |l: Seq<char>| labeled_value(l, label)) {
        Some(value) => if value.len() == 0 || value == "(none)"@ {
            None
        } else {
            Some(value)
        },
        None => None,
    }
}

/// The trimmed value of `v[start..end]` as a labeled line, as a span.
fn labeled_span(v: &Vec<char>, start: usize, end: usize, label: &str) -> (r: Option<(usize, usize)>)
    requires
        start <= end <= v@.len(),
    ensures
        match labeled_value(v@.subrange(start as int, end as int), label@) {
            Some(value) => r matches Some(p) && p.0 <= p.1 <= v@.len() && v@.subrange(
                p.0 as int,
                p.1 as int,
            ) == value,
            None => r is None,
        },
{
    let (ts, te) = trim_span(v, start, end);
    let ghost t = v@.subrange(ts as int, te as int);
    if !span_starts_with(v, ts, te, label) {
        assert(label@.len() <= t.len() ==> t.take(label@.len() as int) =~= v@.subrange(
            ts as int,
            ts + label@.len(),
        ));
        return None;
    }
    let lv = chars_of(label);
    let after = ts + lv.len();
    assert(t.take(label@.len() as int) =~= v@.subrange(ts as int, ts + label@.len()));
    assert(t.skip(label@.len() as int) =~= v@.subrange(after as int, te as int));
    let r0 = skip_ws(v, after, te);
    let ghost rest = v@.subrange(r0 as int, te as int);
    assert(r0 < te ==> rest[0] == v@[r0 as int]);
    if r0 < te && v[r0] == ':' {
        assert(v@.subrange(r0 as int, te as int).drop_first() =~= v@.subrange(r0 + 1, te as int));
        let p = trim_span(v, r0 + 1, te);
        Some(p)
    } else {
        None
    }
}

/// Finds a `<label>:` line (whitespace allowed before the colon) and returns
/// its trimmed value; an empty value or `(none)` counts as absent.
pub fn parse_labeled_version(output: &str, label: &str) -> (r: Option<String>)
    ensures
        opt_text(r) == labeled_version(output@, label@),
{
    let v = chars_of(output);
    let spans = split_lines(&v);
    let ghost ls = lines(v@);
    let ghost f = |l: Seq<char>| labeled_value(l, label@);
    let mut k: usize = 0;
    proof {
        lemma_first_some_end(ls, f);
    }
    while k < spans.len()
        invariant
            spans_are(v@, spans@, ls),
            ls == lines(v@),
            v@ == output@,
            f == (|l: Seq<char>| labeled_value(l, label@)),
            k <= spans@.len(),
            first_some(ls, f) == first_some(ls.skip(k as int), f),
        decreases spans@.len() - k,
    {
        let (a, b) = spans[k];
        proof {
            lemma_first_some_step(ls, k as int, f);
        }
        match labeled_span(&v, a, b, label) {
            Some((s, e)) => {
                if s == e || span_is(&v, s, e, "(none)") {
                    return None;
                }
                return Some(string_of(&v, s, e));
            },
            None => {},
        }
        k = k + 1;
    }
    proof {
        lemma_first_some_end(ls, f);
    }
    None
}

/// apt-cache policy's `Candidate:` line.
pub fn parse_candidate_version(output: &str) -> (r: Option<String>)
    ensures
        opt_text(r) == labeled_version(output@, "Candidate"@),
{
    parse_labeled_version(output, "Candidate")
}

// ---------------------------------------------------------------------------
// Installed-package listings
// ---------------------------------------------------------------------------

/// dpkg's status ends in the word `installed` only for a present package.
pub open spec fn installed_status(status: Seq<char>) -> bool {
    words(status).len() > 0 && words(status).last() == "installed"@
}

pub fn is_installed_status(status: &str) -> (r: bool)
    ensures
        r == installed_status(status@),
{
    let v = chars_of(status);
    let w = split_words(&v, 0, v.len());
    assert(v@.subrange(0, v@.len() as int) =~= status@);
    if w.len() == 0 {
        return false;
    }
    let (a, b) = w[w.len() - 1];
    span_is(&v, a, b, "installed")
}

/// `name<TAB>version<TAB>status` rows of an installed package with a name.
pub open spec fn dpkg_row(line: Seq<char>) -> Option<(Seq<char>, Seq<char>)> {
    match split_once(line, '\t') {
        Some((name, rest)) => match split_once(rest, '\t') {
            Some((version, status)) => if name.len() > 0 && installed_status(status) {
                Some((name, version))
            } else {
                None
            },
            None => None,
        },
        None => None,
    }
}

/// `name<TAB>version` rows, without rpm's `gpg-pubkey` entries.
pub open spec fn tab_pair_row(line: Seq<char>) -> Option<(Seq<char>, Seq<char>)> {
    match split_once(line, '\t') {
        Some((name, version)) => if name.len() > 0 && name != "gpg-pubkey"@ {
            Some((name, trim(version)))
        } else {
            None
        },
        None => None,
    }
}

/// `name version` rows.
pub open spec fn space_pair_row(line: Seq<char>) -> Option<(Seq<char>, Seq<char>)> {
    match split_once(line, ' ') {
        Some((name, version)) => if name.len() > 0 {
            Some((name, trim(version)))
        } else {
            None
        },
        None => None,
    }
}

/// The three kinds of listing rows.
pub enum RowKind {
    Dpkg,
    TabPair,
    SpacePair,
}

pub open spec fn row_of(kind: RowKind, line: Seq<char>) -> Option<(Seq<char>, Seq<char>)> {
    match kind {
        RowKind::Dpkg => dpkg_row(line),
        RowKind::TabPair => tab_pair_row(line),
        RowKind::SpacePair => space_pair_row(line),
    }
}

/// One listing row of `v[start..end]`.
fn parse_row(v: &Vec<char>, start: usize, end: usize, kind: &RowKind) -> (r: Option<(String, String)>)
    requires
        start <= end <= v@.len(),
    ensures
        match row_of(*kind, v@.subrange(start as int, end as int)) {
            Some((a, b)) => r matches Some(p) && p.0@ == a && p.1@ == b,
            None => r is None,
        },
{
    let ghost line = v@.subrange(start as int, end as int);
    let sep = match kind {
        RowKind::SpacePair => ' ',
        _ => '\t',
    };
    let i = match find_char(v, start, end, sep) {
        Some(i) => i,
        None => return None,
    };
    assert(line.take(i - start) =~= v@.subrange(start as int, i as int));
    assert(line.skip(i - start + 1) =~= v@.subrange(i + 1, end as int));
    if i == start {
        return None;
    }
    match kind {
        RowKind::Dpkg => {
            let j = match find_char(v, i + 1, end, '\t') {
                Some(j) => j,
                None => return None,
            };
            let ghost rest = v@.subrange(i + 1, end as int);
            assert(rest.take(j - (i + 1)) =~= v@.subrange(i + 1, j as int));
            assert(rest.skip(j - (i + 1) + 1) =~= v@.subrange(j + 1, end as int));
            let status = string_of(v, j + 1, end);
            if !is_installed_status(status.as_str()) {
                return None;
            }
            Some((string_of(v, start, i), string_of(v, i + 1, j)))
        },
        RowKind::TabPair => {
            if span_is(v, start, i, "gpg-pubkey") {
                return None;
            }
            let (s, e) = trim_span(v, i + 1, end);
            Some((string_of(v, start, i), string_of(v, s, e)))
        },
        RowKind::SpacePair => {
            let (s, e) = trim_span(v, i + 1, end);
            Some((string_of(v, start, i), string_of(v, s, e)))
        },
    }
}

/// The rows of `output` of the given kind, in order.
fn parse_rows(output: &str, kind: RowKind) -> (r: Vec<(String, String)>)
    ensures
        pair_texts(r@) == filter_map(lines(output@), |l: Seq<char>| row_of(kind, l)),
{
    let v = chars_of(output);
    let spans = split_lines(&v);
    let ghost ls = lines(v@);
    let ghost f = |l: Seq<char>| row_of(kind, l);
    let mut out: Vec<(String, String)> = Vec::new();
    let mut k: usize = 0;
    while k < spans.len()
        invariant
            spans_are(v@, spans@, ls),
            ls == lines(v@),
            v@ == output@,
            f == (|l: Seq<char>| row_of(kind, l)),
            k <= spans@.len(),
            pair_texts(out@) == filter_map(ls.take(k as int), f),
        decreases spans@.len() - k,
    {
        let (a, b) = spans[k];
        proof {
            lemma_filter_map_step(ls, k as int, f);
        }
        match parse_row(&v, a, b, &kind) {
            Some(p) => {
                out.push(p);
                assert(pair_texts(out@) =~= filter_map(ls.take(k + 1), f));
            },
            None => {},
        }
        k = k + 1;
    }
    assert(ls.take(spans@.len() as int) =~= ls);
    out
}

/// `dpkg-query -W -f='${Package}\t${Version}\t${Status}\n'`: the installed
/// packages only.
pub fn parse_dpkg_installed(output: &str) -> (r: Vec<(String, String)>)
    ensures
        pair_texts(r@) == filter_map(lines(output@), |l: Seq<char>| dpkg_row(l)),
{
    let r = parse_rows(output, RowKind::Dpkg);
    assert(filter_map(lines(output@), |l: Seq<char>| row_of(RowKind::Dpkg, l)) =~= filter_map(
        lines(output@),
        |l: Seq<char>| dpkg_row(l),
    )) by {
        assert((|l: Seq<char>| row_of(RowKind::Dpkg, l)) =~= (|l: Seq<char>| dpkg_row(l)));
    }
    r
}

/// `rpm -qa --qf '%{NAME}\t%{VERSION}-%{RELEASE}\n'`, without `gpg-pubkey`.
pub fn parse_tab_pairs(output: &str) -> (r: Vec<(String, String)>)
    ensures
        pair_texts(r@) == filter_map(lines(output@), |l: Seq<char>| tab_pair_row(l)),
{
    let r = parse_rows(output, RowKind::TabPair);
    assert(filter_map(lines(output@), |l: Seq<char>| row_of(RowKind::TabPair, l)) =~= filter_map(
        lines(output@),
        |l: Seq<char>| tab_pair_row(l),
    )) by {
        assert((|l: Seq<char>| row_of(RowKind::TabPair, l)) =~= (|l: Seq<char>| tab_pair_row(l)));
    }
    r
}

/// `pacman -Q`.
pub fn parse_space_pairs(output: &str) -> (r: Vec<(String, String)>)
    ensures
        pair_texts(r@) == filter_map(lines(output@), |l: Seq<char>| space_pair_row(l)),
{
    let r = parse_rows(output, RowKind::SpacePair);
    assert(filter_map(lines(output@), |l: Seq<char>| row_of(RowKind::SpacePair, l))
        =~= filter_map(lines(output@), |l: Seq<char>| space_pair_row(l))) by {
        assert((|l: Seq<char>| row_of(RowKind::SpacePair, l)) =~= (|l: Seq<char>| space_pair_row(
            l,
        )));
    }
    r
}

// ---------------------------------------------------------------------------
// dnf list
// ---------------------------------------------------------------------------

/// Which section of `dnf list` output a row belongs to.
pub enum DnfSection {
    Unset,
    Installed,
    Available,
}

/// What has been read of `dnf list` output so far.
pub struct DnfState {
    pub section: DnfSection,
    pub installed: Option<Seq<char>>,
    pub available: Option<Seq<char>>,
}

/// One line of `dnf list`: a section header switches the section; a row of
/// at least two fields records its second field in the current section.
pub open spec fn dnf_step(s: DnfState, line: Seq<char>) -> DnfState {
    let t = trim(line);
    if t == "Installed Packages"@ {
        DnfState { section: DnfSection::Installed, ..s }
    } else if t == "Available Packages"@ {
        DnfState { section: DnfSection::Available, ..s }
    } else if t.len() == 0 || words(t).len() < 2 {
        s
    } else {
        match s.section {
            DnfSection::Installed => DnfState { installed: Some(words(t)[1]), ..s },
            DnfSection::Available => DnfState { available: Some(words(t)[1]), ..s },
            DnfSection::Unset => s,
        }
    }
}

pub open spec fn dnf_fold(ls: Seq<Seq<char>>) -> DnfState
    decreases ls.len(),
{
    if ls.len() == 0 {
        DnfState { section: DnfSection::Unset, installed: None, available: None }
    } else {
        dnf_step(dnf_fold(ls.drop_last()), ls.last())
    }
}

/// `(installed, available)` as `dnf --quiet list <package>` reports them.
pub open spec fn dnf_versions(output: Seq<char>) -> (Option<Seq<char>>, Option<Seq<char>>) {
    let s = dnf_fold(lines(output));
    (s.installed, s.available)
}

pub fn parse_dnf_list(output: &str) -> (r: (Option<String>, Option<String>))
    ensures
        (opt_text(r.0), opt_text(r.1)) == dnf_versions(output@),
{
    let v = chars_of(output);
    let spans = split_lines(&v);
    let ghost ls = lines(v@);
    // 0: no section yet, 1: installed, 2: available
    let mut section: u8 = 0;
    let mut installed: Option<String> = None;
    let mut available: Option<String> = None;
    let mut k: usize = 0;
    while k < spans.len()
        invariant
            spans_are(v@, spans@, ls),
            ls == lines(v@),
            v@ == output@,
            k <= spans@.len(),
            section <= 2,
            ({
                let st = dnf_fold(ls.take(k as int));
                &&& opt_text(installed) == st.installed
                &&& opt_text(available) == st.available
                &&& (section == 0 <==> st.section is Unset)
                &&& (section == 1 <==> st.section is Installed)
                &&& (section == 2 <==> st.section is Available)
            }),
        decreases spans@.len() - k,
    {
        let (a, b) = spans[k];
        assert(ls.take(k + 1).drop_last() =~= ls.take(k as int));
        let (s, e) = trim_span(&v, a, b);
        if span_is(&v, s, e, "Installed Packages") {
            section = 1;
        } else if span_is(&v, s, e, "Available Packages") {
            section = 2;
        } else if s < e {
            let fields = split_words(&v, s, e);
            if fields.len() >= 2 {
                let version = string_of(&v, fields[1].0, fields[1].1);
                if section == 1 {
                    installed = Some(version);
                } else if section == 2 {
                    available = Some(version);
                }
            }
        }
        k = k + 1;
    }
    assert(ls.take(spans@.len() as int) =~= ls);
    (installed, available)
}

// ---------------------------------------------------------------------------
// zypper list-updates
// ---------------------------------------------------------------------------

/// The trimmed `|`-separated columns of a line.
pub open spec fn columns(line: Seq<char>) -> Seq<Seq<char>> {
    split(line, '|').map_values(|c: Seq<char>| trim(c))
}

/// The `Available Version` column of a row whose `Name` column is `package`.
pub open spec fn zypper_row(line: Seq<char>, package: Seq<char>) -> Option<Seq<char>> {
    if columns(line).len() >= 5 && columns(line)[2] == package {
        Some(columns(line)[4])
    } else {
        None
    }
}

pub open spec fn zypper_update(output: Seq<char>, package: Seq<char>) -> Option<Seq<char>> {
    first_some(lines(output), |l: Seq<char>| zypper_row(l, package))
}

/// The pending-upgrade version of `package` in `zypper list-updates`'
/// table (`S | Repository | Name | Current Version | Available Version |
/// Arch`), from the first row that names it.
pub fn parse_zypper_list_updates(output: &str, package: &str) -> (r: Option<String>)
    ensures
        opt_text(r) == zypper_update(output@, package@),
{
    let v = chars_of(output);
    let spans = split_lines(&v);
    let ghost ls = lines(v@);
    let ghost f = |l: Seq<char>| zypper_row(l, package@);
    let mut k: usize = 0;
    proof {
        lemma_first_some_end(ls, f);
    }
    while k < spans.len()
        invariant
            spans_are(v@, spans@, ls),
            ls == lines(v@),
            v@ == output@,
            f == (|l: Seq<char>| zypper_row(l, package@)),
            k <= spans@.len(),
            first_some(ls, f) == first_some(ls.skip(k as int), f),
        decreases spans@.len() - k,
    {
        let (a, b) = spans[k];
        proof {
            lemma_first_some_step(ls, k as int, f);
        }
        let cols = split_char(&v, a, b, '|');
        let ghost pieces = split(v@.subrange(a as int, b as int), '|');
        if cols.len() >= 5 {
            let (c2s, c2e) = trim_span(&v, cols[2].0, cols[2].1);
            assert(columns(v@.subrange(a as int, b as int))[2] == trim(pieces[2]));
            if span_is(&v, c2s, c2e, package) {
                let (c4s, c4e) = trim_span(&v, cols[4].0, cols[4].1);
                assert(columns(v@.subrange(a as int, b as int))[4] == trim(pieces[4]));
                return Some(string_of(&v, c4s, c4e));
            }
        }
        k = k + 1;
    }
    proof {
        lemma_first_some_end(ls, f);
    }
    None
}

} // verus!
