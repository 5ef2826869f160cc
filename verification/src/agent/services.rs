//! systemd service control: which unit ids may be acted on, and the reading
//! of what `systemctl` and `journalctl` report.

use vstd::prelude::*;

use crate::agent::error::{AgentError, ErrorKind};
use crate::protocol::{ServiceLogPriority, ServiceSummary};
use crate::text::{
    chars_of, contains_text, ends_with, filter_map, find_char, is_alnum, join, lemma_filter_map_step,
    lines, owned, pair_texts, push_char, push_span, span_ends_with, span_is, spans_are, split_lines,
    split_once, split_words, string_of, texts, words, alnum,
};

verus! {

/// Deckox's own units; they are never controlled through the Agent.
pub open spec fn is_protected_service(id: Seq<char>) -> bool {
    id == "deckox-agent.service"@ || id == "deckox-server.service"@
}

pub open spec fn is_service_char(c: char) -> bool {
    is_alnum(c) || c == '@' || c == '_' || c == '.' || c == ':' || c == '-'
}

/// A systemd service id: 1 to 256 characters from `[A-Za-z0-9@_.:-]`,
/// starting with an ASCII letter or digit and ending in `.service`.
pub open spec fn valid_service_id(id: Seq<char>) -> bool {
    &&& 0 < id.len() <= 256
    &&& ends_with(id, ".service"@)
    &&& is_alnum(id[0])
    &&& forall|i: int| 0 <= i < id.len() ==> is_service_char(#[trigger] id[i])
}

pub fn service_id_is_valid(v: &Vec<char>) -> (r: bool)
    ensures
        r == valid_service_id(v@),
{
    let n = v.len();
    if n == 0 || n > 256 {
        return false;
    }
    if !span_ends_with(v, 0, n, ".service") {
        assert(v@.subrange(0, n as int) =~= v@);
        return false;
    }
    assert(v@.subrange(0, n as int) =~= v@);
    proof {
        reveal_strlit(".service");
        assert(v@.subrange(n - 8, n as int) =~= v@.skip(n - 8));
    }
    if !alnum(v[0]) {
        return false;
    }
    let mut i: usize = 0;
    while i < n
        invariant
            n == v@.len(),
            i <= n,
            forall|j: int| 0 <= j < i ==> is_service_char(#[trigger] v@[j]),
        decreases n - i,
    {
        let c = v[i];
        if !(alnum(c) || c == '@' || c == '_' || c == '.' || c == ':' || c == '-') {
            return false;
        }
        i = i + 1;
    }
    true
}

pub fn is_protected(id: &str) -> (r: bool)
    ensures
        r == is_protected_service(id@),
{
    let v = chars_of(id);
    assert(v@.subrange(0, v@.len() as int) =~= v@);
    span_is(&v, 0, v.len(), "deckox-agent.service") || span_is(
        &v,
        0,
        v.len(),
        "deckox-server.service",
    )
}

/// `Ok` exactly for a valid service id.
pub fn validate_service_id(service_id: &str) -> (r: Result<(), AgentError>)
    ensures
        r is Ok <==> valid_service_id(service_id@),
        r matches Err(e) ==> e.kind == ErrorKind::BadRequest && e.message@
            == "invalid systemd service id"@,
{
    let v = chars_of(service_id);
    if service_id_is_valid(&v) {
        Ok(())
    } else {
        Err(AgentError::bad_request("invalid systemd service id"))
    }
}

/// The services the Agent may start, stop and restart.
pub struct ServiceManager {
    allowed: Vec<String>,
}

impl View for ServiceManager {
    type V = Set<Seq<char>>;

    closed spec fn view(&self) -> Set<Seq<char>> {
        texts(self.allowed@).to_set()
    }
}

impl ServiceManager {
    #[verifier::type_invariant]
    closed spec fn inv(self) -> bool {
        forall|i: int|
            0 <= i < self.allowed@.len() ==> valid_service_id(#[trigger] self.allowed@[i]@)
                && !is_protected_service(self.allowed@[i]@)
    }

    /// Builds the allowlist; refuses it when any id is invalid or is one of
    /// Deckox's own services.
    pub fn new(allowed: Vec<String>) -> (r: Result<ServiceManager, AgentError>)
        ensures
            r is Ok <==> forall|i: int|
                0 <= i < allowed@.len() ==> valid_service_id(#[trigger] allowed@[i]@)
                    && !is_protected_service(allowed@[i]@),
            r matches Ok(m) ==> m@ == texts(allowed@).to_set(),
            r matches Err(e) ==> e.kind == ErrorKind::BadRequest,
    {
        let mut i: usize = 0;
        while i < allowed.len()
            invariant
                i <= allowed@.len(),
                forall|j: int|
                    0 <= j < i ==> valid_service_id(#[trigger] allowed@[j]@)
                        && !is_protected_service(allowed@[j]@),
            decreases allowed@.len() - i,
        {
            validate_service_id(allowed[i].as_str())?;
            if is_protected(allowed[i].as_str()) {
                return Err(AgentError::bad_request("service cannot be added to the control allowlist"));
            }
            i = i + 1;
        }
        Ok(ServiceManager { allowed })
    }

    pub fn is_allowed(&self, service_id: &str) -> (r: bool)
        ensures
            r == self@.contains(service_id@),
            r ==> valid_service_id(service_id@) && !is_protected_service(service_id@),
    {
        proof {
            use_type_invariant(self);
        }
        let key = owned(service_id);
        let r = contains_text(&self.allowed, &key);
        proof {
            if r {
                let i = choose|i: int| 0 <= i < texts(self.allowed@).len() && texts(self.allowed@)[i] == key@;
                assert(self.allowed@[i]@ == key@);
            }
        }
        r
    }

    /// The allowlist, in the order it was given.
    pub fn allowed_ids(&self) -> (r: Vec<String>)
        ensures
            texts(r@).to_set() == self@,
    {
        let mut out: Vec<String> = Vec::new();
        let mut i: usize = 0;
        while i < self.allowed.len()
            invariant
                i <= self.allowed@.len(),
                texts(out@) == texts(self.allowed@).take(i as int),
            decreases self.allowed@.len() - i,
        {
            out.push(owned(self.allowed[i].as_str()));
            assert(texts(self.allowed@).take(i + 1) =~= texts(self.allowed@).take(i as int).push(
                self.allowed@[i as int]@,
            ));
            assert(texts(out@) =~= texts(self.allowed@).take(i + 1));
            i = i + 1;
        }
        assert(texts(self.allowed@).take(self.allowed@.len() as int) =~= texts(self.allowed@));
        out
    }

    /// `Ok` exactly for an allow-listed service that is not one of Deckox's
    /// own; anything else is `Forbidden`.
    pub fn ensure_allowed(&self, service_id: &str) -> (r: Result<(), AgentError>)
        ensures
            r is Ok <==> !is_protected_service(service_id@) && self@.contains(service_id@),
            r matches Err(e) ==> e.kind == ErrorKind::Forbidden,
    {
        if is_protected(service_id) {
            return Err(AgentError::forbidden("Deckox services cannot be managed through the Agent"));
        }
        if !self.is_allowed(service_id) {
            return Err(AgentError::forbidden("service is not in the control allowlist"));
        }
        Ok(())
    }
}

/// The log lengths an admin may ask for.
pub open spec fn allowed_log_lines(lines: u16) -> bool {
    lines == 50 || lines == 100 || lines == 200 || lines == 500
}

pub fn validate_log_lines(lines: u16) -> (r: Result<(), AgentError>)
    ensures
        r is Ok <==> allowed_log_lines(lines),
        r matches Err(e) ==> e.kind == ErrorKind::BadRequest,
{
    if lines == 50 || lines == 100 || lines == 200 || lines == 500 {
        Ok(())
    } else {
        Err(AgentError::bad_request("log lines must be one of 50, 100, 200, or 500"))
    }
}

/// The `journalctl --priority` value for a filter; `None` means no filter.
pub open spec fn journal_priority_name(priority: ServiceLogPriority) -> Option<Seq<char>> {
    match priority {
        ServiceLogPriority::All => None,
        ServiceLogPriority::Error => Some("err"@),
        ServiceLogPriority::Warning => Some("warning"@),
        ServiceLogPriority::Info => Some("info"@),
    }
}

pub fn journal_priority(priority: ServiceLogPriority) -> (r: Option<&'static str>)
    ensures
        match journal_priority_name(priority) {
            Some(name) => r matches Some(s) && s@ == name,
            None => r is None,
        },
{
    match priority {
        ServiceLogPriority::All => None,
        ServiceLogPriority::Error => Some("err"),
        ServiceLogPriority::Warning => Some("warning"),
        ServiceLogPriority::Info => Some("info"),
    }
}

// ---------------------------------------------------------------------------
// Log messages
// ---------------------------------------------------------------------------

/// The most bytes of one log message that are passed on.
pub const MAX_LOG_MESSAGE_BYTES: u64 = 8192;

/// Bytes of `c` in UTF-8.
pub open spec fn utf8_width(c: char) -> nat {
    let n = c as u32;
    if n < 0x80 {
        1
    } else if n < 0x800 {
        2
    } else if n < 0x10000 {
        3
    } else {
        4
    }
}

/// Bytes of `s` in UTF-8 (`str::len`).
pub open spec fn utf8_len(s: Seq<char>) -> nat
    decreases s.len(),
{
    if s.len() == 0 {
        0
    } else {
        utf8_len(s.drop_last()) + utf8_width(s.last())
    }
}

/// The longest prefix of `s` whose UTF-8 encoding fits in `budget` bytes.
pub open spec fn prefix_within(s: Seq<char>, budget: nat) -> Seq<char>
    decreases s.len(),
{
    if s.len() > 0 && utf8_width(s[0]) <= budget {
        seq![s[0]] + prefix_within(s.drop_first(), (budget - utf8_width(s[0])) as nat)
    } else {
        seq![]
    }
}

/// A message cut to at most `MAX_LOG_MESSAGE_BYTES` bytes at a character
/// boundary, marked with `…` when it was cut.
pub open spec fn truncated_message(s: Seq<char>) -> Seq<char> {
    if utf8_len(s) <= MAX_LOG_MESSAGE_BYTES {
        s
    } else {
        prefix_within(s, (MAX_LOG_MESSAGE_BYTES - 3) as nat).push('\u{2026}')
    }
}

fn char_width(c: char) -> (w: u64)
    ensures
        w as nat == utf8_width(c),
{
    let n = c as u32;
    if n < 0x80 {
        1
    } else if n < 0x800 {
        2
    } else if n < 0x10000 {
        3
    } else {
        4
    }
}

proof fn lemma_utf8_len_prefix(s: Seq<char>, k: int)
    requires
        0 <= k < s.len(),
    ensures
        utf8_len(s.take(k + 1)) == utf8_len(s.take(k)) + utf8_width(s[k]),
{
    assert(s.take(k + 1).drop_last() =~= s.take(k));
}

proof fn lemma_utf8_len_ge(s: Seq<char>, k: int)
    requires
        0 <= k <= s.len(),
    ensures
        utf8_len(s.take(k)) <= utf8_len(s),
    decreases s.len() - k,
{
    if k < s.len() {
        lemma_utf8_len_prefix(s, k);
        lemma_utf8_len_ge(s, k + 1);
    } else {
        assert(s.take(k) =~= s);
    }
}

/// Whether `s` takes at most `limit` bytes in UTF-8.
pub fn utf8_len_within(s: &str, limit: u64) -> (r: bool)
    ensures
        r == (utf8_len(s@) <= limit),
{
    let v = chars_of(s);
    let mut used: u64 = 0;
    let mut k: usize = 0;
    while k < v.len()
        invariant
            k <= v@.len(),
            v@ == s@,
            used as nat == utf8_len(v@.take(k as int)),
            used <= limit,
        decreases v@.len() - k,
    {
        proof {
            lemma_utf8_len_prefix(v@, k as int);
        }
        let w = char_width(v[k]);
        if w > limit - used {
            proof {
                lemma_utf8_len_ge(v@, k + 1);
            }
            return false;
        }
        used = used + w;
        k = k + 1;
    }
    assert(v@.take(k as int) =~= v@);
    true
}

/// The UTF-8 length of `s`, or `limit + 1` when it is longer than `limit`.
pub fn utf8_len_capped(s: &str, limit: u64) -> (r: u64)
    requires
        limit < u64::MAX,
    ensures
        r == if utf8_len(s@) <= limit {
            utf8_len(s@) as int
        } else {
            limit + 1
        },
{
    let v = chars_of(s);
    let mut used: u64 = 0;
    let mut k: usize = 0;
    while k < v.len()
        invariant
            k <= v@.len(),
            v@ == s@,
            used as nat == utf8_len(v@.take(k as int)),
            used <= limit,
            limit < u64::MAX,
        decreases v@.len() - k,
    {
        proof {
            lemma_utf8_len_prefix(v@, k as int);
        }
        let w = char_width(v[k]);
        if w > limit - used {
            proof {
                lemma_utf8_len_ge(v@, k + 1);
            }
            return limit + 1;
        }
        used = used + w;
        k = k + 1;
    }
    assert(v@.take(k as int) =~= v@);
    used
}

proof fn lemma_prefix_within_take(s: Seq<char>, k: int, budget: nat)
    requires
        0 <= k <= s.len(),
        utf8_len(s.take(k)) <= budget,
        k == s.len() || utf8_len(s.take(k)) + utf8_width(s[k]) > budget,
    ensures
        prefix_within(s, budget) == s.take(k),
    decreases k,
{
    if k == 0 {
        if s.len() > 0 {
            assert(s.take(1).drop_last() =~= s.take(0));
            assert(s.take(0) =~= Seq::<char>::empty());
        }
    } else {
        let t = s.drop_first();
        let w = utf8_width(s[0]);
        lemma_utf8_len_first(s.take(k));
        assert(s.take(k).drop_first() =~= t.take(k - 1));
        assert(utf8_width(s[0]) <= budget);
        if k < s.len() {
            lemma_utf8_len_first(s.take(k + 1));
            assert(s.take(k + 1).drop_first() =~= t.take(k));
            lemma_utf8_len_prefix(t, k - 1);
            lemma_utf8_len_prefix(s, k);
        }
        lemma_prefix_within_take(t, k - 1, (budget - w) as nat);
        assert(seq![s[0]] + t.take(k - 1) =~= s.take(k));
    }
}

proof fn lemma_utf8_len_first(s: Seq<char>)
    requires
        s.len() > 0,
    ensures
        utf8_len(s) == utf8_width(s[0]) + utf8_len(s.drop_first()),
    decreases s.len(),
{
    if s.len() > 1 {
        lemma_utf8_len_first(s.drop_last());
        assert(s.drop_last().drop_first() =~= s.drop_first().drop_last());
    } else {
        assert(s.drop_first() =~= Seq::<char>::empty());
        assert(s.drop_last() =~= Seq::<char>::empty());
    }
}

/// Cuts a journal message to `MAX_LOG_MESSAGE_BYTES` bytes, on a character
/// boundary, with `…` at the end when something was cut.
pub fn truncate_message(message: &str) -> (r: String)
    ensures
        r@ == truncated_message(message@),
{
    let v = chars_of(message);
    let n = v.len();
    let budget: u64 = MAX_LOG_MESSAGE_BYTES - 3;
    // Longest prefix within the budget, and whether the whole fits the limit.
    let mut k: usize = 0;
    let mut used: u64 = 0;
    let mut cut: usize = 0;
    let mut cut_found = false;
    while k < n
        invariant
            n == v@.len(),
            v@ == message@,
            budget == MAX_LOG_MESSAGE_BYTES - 3,
            k <= n,
            used as nat == utf8_len(v@.take(k as int)),
            used <= MAX_LOG_MESSAGE_BYTES,
            cut_found ==> cut <= k && utf8_len(v@.take(cut as int)) <= budget && utf8_len(
                v@.take(cut as int),
            ) + utf8_width(v@[cut as int]) > budget && cut < n,
            !cut_found ==> used <= budget,
        decreases n - k,
    {
        let w = char_width(v[k]);
        proof {
            lemma_utf8_len_prefix(v@, k as int);
        }
        if !cut_found && used + w > budget {
            cut_found = true;
            cut = k;
        }
        if used + w > MAX_LOG_MESSAGE_BYTES {
            proof {
                lemma_utf8_len_ge(v@, k + 1);
                assert(v@.take(n as int) =~= v@);
                lemma_prefix_within_take(v@, cut as int, budget as nat);
            }
            let mut out = string_of(&v, 0, cut);
            push_char(&mut out, '\u{2026}');
            assert(v@.subrange(0, cut as int) =~= v@.take(cut as int));
            assert(utf8_len(message@) > MAX_LOG_MESSAGE_BYTES);
            assert(prefix_within(message@, (MAX_LOG_MESSAGE_BYTES - 3) as nat) == v@.take(cut as int));
            assert(out@ == truncated_message(message@));
            return out;
        }
        used = used + w;
        k = k + 1;
    }
    assert(v@.take(n as int) =~= v@);
    assert(v@.subrange(0, n as int) =~= v@);
    string_of(&v, 0, n)
}

// ---------------------------------------------------------------------------
// systemctl output
// ---------------------------------------------------------------------------

/// `key=value` lines, split at the first `=`; other lines are skipped.
pub open spec fn property_line(line: Seq<char>) -> Option<(Seq<char>, Seq<char>)> {
    split_once(line, '=')
}

/// The properties `systemctl show` printed, in order.
pub open spec fn properties_of(input: Seq<char>) -> Seq<(Seq<char>, Seq<char>)> {
    filter_map(lines(input), |l: Seq<char>| property_line(l))
}

/// The value of the last pair with key `key`.
pub open spec fn last_value(pairs: Seq<(Seq<char>, Seq<char>)>, key: Seq<char>) -> Option<Seq<char>>
    decreases pairs.len(),
{
    if pairs.len() == 0 {
        None
    } else if pairs.last().0 == key {
        Some(pairs.last().1)
    } else {
        last_value(pairs.drop_last(), key)
    }
}

/// `last_value` is the value of the last pair with the key, and `None`
/// exactly when no pair has it.
pub proof fn lemma_last_value(pairs: Seq<(Seq<char>, Seq<char>)>, key: Seq<char>)
    ensures
        match last_value(pairs, key) {
            Some(v) => crate::text::last_value_is(pairs, key, v),
            None => !crate::text::has_key(pairs, key),
        },
    decreases pairs.len(),
{
    if pairs.len() > 0 {
        let d = pairs.drop_last();
        let p = pairs.last();
        assert(d.push(p) =~= pairs);
        lemma_last_value(d, key);
        match last_value(d, key) {
            Some(v) => crate::text::lemma_last_value_push(d, p, key, v),
            None => crate::text::lemma_last_value_push(d, p, key, seq![]),
        }
    }
}

/// Splits `v[start..end]` at its first `sep`.
pub fn split_once_span(v: &Vec<char>, start: usize, end: usize, sep: char) -> (r: Option<(String, String)>)
    requires
        start <= end <= v@.len(),
    ensures
        match split_once(v@.subrange(start as int, end as int), sep) {
            Some((a, b)) => r matches Some(p) && p.0@ == a && p.1@ == b,
            None => r is None,
        },
{
    match find_char(v, start, end, sep) {
        None => None,
        Some(i) => {
            let ghost s = v@.subrange(start as int, end as int);
            assert(s.take(i - start) =~= v@.subrange(start as int, i as int));
            assert(s.skip(i - start + 1) =~= v@.subrange(i + 1, end as int));
            Some((string_of(v, start, i), string_of(v, i + 1, end)))
        },
    }
}

/// Parses `systemctl show` output into its `key=value` pairs; when a key
/// repeats, the later value is the one that counts (see `property_value`).
pub fn parse_properties(input: &str) -> (r: Vec<(String, String)>)
    ensures
        pair_texts(r@) == properties_of(input@),
{
    let v = chars_of(input);
    let spans = split_lines(&v);
    let ghost ls = lines(v@);
    let ghost f = |l: Seq<char>| property_line(l);
    let mut out: Vec<(String, String)> = Vec::new();
    let mut k: usize = 0;
    while k < spans.len()
        invariant
            spans_are(v@, spans@, ls),
            ls == lines(v@),
            f == (|l: Seq<char>| property_line(l)),
            k <= spans@.len(),
            pair_texts(out@) == filter_map(ls.take(k as int), f),
        decreases spans@.len() - k,
    {
        let (a, b) = spans[k];
        proof {
            lemma_filter_map_step(ls, k as int, f);
        }
        match split_once_span(&v, a, b, '=') {
            Some(p) => {
                out.push(p);
                assert(pair_texts(out@) =~= filter_map(ls.take(k + 1), f));
            },
            None => {},
        }
        k = k + 1;
    }
    assert(ls.take(spans@.len() as int) =~= ls);
    out
}

/// The value recorded for `key`, the last one when the key repeats.
pub fn property_value(pairs: &Vec<(String, String)>, key: &str) -> (r: Option<String>)
    ensures
        match last_value(pair_texts(pairs@), key@) {
            Some(value) => r matches Some(s) && s@ == value,
            None => r is None,
        },
{
    let k = owned(key);
    let mut i = pairs.len();
    assert(pair_texts(pairs@).take(i as int) =~= pair_texts(pairs@));
    while i > 0
        invariant
            i <= pairs@.len(),
            last_value(pair_texts(pairs@), key@) == last_value(pair_texts(pairs@).take(i as int), key@),
            k@ == key@,
        decreases i,
    {
        assert(pair_texts(pairs@).take(i as int).drop_last() =~= pair_texts(pairs@).take(i - 1));
        if pairs[i - 1].0 == k {
            return Some(owned(pairs[i - 1].1.as_str()));
        }
        i = i - 1;
    }
    assert(pair_texts(pairs@).take(0) =~= Seq::<(Seq<char>, Seq<char>)>::empty());
    None
}

/// Optional texts.
pub open spec fn opt_text(o: Option<String>) -> Option<Seq<char>> {
    match o {
        Some(s) => Some(s@),
        None => None,
    }
}

/// A `systemctl list-units` row: id, load, active and sub state, then the
/// description; rows with fewer than four fields are skipped.
pub open spec fn service_row(line: Seq<char>) -> Option<Seq<Seq<char>>> {
    if words(line).len() >= 4 {
        Some(words(line))
    } else {
        None
    }
}

pub open spec fn service_rows(input: Seq<char>) -> Seq<Seq<Seq<char>>> {
    filter_map(lines(input), |l: Seq<char>| service_row(l))
}

/// What one row becomes.
pub open spec fn summary_matches(
    s: ServiceSummary,
    row: Seq<Seq<char>>,
    states: Seq<(Seq<char>, Seq<char>)>,
    allowed: Set<Seq<char>>,
) -> bool {
    &&& s.id@ == row[0]
    &&& s.load_state@ == row[1]
    &&& s.active_state@ == row[2]
    &&& s.sub_state@ == row[3]
    &&& s.description@ == join(row.skip(4), " "@)
    &&& opt_text(s.unit_file_state) == last_value(states, row[0])
    &&& s.control_allowed == allowed.contains(row[0])
}

/// Joins the texts of the spans `spans[from..]` with single spaces.
fn join_spans(v: &Vec<char>, spans: &Vec<(usize, usize)>, from: usize, pieces: Ghost<Seq<Seq<char>>>) -> (r: String)
    requires
        spans_are(v@, spans@, pieces@),
        from <= spans@.len(),
    ensures
        r@ == join(pieces@.skip(from as int), " "@),
{
    let mut out = String::new();
    let mut i = from;
    proof {
        reveal_strlit(" ");
        assert(pieces@.skip(from as int).take(0) =~= Seq::<Seq<char>>::empty());
    }
    while i < spans.len()
        invariant
            spans_are(v@, spans@, pieces@),
            from <= i <= spans@.len(),
            out@ == join(pieces@.skip(from as int).take(i - from), " "@),
            " "@ == seq![' '],
        decreases spans@.len() - i,
    {
        let ghost items = pieces@.skip(from as int).take(i + 1 - from);
        assert(items.drop_last() =~= pieces@.skip(from as int).take(i - from));
        assert(items.last() == pieces@[i as int]);
        if i > from {
            push_char(&mut out, ' ');
        } else {
            assert(items.len() == 1);
        }
        let (a, b) = spans[i];
        push_span(&mut out, v, a, b);
        i = i + 1;
    }
    assert(pieces@.skip(from as int).take(spans@.len() - from) =~= pieces@.skip(from as int));
    out
}

/// The text of `v[start..end]` with each span looked up as a key.
fn lookup_pairs(pairs: &Vec<(String, String)>, key: &String) -> (r: Option<String>)
    ensures
        opt_text(r) == last_value(pair_texts(pairs@), key@),
{
    property_value(pairs, key.as_str())
}

/// Reads `systemctl list-units` output, attaching each service's unit-file
/// state (`systemctl list-unit-files`) and whether it may be controlled.
pub fn parse_service_list(
    input: &str,
    unit_file_states: &Vec<(String, String)>,
    allowed: &ServiceManager,
) -> (r: Vec<ServiceSummary>)
    ensures
        r@.len() == service_rows(input@).len(),
        forall|k: int|
            0 <= k < r@.len() ==> summary_matches(
                #[trigger] r@[k],
                service_rows(input@)[k],
                pair_texts(unit_file_states@),
                allowed@,
            ),
{
    let v = chars_of(input);
    let spans = split_lines(&v);
    let ghost ls = lines(v@);
    let ghost f = |l: Seq<char>| service_row(l);
    let mut out: Vec<ServiceSummary> = Vec::new();
    let mut k: usize = 0;
    while k < spans.len()
        invariant
            spans_are(v@, spans@, ls),
            ls == lines(v@),
            v@ == input@,
            f == (|l: Seq<char>| service_row(l)),
            k <= spans@.len(),
            out@.len() == filter_map(ls.take(k as int), f).len(),
            forall|j: int|
                0 <= j < out@.len() ==> summary_matches(
                    #[trigger] out@[j],
                    filter_map(ls.take(k as int), f)[j],
                    pair_texts(unit_file_states@),
                    allowed@,
                ),
        decreases spans@.len() - k,
    {
        let (a, b) = spans[k];
        proof {
            lemma_filter_map_step(ls, k as int, f);
        }
        let fields = split_words(&v, a, b);
        if fields.len() >= 4 {
            let ghost row = words(v@.subrange(a as int, b as int));
            let id = string_of(&v, fields[0].0, fields[0].1);
            let load_state = string_of(&v, fields[1].0, fields[1].1);
            let active_state = string_of(&v, fields[2].0, fields[2].1);
            let sub_state = string_of(&v, fields[3].0, fields[3].1);
            let description = join_spans(&v, &fields, 4, Ghost(row));
            let unit_file_state = lookup_pairs(unit_file_states, &id);
            let control_allowed = allowed.is_allowed(id.as_str());
            let summary = ServiceSummary {
                id,
                description,
                load_state,
                active_state,
                sub_state,
                unit_file_state,
                control_allowed,
            };
            let ghost before = out@;
            out.push(summary);
            assert forall|j: int| 0 <= j < out@.len() implies summary_matches(
                #[trigger] out@[j],
                filter_map(ls.take(k + 1), f)[j],
                pair_texts(unit_file_states@),
                allowed@,
            ) by {
                if j < before.len() {
                    assert(out@[j] == before[j]);
                }
            }
        }
        k = k + 1;
    }
    assert(ls.take(spans@.len() as int) =~= ls);
    out
}

/// `systemctl list-unit-files` rows: the first two fields of each row with
/// at least two.
pub open spec fn unit_file_row(line: Seq<char>) -> Option<(Seq<char>, Seq<char>)> {
    if words(line).len() >= 2 {
        Some((words(line)[0], words(line)[1]))
    } else {
        None
    }
}

pub fn parse_unit_file_states(input: &str) -> (r: Vec<(String, String)>)
    ensures
        pair_texts(r@) == filter_map(lines(input@), |l: Seq<char>| unit_file_row(l)),
{
    let v = chars_of(input);
    let spans = split_lines(&v);
    let ghost ls = lines(v@);
    let ghost f = |l: Seq<char>| unit_file_row(l);
    let mut out: Vec<(String, String)> = Vec::new();
    let mut k: usize = 0;
    while k < spans.len()
        invariant
            spans_are(v@, spans@, ls),
            ls == lines(v@),
            f == (|l: Seq<char>| unit_file_row(l)),
            k <= spans@.len(),
            pair_texts(out@) == filter_map(ls.take(k as int), f),
        decreases spans@.len() - k,
    {
        let (a, b) = spans[k];
        proof {
            lemma_filter_map_step(ls, k as int, f);
        }
        let fields = split_words(&v, a, b);
        if fields.len() >= 2 {
            let first = string_of(&v, fields[0].0, fields[0].1);
            let second = string_of(&v, fields[1].0, fields[1].1);
            out.push((first, second));
            assert(pair_texts(out@) =~= filter_map(ls.take(k + 1), f));
        }
        k = k + 1;
    }
    assert(ls.take(spans@.len() as int) =~= ls);
    out
}

} // verus!
