//! The audit log of administrative actions: a bounded list of entries,
//! oldest first, read back a page at a time, newest first.

use vstd::prelude::*;

use crate::protocol::{AuditEvent, AuditPage};
use crate::text::{chars_of, lines, split_lines, string_of, trim, trim_span};

verus! {

/// At most this many entries are kept; the oldest go first.
pub const MAX_AUDIT_ENTRIES: usize = 5000;

pub const DEFAULT_PAGE_LIMIT: usize = 100;

pub const MAX_PAGE_LIMIT: usize = 500;

/// The page size when the request names none.
pub fn default_limit() -> (r: usize)
    ensures
        r == DEFAULT_PAGE_LIMIT,
{
    DEFAULT_PAGE_LIMIT
}

/// The last `max` entries of `entries`.
pub open spec fn capped<A>(entries: Seq<A>, max: nat) -> Seq<A> {
    if entries.len() > max {
        entries.skip(entries.len() - max)
    } else {
        entries
    }
}

/// Appends `entry`, then drops the oldest entries beyond the cap.
pub fn append_entry(entries: &mut Vec<AuditEvent>, entry: AuditEvent)
    ensures
        final(entries)@ == capped(old(entries)@.push(entry), MAX_AUDIT_ENTRIES as nat),
{
    entries.push(entry);
    let ghost all = entries@;
    let ghost mut dropped: int = 0;
    assert(all.skip(0) =~= all);
    while entries.len() > MAX_AUDIT_ENTRIES
        invariant
            0 <= dropped <= all.len(),
            entries@ == all.skip(dropped),
            dropped > 0 ==> all.len() - dropped >= MAX_AUDIT_ENTRIES,
        decreases entries@.len(),
    {
        entries.remove(0);
        proof {
            assert(all.skip(dropped).remove(0) =~= all.skip(dropped + 1));
            dropped = dropped + 1;
        }
    }
    assert(entries@ =~= capped(all, MAX_AUDIT_ENTRIES as nat));
}

/// The log never holds more than the cap, and an entry just appended is
/// always its newest.
pub proof fn lemma_append_keeps_newest(entries: Seq<AuditEvent>, entry: AuditEvent)
    ensures
        capped(entries.push(entry), MAX_AUDIT_ENTRIES as nat).len() <= MAX_AUDIT_ENTRIES,
        capped(entries.push(entry), MAX_AUDIT_ENTRIES as nat).len() <= entries.len() + 1,
        capped(entries.push(entry), MAX_AUDIT_ENTRIES as nat).last() == entry,
{
}

/// Whether an entry is on a page that asks for entries before `before_ms`.
pub open spec fn before(entry: AuditEvent, before_ms: Option<u64>) -> bool {
    match before_ms {
        Some(b) => entry.timestamp_ms < b,
        None => true,
    }
}

/// The entries kept by `before_ms`, newest first.
pub open spec fn newest_first(entries: Seq<AuditEvent>, before_ms: Option<u64>) -> Seq<AuditEvent>
    decreases entries.len(),
{
    if entries.len() == 0 {
        seq![]
    } else {
        let rest = newest_first(entries.drop_last(), before_ms);
        if before(entries.last(), before_ms) {
            seq![entries.last()] + rest
        } else {
            rest
        }
    }
}

/// The page size asked for, clamped to 1..=500.
pub open spec fn clamped_limit(limit: usize) -> nat {
    if limit < 1 {
        1
    } else if limit > MAX_PAGE_LIMIT {
        MAX_PAGE_LIMIT as nat
    } else {
        limit as nat
    }
}

/// Up to `limit` (clamped) entries strictly older than `before_ms`, newest
/// first, and whether there are more.
pub fn page_of(entries: Vec<AuditEvent>, limit: usize, before_ms: Option<u64>) -> (r: AuditPage)
    ensures
        ({
            let kept = newest_first(entries@, before_ms);
            let n = clamped_limit(limit);
            &&& r.has_more == (kept.len() > n)
            &&& r.events@ == if kept.len() > n {
                kept.take(n as int)
            } else {
                kept
            }
        }),
{
    let limit = if limit < 1 {
        1
    } else if limit > MAX_PAGE_LIMIT {
        MAX_PAGE_LIMIT
    } else {
        limit
    };
    let ghost all = entries@;
    let mut rest = entries;
    let mut out: Vec<AuditEvent> = Vec::new();
    while rest.len() > 0
        invariant
            newest_first(all, before_ms) == out@ + newest_first(rest@, before_ms),
        decreases rest@.len(),
    {
        let ghost prev = rest@;
        let e = rest.pop().unwrap();
        assert(prev.drop_last() == rest@);
        let keep = match before_ms {
            Some(b) => e.timestamp_ms < b,
            None => true,
        };
        if keep {
            out.push(e);
            assert(newest_first(all, before_ms) =~= out@ + newest_first(rest@, before_ms));
        }
    }
    assert(out@ =~= newest_first(all, before_ms));
    let has_more = out.len() > limit;
    out.truncate(limit);
    AuditPage { events: out, has_more }
}

/// Every entry, newest first.
pub fn export_of(entries: Vec<AuditEvent>) -> (r: AuditPage)
    ensures
        r.events@ == entries@.reverse(),
        !r.has_more,
{
    let ghost all = entries@;
    let mut rest = entries;
    let mut out: Vec<AuditEvent> = Vec::new();
    while rest.len() > 0
        invariant
            all.reverse() == out@ + rest@.reverse(),
        decreases rest@.len(),
    {
        let ghost prev = rest@;
        let e = rest.pop().unwrap();
        assert(prev.drop_last() == rest@);
        out.push(e);
        assert(prev.reverse() =~= seq![e] + rest@.reverse());
        assert(all.reverse() =~= out@ + rest@.reverse());
    }
    assert(rest@.reverse() =~= Seq::<AuditEvent>::empty());
    assert(out@ =~= all.reverse());
    AuditPage { events: out, has_more: false }
}

/// The lines of a stored log that are not blank, in order.
pub open spec fn entry_lines(ls: Seq<Seq<char>>) -> Seq<Seq<char>>
    decreases ls.len(),
{
    if ls.len() == 0 {
        seq![]
    } else if trim(ls.last()).len() == 0 {
        entry_lines(ls.drop_last())
    } else {
        entry_lines(ls.drop_last()).push(ls.last())
    }
}

/// The non-blank lines of the stored log, each holding one entry.
pub fn stored_lines(content: &str) -> (r: Vec<String>)
    ensures
        crate::text::texts(r@) == entry_lines(lines(content@)),
{
    let v = chars_of(content);
    let spans = split_lines(&v);
    let ghost ls = lines(v@);
    let mut out: Vec<String> = Vec::new();
    let mut k: usize = 0;
    while k < spans.len()
        invariant
            k <= spans@.len(),
            spans@.len() == ls.len(),
            ls == lines(v@),
            forall|j: int|
                #![trigger spans@[j]]
                0 <= j < spans@.len() ==> spans@[j].0 <= spans@[j].1 <= v@.len() && v@.subrange(
                    spans@[j].0 as int,
                    spans@[j].1 as int,
                ) == ls[j],
            crate::text::texts(out@) == entry_lines(ls.take(k as int)),
        decreases spans@.len() - k,
    {
        let (a, b) = spans[k];
        assert(ls.take(k + 1).drop_last() =~= ls.take(k as int));
        let (s, e) = trim_span(&v, a, b);
        let ghost before = out@;
        if s < e {
            out.push(string_of(&v, a, b));
            assert(crate::text::texts(out@) =~= crate::text::texts(before).push(ls[k as int]));
        }
        k = k + 1;
    }
    assert(ls.take(ls.len() as int) =~= ls);
    out
}

} // verus!
