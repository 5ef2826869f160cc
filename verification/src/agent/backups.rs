//! The installer's pre-update snapshots, named `{timestamp}-{previous_version}`.

use vstd::prelude::*;

use crate::protocol::BackupSummary;
use crate::text::{chars_of, find_char, split_once, span_is, string_of};

verus! {

/// The version a backup directory name records: what follows the first `-`,
/// unless it is `unknown`; `None` for a name without `-`.
pub open spec fn previous_version_of(name: Seq<char>) -> Option<Seq<char>> {
    match split_once(name, '-') {
        Some((_, version)) => if version == "unknown"@ {
            None
        } else {
            Some(version)
        },
        None => None,
    }
}

pub fn previous_version_from_name(name: &str) -> (r: Option<String>)
    ensures
        match previous_version_of(name@) {
            Some(version) => r matches Some(s) && s@ == version,
            None => r is None,
        },
{
    let v = chars_of(name);
    match find_char(&v, 0, v.len(), '-') {
        None => {
            assert(v@.subrange(0, v@.len() as int) =~= name@);
            None
        },
        Some(i) => {
            assert(v@.subrange(0, v@.len() as int) =~= name@);
            assert(v@.subrange(i + 1, v@.len() as int) =~= name@.skip(i + 1));
            if span_is(&v, i + 1, v.len(), "unknown") {
                None
            } else {
                Some(string_of(&v, i + 1, v.len()))
            }
        },
    }
}

/// `a` sorts before `b` newest first: a creation time before none, a later
/// one before an earlier one.
pub open spec fn newer_first(a: Option<u64>, b: Option<u64>) -> bool {
    match (a, b) {
        (Some(x), Some(y)) => x > y,
        (Some(_), None) => true,
        _ => false,
    }
}

/// A backup as plain values: name, previous version, creation time, size.
pub type BackupView = (Seq<char>, Option<Seq<char>>, Option<u64>, u64);

pub open spec fn backup_view(b: BackupSummary) -> BackupView {
    (b.name@, crate::protocol::opt_view(b.previous_version), b.created_at_ms, b.size_bytes)
}

pub open spec fn backup_views(bs: Seq<BackupSummary>) -> Seq<BackupView> {
    bs.map_values(|b: BackupSummary| backup_view(b))
}

/// `sorted` (newest first) with `b` inserted after every backup that is
/// not older, so that equal times keep their order.
pub open spec fn insert_newest_first(sorted: Seq<BackupView>, b: BackupView) -> Seq<BackupView>
    decreases sorted.len(),
{
    if sorted.len() == 0 {
        seq![b]
    } else if newer_first(b.2, sorted.last().2) {
        insert_newest_first(sorted.drop_last(), b).push(sorted.last())
    } else {
        sorted.push(b)
    }
}

/// The backups sorted newest first, a stable sort by creation time
/// (`sort_by_key` with `Reverse`).
pub open spec fn newest_first(backups: Seq<BackupView>) -> Seq<BackupView>
    decreases backups.len(),
{
    if backups.len() == 0 {
        seq![]
    } else {
        insert_newest_first(newest_first(backups.drop_last()), backups.last())
    }
}

fn goes_before(b: Option<u64>, other: Option<u64>) -> (r: bool)
    ensures
        r == newer_first(b, other),
{
    match (b, other) {
        (Some(x), Some(y)) => x > y,
        (Some(_), None) => true,
        _ => false,
    }
}

fn insert_sorted(sorted: &mut Vec<BackupSummary>, b: BackupSummary)
    ensures
        backup_views(final(sorted)@) == insert_newest_first(backup_views(old(sorted)@), backup_view(b)),
{
    let ghost all = backup_views(sorted@);
    let ghost bv = backup_view(b);
    let mut i = sorted.len();
    assert(all.take(i as int) =~= all);
    assert(all.skip(i as int) =~= Seq::<BackupView>::empty());
    assert(insert_newest_first(all, bv) =~= insert_newest_first(all.take(i as int), bv) + all.skip(i as int));
    while i > 0 && goes_before(b.created_at_ms, sorted[i - 1].created_at_ms)
        invariant
            i <= all.len(),
            all == backup_views(sorted@),
            bv == backup_view(b),
            insert_newest_first(all, bv) == insert_newest_first(all.take(i as int), bv) + all.skip(i as int),
        decreases i,
    {
        assert(all.take(i as int).drop_last() =~= all.take(i - 1));
        assert(all.take(i as int).last() == all[i - 1]);
        assert(insert_newest_first(all.take(i - 1), bv).push(all[i - 1]) + all.skip(i as int)
            =~= insert_newest_first(all.take(i - 1), bv) + all.skip(i - 1));
        i = i - 1;
    }
    assert(insert_newest_first(all.take(i as int), bv) =~= all.take(i as int).push(bv)) by {
        if i > 0 {
            assert(all.take(i as int).last() == all[i - 1]);
        }
    }
    let ghost before = sorted@;
    sorted.insert(i, b);
    assert(backup_views(sorted@) =~= all.take(i as int).push(bv) + all.skip(i as int)) by {
        assert(sorted@ == before.insert(i as int, b));
    }
}

/// What the backups directory holds, entry by entry: its name, its
/// creation time, its size.
pub open spec fn entry_backups(entries: Seq<(String, Option<u64>, u64)>) -> Seq<BackupView> {
    entries.map_values(|e: (String, Option<u64>, u64)| (e.0@, previous_version_of(e.0@), e.1, e.2))
}

/// The backups the directory entries describe, newest first.
pub fn backup_summaries(entries: Vec<(String, Option<u64>, u64)>) -> (r: Vec<BackupSummary>)
    ensures
        backup_views(r@) == newest_first(entry_backups(entries@)),
{
    let ghost es = entry_backups(entries@);
    let mut out: Vec<BackupSummary> = Vec::new();
    let mut i: usize = 0;
    while i < entries.len()
        invariant
            i <= entries@.len(),
            es == entry_backups(entries@),
            backup_views(out@) == newest_first(es.take(i as int)),
        decreases entries@.len() - i,
    {
        assert(es.take(i + 1).drop_last() =~= es.take(i as int));
        let (name, created, size) = &entries[i];
        let b = BackupSummary {
            previous_version: previous_version_from_name(name.as_str()),
            name: name.clone(),
            created_at_ms: *created,
            size_bytes: *size,
        };
        assert(backup_view(b) == es[i as int]);
        insert_sorted(&mut out, b);
        i = i + 1;
    }
    assert(es.take(entries@.len() as int) =~= es);
    out
}

} // verus!
