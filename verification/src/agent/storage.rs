//! The mounted filesystems as `df -B1 -P -T` lists them, and the disks with
//! their partitions and stacked devices as `lsblk -J -b` lists them.

use vstd::prelude::*;

use crate::protocol::opt_view;
use crate::text::{
    chars_of, join, lines, owned, parse_unsigned, parse_unsigned_span, push_span, push_str, span_is, split_lines, split_words,
    string_of, texts, trim, trim_span, words,
};

verus! {

/// A filesystem row of `df`, its usage percentage still as text (the part
/// before any trailing `%`).
#[derive(Debug, Clone, PartialEq, Eq)]
pub struct DfRow {
    pub filesystem: String,
    pub filesystem_type: String,
    pub mount_point: String,
    pub total_bytes: u64,
    pub used_bytes: u64,
    pub available_bytes: u64,
    pub usage_percent: String,
    /// Part of the base OS layout rather than an application's volume.
    pub standard: bool,
}

pub type RowView = (Seq<char>, Seq<char>, Seq<char>, u64, u64, u64, Seq<char>, bool);

pub open spec fn row_view(r: DfRow) -> RowView {
    (r.filesystem@, r.filesystem_type@, r.mount_point@, r.total_bytes, r.used_bytes, r.available_bytes, r.usage_percent@, r.standard)
}

/// The well-known system mount points.
pub open spec fn standard_mount(m: Seq<char>) -> bool {
    m == "/"@ || m == "/boot"@ || m == "/boot/efi"@ || m == "/home"@ || m == "/var"@ || m == "/tmp"@
}

/// `s` without its trailing `%` signs.
pub open spec fn without_percent(s: Seq<char>) -> Seq<char>
    decreases s.len(),
{
    if s.len() > 0 && s.last() == '%' {
        without_percent(s.drop_last())
    } else {
        s
    }
}

/// One `df` line: seven or more words, the three sizes numbers; the mount
/// point is the rest of the words joined by single spaces.
pub open spec fn row_of(line: Seq<char>) -> Option<RowView> {
    let w = words(line);
    if w.len() < 7 {
        None
    } else {
        match (parse_unsigned(w[2], 0xffff_ffff_ffff_ffff), parse_unsigned(w[3], 0xffff_ffff_ffff_ffff), parse_unsigned(w[4], 0xffff_ffff_ffff_ffff)) {
            (Some(total), Some(used), Some(available)) => {
                let mount = join(w.skip(6), " "@);
                Some((w[0], w[1], mount, total as u64, used as u64, available as u64, without_percent(w[5]), standard_mount(mount)))
            },
            _ => None,
        }
    }
}

/// The rows of the lines after the header.
pub open spec fn rows_of(ls: Seq<Seq<char>>) -> Seq<RowView>
    decreases ls.len(),
{
    if ls.len() == 0 {
        seq![]
    } else {
        match row_of(ls.last()) {
            Some(r) => rows_of(ls.drop_last()).push(r),
            None => rows_of(ls.drop_last()),
        }
    }
}

/// The columns of a `df -P -T` line: the device and type are its first two
/// words, the sizes its third, fourth and fifth (total, used, available),
/// the usage its sixth without `%`, and the mount point the rest joined by
/// single spaces.
pub open spec fn df_columns(line: Seq<char>, r: RowView) -> bool {
    let w = words(line);
    &&& w.len() >= 7
    &&& r.0 == w[0]
    &&& r.1 == w[1]
    &&& parse_unsigned(w[2], 0xffff_ffff_ffff_ffff) == Some(r.3 as nat)
    &&& parse_unsigned(w[3], 0xffff_ffff_ffff_ffff) == Some(r.4 as nat)
    &&& parse_unsigned(w[4], 0xffff_ffff_ffff_ffff) == Some(r.5 as nat)
    &&& r.2 == join(w.skip(6), " "@)
    &&& r.6 == without_percent(w[5])
    &&& r.7 == standard_mount(r.2)
}

/// A `df` line reads as a row exactly when it has seven or more words with
/// numbers in the size columns, and the row's device, type, total, used and
/// available are those columns in that order.
pub proof fn lemma_df_columns(line: Seq<char>)
    ensures
        row_of(line) matches Some(r) ==> df_columns(line, r),
        row_of(line) is Some <==> {
            let w = words(line);
            &&& w.len() >= 7
            &&& parse_unsigned(w[2], 0xffff_ffff_ffff_ffff) is Some
            &&& parse_unsigned(w[3], 0xffff_ffff_ffff_ffff) is Some
            &&& parse_unsigned(w[4], 0xffff_ffff_ffff_ffff) is Some
        },
{
}

/// Every row comes from one of the lines, read by its columns.
pub proof fn lemma_rows_from_lines(ls: Seq<Seq<char>>)
    ensures
        forall|k: int|
            0 <= k < rows_of(ls).len() ==> exists|j: int|
                0 <= j < ls.len() && df_columns(ls[j], #[trigger] rows_of(ls)[k]),
    decreases ls.len(),
{
    if ls.len() > 0 {
        let d = ls.drop_last();
        lemma_rows_from_lines(d);
        lemma_df_columns(ls.last());
        assert forall|k: int| 0 <= k < rows_of(ls).len() implies exists|j: int|
            0 <= j < ls.len() && df_columns(ls[j], #[trigger] rows_of(ls)[k]) by {
            let r = rows_of(d);
            if k < r.len() {
                assert(rows_of(ls)[k] == r[k]);
                let j = choose|j: int| 0 <= j < d.len() && df_columns(d[j], #[trigger] r[k]);
                assert(ls[j] == d[j]);
            } else {
                assert(ls[ls.len() - 1] == ls.last());
            }
        }
    }
}

pub fn is_standard_mount(m: &str) -> (r: bool)
    ensures
        r == standard_mount(m@),
{
    let eq = |lit: &str| -> (b: bool)
        ensures
            b == (m@ == lit@),
        { crate::agent::events::text_eq(m, lit) };
    eq("/") || eq("/boot") || eq("/boot/efi") || eq("/home") || eq("/var") || eq("/tmp")
}

fn parse_row(v: &Vec<char>, a: usize, b: usize) -> (r: Option<DfRow>)
    requires
        a <= b <= v@.len(),
    ensures
        match row_of(v@.subrange(a as int, b as int)) {
            Some(x) => r matches Some(row) && row_view(row) == x,
            None => r is None,
        },
        r matches Some(row) ==> df_columns(v@.subrange(a as int, b as int), row_view(row)),
{
    proof {
        lemma_df_columns(v@.subrange(a as int, b as int));
    }
    let ghost line = v@.subrange(a as int, b as int);
    let w = split_words(v, a, b);
    let ghost ws = words(line);
    if w.len() < 7 {
        return None;
    }
    let (s2, e2) = w[2];
    let (s3, e3) = w[3];
    let (s4, e4) = w[4];
    assert(v@.subrange(s2 as int, e2 as int) == ws[2]);
    assert(v@.subrange(s3 as int, e3 as int) == ws[3]);
    assert(v@.subrange(s4 as int, e4 as int) == ws[4]);
    let total = crate::text::parse_unsigned_span(v, s2, e2, 0xffff_ffff_ffff_ffff);
    let used = crate::text::parse_unsigned_span(v, s3, e3, 0xffff_ffff_ffff_ffff);
    let available = crate::text::parse_unsigned_span(v, s4, e4, 0xffff_ffff_ffff_ffff);
    let (total, used, available) = match (total, used, available) {
        (Some(t), Some(u), Some(x)) => (t, u, x),
        _ => return None,
    };
    let (s0, e0) = w[0];
    let (s1, e1) = w[1];
    let (s5, e5) = w[5];
    assert(v@.subrange(s0 as int, e0 as int) == ws[0]);
    assert(v@.subrange(s1 as int, e1 as int) == ws[1]);
    assert(v@.subrange(s5 as int, e5 as int) == ws[5]);
    let mut p = e5;
    while p > s5 && v[p - 1] == '%'
        invariant
            s5 <= p <= e5 <= v@.len(),
            without_percent(v@.subrange(s5 as int, e5 as int)) == without_percent(v@.subrange(s5 as int, p as int)),
        decreases p,
    {
        assert(v@.subrange(s5 as int, p as int).drop_last() =~= v@.subrange(s5 as int, p - 1));
        p = p - 1;
    }
    let mut mount = String::new();
    let mut k: usize = 6;
    let (m0, m1) = w[6];
    assert(v@.subrange(m0 as int, m1 as int) == ws[6]);
    push_span(&mut mount, v, m0, m1);
    assert(ws.skip(6).take(1) =~= seq![ws[6]]);
    k = 7;
    while k < w.len()
        invariant
            7 <= k <= w@.len(),
            ws == words(line),
            line == v@.subrange(a as int, b as int),
            crate::text::spans_are(v@, w@, ws),
            mount@ == join(ws.skip(6).take(k - 6), " "@),
        decreases w@.len() - k,
    {
        let (x, y) = w[k];
        assert(v@.subrange(x as int, y as int) == ws[k as int]);
        assert(ws.skip(6).take(k - 6 + 1).drop_last() =~= ws.skip(6).take(k - 6));
        push_str(&mut mount, " ");
        push_span(&mut mount, v, x, y);
        k = k + 1;
    }
    assert(ws.skip(6).take(w@.len() - 6) =~= ws.skip(6));
    let standard = is_standard_mount(mount.as_str());
    Some(
        DfRow {
            filesystem: string_of(v, s0, e0),
            filesystem_type: string_of(v, s1, e1),
            mount_point: mount,
            total_bytes: total,
            used_bytes: used,
            available_bytes: available,
            usage_percent: string_of(v, s5, p),
            standard,
        },
    )
}

/// The lines after the first.
pub open spec fn after_header(ls: Seq<Seq<char>>) -> Seq<Seq<char>> {
    if ls.len() > 0 {
        ls.skip(1)
    } else {
        ls
    }
}

pub open spec fn row_views(rows: Seq<DfRow>) -> Seq<RowView> {
    rows.map_values(|r: DfRow| row_view(r))
}

/// The filesystem rows of `df` output, skipping its header line and the
/// lines that do not read as a row.
pub fn parse_df_rows(input: &str) -> (r: Vec<DfRow>)
    ensures
        row_views(r@) == rows_of(after_header(lines(input@))),
        forall|k: int|
            0 <= k < r@.len() ==> exists|j: int|
                0 <= j < after_header(lines(input@)).len() && df_columns(
                    after_header(lines(input@))[j],
                    row_view(#[trigger] r@[k]),
                ),
{
    proof {
        lemma_rows_from_lines(after_header(lines(input@)));
    }
    let v = chars_of(input);
    let spans = split_lines(&v);
    let ghost ls = lines(v@);
    let mut out: Vec<DfRow> = Vec::new();
    if spans.len() == 0 {
        assert(row_views(out@) =~= Seq::<RowView>::empty());
        return out;
    }
    let mut k: usize = 1;
    assert(ls.skip(1).take(0) =~= Seq::<Seq<char>>::empty());
    while k < spans.len()
        invariant
            1 <= k <= spans@.len(),
            ls == lines(v@),
            v@ == input@,
            crate::text::spans_are(v@, spans@, ls),
            row_views(out@) == rows_of(ls.skip(1).take(k - 1)),
        decreases spans@.len() - k,
    {
        let (a, b) = spans[k];
        assert(ls.skip(1).take(k - 1 + 1).drop_last() =~= ls.skip(1).take(k - 1));
        assert(ls.skip(1).take(k - 1 + 1).last() == ls[k as int]);
        match parse_row(&v, a, b) {
            Some(row) => {
                let ghost before = out@;
                out.push(row);
                assert(row_views(out@) =~= row_views(before).push(row_view(row)));
            },
            None => {},
        }
        k = k + 1;
    }
    assert(ls.skip(1).take(spans@.len() - 1) =~= ls.skip(1));
    proof {
        assert forall|k: int| 0 <= k < out@.len() implies row_views(out@)[k] == row_view(#[trigger] out@[k]) by {}
    }
    out
}


// ---------------------------------------------------------------------------
// lsblk
// ---------------------------------------------------------------------------

impl DfRow {
    pub fn copy(&self) -> (r: DfRow)
        ensures
            row_view(r) == row_view(*self),
    {
        DfRow {
            filesystem: owned(self.filesystem.as_str()),
            filesystem_type: owned(self.filesystem_type.as_str()),
            mount_point: owned(self.mount_point.as_str()),
            total_bytes: self.total_bytes,
            used_bytes: self.used_bytes,
            available_bytes: self.available_bytes,
            usage_percent: owned(self.usage_percent.as_str()),
            standard: self.standard,
        }
    }
}

/// A JSON value of an `lsblk -J` column. Its versions disagree on types:
/// sizes and flags arrive as numbers, strings or booleans. A number keeps
/// the text `serde_json` prints for it; `null`, lists and objects are
/// `Other`.
#[derive(Debug, Clone, PartialEq, Eq)]
pub enum Scalar {
    Bool(bool),
    Number(String),
    Text(String),
    Other,
}

/// One device of `lsblk -J`: each column present in its JSON object (an
/// entry that is not an object has none), and the devices stacked on it.
pub struct BlockDevice {
    pub name: Option<Scalar>,
    pub kname: Option<Scalar>,
    pub path: Option<Scalar>,
    pub kind: Option<Scalar>,
    pub size: Option<Scalar>,
    pub model: Option<Scalar>,
    pub rota: Option<Scalar>,
    pub tran: Option<Scalar>,
    pub rm: Option<Scalar>,
    pub fstype: Option<Scalar>,
    pub label: Option<Scalar>,
    pub children: Vec<BlockDevice>,
}

/// A column as text: a string trimmed, a number as printed; `None` when
/// absent, of another kind, or empty.
pub open spec fn text_value(v: Option<Scalar>) -> Option<Seq<char>> {
    let t = match v {
        Some(Scalar::Text(t)) => Some(trim(t@)),
        Some(Scalar::Number(n)) => Some(n@),
        _ => None,
    };
    match t {
        Some(x) => if x.len() > 0 {
            Some(x)
        } else {
            None
        },
        None => None,
    }
}

/// A column as a count of bytes: a number or a string of digits; 0 for
/// anything else.
pub open spec fn number_value(v: Option<Scalar>) -> u64 {
    let parsed = match v {
        Some(Scalar::Number(n)) => parse_unsigned(n@, 0xffff_ffff_ffff_ffff),
        Some(Scalar::Text(t)) => parse_unsigned(trim(t@), 0xffff_ffff_ffff_ffff),
        _ => None,
    };
    match parsed {
        Some(n) => n as u64,
        None => 0,
    }
}

/// A column as a flag: a boolean, `1`/`true`/`0`/`false` as text, or a
/// whole number (true unless 0).
pub open spec fn flag_value(v: Option<Scalar>) -> Option<bool> {
    match v {
        Some(Scalar::Bool(b)) => Some(b),
        Some(Scalar::Text(t)) => if trim(t@) == "1"@ || trim(t@) == "true"@ {
            Some(true)
        } else if trim(t@) == "0"@ || trim(t@) == "false"@ {
            Some(false)
        } else {
            None
        },
        Some(Scalar::Number(n)) => match parse_unsigned(n@, 0xffff_ffff_ffff_ffff) {
            Some(x) => Some(x != 0),
            None => None,
        },
        _ => None,
    }
}

pub fn text_field(v: &Option<Scalar>) -> (r: Option<String>)
    ensures
        opt_view(r) == text_value(*v),
{
    let t = match v {
        Some(Scalar::Text(t)) => {
            let c = chars_of(t.as_str());
            let (s, e) = trim_span(&c, 0, c.len());
            assert(c@.subrange(0, c@.len() as int) =~= t@);
            string_of(&c, s, e)
        },
        Some(Scalar::Number(n)) => owned(n.as_str()),
        _ => return None,
    };
    if t.as_str().unicode_len() > 0 {
        Some(t)
    } else {
        None
    }
}

fn parsed_u64(t: &str) -> (r: Option<u64>)
    ensures
        match parse_unsigned(t@, 0xffff_ffff_ffff_ffff) {
            Some(n) => r == Some(n as u64),
            None => r is None,
        },
{
    let c = chars_of(t);
    assert(c@.subrange(0, c@.len() as int) =~= t@);
    parse_unsigned_span(&c, 0, c.len(), 0xffff_ffff_ffff_ffff)
}

pub fn number_field(v: &Option<Scalar>) -> (r: u64)
    ensures
        r == number_value(*v),
{
    let parsed = match v {
        Some(Scalar::Number(n)) => parsed_u64(n.as_str()),
        Some(Scalar::Text(t)) => {
            let c = chars_of(t.as_str());
            let (s, e) = trim_span(&c, 0, c.len());
            assert(c@.subrange(0, c@.len() as int) =~= t@);
            parse_unsigned_span(&c, s, e, 0xffff_ffff_ffff_ffff)
        },
        _ => None,
    };
    match parsed {
        Some(n) => n,
        None => 0,
    }
}

pub fn flag_field(v: &Option<Scalar>) -> (r: Option<bool>)
    ensures
        r == flag_value(*v),
{
    match v {
        Some(Scalar::Bool(b)) => Some(*b),
        Some(Scalar::Text(t)) => {
            let c = chars_of(t.as_str());
            let (s, e) = trim_span(&c, 0, c.len());
            assert(c@.subrange(0, c@.len() as int) =~= t@);
            if span_is(&c, s, e, "1") || span_is(&c, s, e, "true") {
                Some(true)
            } else if span_is(&c, s, e, "0") || span_is(&c, s, e, "false") {
                Some(false)
            } else {
                None
            }
        },
        Some(Scalar::Number(n)) => match parsed_u64(n.as_str()) {
            Some(x) => Some(x != 0),
            None => None,
        },
        _ => None,
    }
}

/// A partition or a device stacked on a disk, with what is mounted from it.
pub struct StoragePartition {
    pub name: String,
    pub path: String,
    pub mount: Option<DfRow>,
    pub kind: String,
    pub size_bytes: u64,
    pub filesystem_type: Option<String>,
    pub label: Option<String>,
}

pub type PartView = (Seq<char>, Seq<char>, Option<RowView>, Seq<char>, u64, Option<Seq<char>>, Option<Seq<char>>);

pub open spec fn opt_row(r: Option<DfRow>) -> Option<RowView> {
    match r {
        Some(x) => Some(row_view(x)),
        None => None,
    }
}

pub open spec fn part_view(p: StoragePartition) -> PartView {
    (p.name@, p.path@, opt_row(p.mount), p.kind@, p.size_bytes, opt_view(p.filesystem_type), opt_view(p.label))
}

pub open spec fn part_views(ps: Seq<StoragePartition>) -> Seq<PartView> {
    ps.map_values(|p: StoragePartition| part_view(p))
}

/// A device's path: its `path` column, else `/dev/` and its kernel name,
/// else empty.
pub open spec fn device_path(d: BlockDevice) -> Seq<char> {
    match text_value(d.path) {
        Some(p) => p,
        None => match text_value(d.kname) {
            Some(k) => "/dev/"@ + k,
            None => seq![],
        },
    }
}

/// The first `df` row of the filesystem at `path`.
pub open spec fn mount_for(mounts: Seq<RowView>, path: Seq<char>) -> Option<RowView>
    decreases mounts.len(),
{
    if mounts.len() == 0 {
        None
    } else if mounts[0].0 == path {
        Some(mounts[0])
    } else {
        mount_for(mounts.drop_first(), path)
    }
}

pub open spec fn text_or(v: Option<Seq<char>>, default: Seq<char>) -> Seq<char> {
    match v {
        Some(t) => t,
        None => default,
    }
}

/// What a device stacked below a disk is listed as.
pub open spec fn partition_of(d: BlockDevice, mounts: Seq<RowView>) -> PartView {
    (
        text_or(text_value(d.name), seq![]),
        device_path(d),
        mount_for(mounts, device_path(d)),
        text_or(text_value(d.kind), "part"@),
        number_value(d.size),
        text_value(d.fstype),
        text_value(d.label),
    )
}

/// The devices below `ds`, depth first: each device, then what is stacked
/// on it.
pub open spec fn partitions_of(ds: Seq<BlockDevice>, mounts: Seq<RowView>) -> Seq<PartView>
    decreases ds,
{
    if ds.len() == 0 {
        seq![]
    } else {
        let d = ds.last();
        proof {
            assert(decreases_to!(ds => ds[ds.len() - 1]));
        }
        partitions_of(ds.drop_last(), mounts) + seq![partition_of(d, mounts)] + partitions_of(d.children@, mounts)
    }
}

fn find_mount(mounts: &Vec<DfRow>, path: &str) -> (r: Option<DfRow>)
    ensures
        opt_row(r) == mount_for(row_views(mounts@), path@),
{
    let ghost rv = row_views(mounts@);
    let mut i: usize = 0;
    assert(rv.skip(0) =~= rv);
    while i < mounts.len()
        invariant
            i <= mounts@.len(),
            rv == row_views(mounts@),
            mount_for(rv, path@) == mount_for(rv.skip(i as int), path@),
        decreases mounts@.len() - i,
    {
        assert(rv.skip(i as int).drop_first() =~= rv.skip(i + 1));
        assert(rv.skip(i as int)[0] == row_view(mounts@[i as int]));
        if crate::agent::events::text_eq(mounts[i].filesystem.as_str(), path) {
            return Some(mounts[i].copy());
        }
        i = i + 1;
    }
    None
}

fn partition_from(d: &BlockDevice, mounts: &Vec<DfRow>) -> (r: StoragePartition)
    ensures
        part_view(r) == partition_of(*d, row_views(mounts@)),
{
    let path = match text_field(&d.path) {
        Some(p) => p,
        None => match text_field(&d.kname) {
            Some(k) => {
                let mut p = owned("/dev/");
                push_str(&mut p, k.as_str());
                p
            },
            None => String::new(),
        },
    };
    assert(path@ == device_path(*d));
    let mount = find_mount(mounts, path.as_str());
    StoragePartition {
        name: match text_field(&d.name) {
            Some(n) => n,
            None => String::new(),
        },
        path,
        mount,
        kind: match text_field(&d.kind) {
            Some(k) => k,
            None => owned("part"),
        },
        size_bytes: number_field(&d.size),
        filesystem_type: text_field(&d.fstype),
        label: text_field(&d.label),
    }
}

/// Appends the devices below `children`, depth first.
pub fn collect_partitions(children: &Vec<BlockDevice>, mounts: &Vec<DfRow>, out: &mut Vec<StoragePartition>)
    ensures
        part_views(final(out)@) == part_views(old(out)@) + partitions_of(children@, row_views(mounts@)),
    decreases children@,
{
    let ghost start = part_views(out@);
    let ghost rv = row_views(mounts@);
    let mut i: usize = 0;
    assert(children@.take(0) =~= Seq::<BlockDevice>::empty());
    assert(part_views(out@) =~= start + partitions_of(children@.take(0), rv));
    while i < children.len()
        invariant
            i <= children@.len(),
            rv == row_views(mounts@),
            part_views(out@) == start + partitions_of(children@.take(i as int), rv),
        decreases children@.len() - i,
    {
        let ghost t = children@.take(i + 1);
        assert(t.drop_last() =~= children@.take(i as int));
        assert(t.last() == children@[i as int]);
        let ghost before = part_views(out@);
        let p = partition_from(&children[i], mounts);
        out.push(p);
        assert(part_views(out@) =~= before.push(partition_of(children@[i as int], rv)));
        let ghost mid = part_views(out@);
        proof {
            assert(decreases_to!(children@ => children@[i as int]));
        }
        collect_partitions(&children[i].children, mounts, out);
        assert(part_views(out@) =~= start + partitions_of(t, rv));
        i = i + 1;
    }
    assert(children@.take(i as int) =~= children@);
}

/// A disk with its size and hardware, and what is below it.
pub struct StorageDisk {
    pub name: String,
    pub path: String,
    pub model: Option<String>,
    pub size_bytes: u64,
    pub transport: Option<String>,
    pub rotational: Option<bool>,
    pub removable: bool,
    pub partitions: Vec<StoragePartition>,
}

pub type DiskView = (Seq<char>, Seq<char>, Option<Seq<char>>, u64, Option<Seq<char>>, Option<bool>, bool, Seq<PartView>);

pub open spec fn disk_view(d: StorageDisk) -> DiskView {
    (
        d.name@,
        d.path@,
        opt_view(d.model),
        d.size_bytes,
        opt_view(d.transport),
        d.rotational,
        d.removable,
        part_views(d.partitions@),
    )
}

pub open spec fn disk_views(ds: Seq<StorageDisk>) -> Seq<DiskView> {
    ds.map_values(|d: StorageDisk| disk_view(d))
}

/// A top-level device listed as a disk: of type `disk`, named, and not a
/// RAM or compressed-RAM device.
pub open spec fn disk_of(d: BlockDevice, mounts: Seq<RowView>) -> Option<DiskView> {
    if text_value(d.kind) != Some("disk"@) {
        None
    } else {
        match text_value(d.name) {
            None => None,
            Some(name) => if crate::text::starts_with(name, "zram"@) || crate::text::starts_with(name, "ram"@) {
                None
            } else {
                Some(
                    (
                        name,
                        text_or(text_value(d.path), "/dev/"@ + name),
                        text_value(d.model),
                        number_value(d.size),
                        text_value(d.tran),
                        flag_value(d.rota),
                        flag_value(d.rm) == Some(true),
                        partitions_of(d.children@, mounts),
                    ),
                )
            },
        }
    }
}

/// The disks among the top-level devices, in order.
pub open spec fn disks_of(ds: Seq<BlockDevice>, mounts: Seq<RowView>) -> Seq<DiskView>
    decreases ds.len(),
{
    if ds.len() == 0 {
        seq![]
    } else {
        match disk_of(ds.last(), mounts) {
            Some(d) => disks_of(ds.drop_last(), mounts).push(d),
            None => disks_of(ds.drop_last(), mounts),
        }
    }
}

/// `sorted` (by name) with `d` placed after every disk whose name is not
/// greater, so that equal names keep their order.
pub open spec fn insert_by_name(sorted: Seq<DiskView>, d: DiskView) -> Seq<DiskView>
    decreases sorted.len(),
{
    if sorted.len() == 0 {
        seq![d]
    } else if !crate::order::text_le(sorted.last().0, d.0) {
        insert_by_name(sorted.drop_last(), d).push(sorted.last())
    } else {
        sorted.push(d)
    }
}

/// The disks sorted by name, a stable sort.
pub open spec fn by_name(ds: Seq<DiskView>) -> Seq<DiskView>
    decreases ds.len(),
{
    if ds.len() == 0 {
        seq![]
    } else {
        insert_by_name(by_name(ds.drop_last()), ds.last())
    }
}

fn insert_disk(sorted: &mut Vec<StorageDisk>, d: StorageDisk)
    ensures
        disk_views(final(sorted)@) == insert_by_name(disk_views(old(sorted)@), disk_view(d)),
{
    let ghost all = disk_views(sorted@);
    let ghost dv = disk_view(d);
    let mut i = sorted.len();
    assert(all.take(i as int) =~= all);
    assert(all.skip(i as int) =~= Seq::<DiskView>::empty());
    assert(insert_by_name(all, dv) =~= insert_by_name(all.take(i as int), dv) + all.skip(i as int));
    while i > 0 && !crate::order::text_le_exec(sorted[i - 1].name.as_str(), d.name.as_str())
        invariant
            i <= all.len(),
            all == disk_views(sorted@),
            dv == disk_view(d),
            insert_by_name(all, dv) == insert_by_name(all.take(i as int), dv) + all.skip(i as int),
        decreases i,
    {
        assert(all.take(i as int).drop_last() =~= all.take(i - 1));
        assert(all.take(i as int).last() == all[i - 1]);
        assert(insert_by_name(all.take(i - 1), dv).push(all[i - 1]) + all.skip(i as int)
            =~= insert_by_name(all.take(i - 1), dv) + all.skip(i - 1));
        i = i - 1;
    }
    assert(insert_by_name(all.take(i as int), dv) =~= all.take(i as int).push(dv)) by {
        if i > 0 {
            assert(all.take(i as int).last() == all[i - 1]);
        }
    }
    let ghost before = sorted@;
    sorted.insert(i, d);
    assert(disk_views(sorted@) =~= all.take(i as int).push(dv) + all.skip(i as int)) by {
        assert(sorted@ == before.insert(i as int, d));
    }
}

fn disk_from(d: &BlockDevice, mounts: &Vec<DfRow>) -> (r: Option<StorageDisk>)
    ensures
        match disk_of(*d, row_views(mounts@)) {
            Some(v) => r matches Some(x) && disk_view(x) == v,
            None => r is None,
        },
{
    let is_disk = match text_field(&d.kind) {
        Some(k) => crate::agent::events::text_eq(k.as_str(), "disk"),
        None => false,
    };
    if !is_disk {
        return None;
    }
    let name = match text_field(&d.name) {
        Some(n) => n,
        None => return None,
    };
    if crate::text::has_prefix(name.as_str(), "zram") || crate::text::has_prefix(name.as_str(), "ram") {
        return None;
    }
    let mut partitions: Vec<StoragePartition> = Vec::new();
    collect_partitions(&d.children, mounts, &mut partitions);
    assert(part_views(partitions@) =~= partitions_of(d.children@, row_views(mounts@)));
    let path = match text_field(&d.path) {
        Some(p) => p,
        None => {
            let mut p = owned("/dev/");
            push_str(&mut p, name.as_str());
            p
        },
    };
    let removable = match flag_field(&d.rm) {
        Some(b) => b,
        None => false,
    };
    Some(StorageDisk {
        name,
        path,
        model: text_field(&d.model),
        size_bytes: number_field(&d.size),
        transport: text_field(&d.tran),
        rotational: flag_field(&d.rota),
        removable,
        partitions,
    })
}

/// The disks of `lsblk -J` (`None` when its output did not read as a list
/// of block devices), each with the devices below it joined to the `df`
/// rows of what is mounted, sorted by name.
pub fn parse_lsblk(devices: Option<Vec<BlockDevice>>, mounts: &Vec<DfRow>) -> (r: Vec<StorageDisk>)
    ensures
        disk_views(r@) == match devices {
            None => seq![],
            Some(ds) => by_name(disks_of(ds@, row_views(mounts@))),
        },
{
    let devices = match devices {
        None => {
            let empty: Vec<StorageDisk> = Vec::new();
            assert(disk_views(empty@) =~= Seq::<DiskView>::empty());
            return empty;
        },
        Some(ds) => ds,
    };
    let ghost rv = row_views(mounts@);
    let ghost all = devices@;
    let mut out: Vec<StorageDisk> = Vec::new();
    let mut i: usize = 0;
    assert(disk_views(out@) =~= by_name(disks_of(all.take(0), rv)));
    while i < devices.len()
        invariant
            i <= all.len(),
            all == devices@,
            rv == row_views(mounts@),
            disk_views(out@) == by_name(disks_of(all.take(i as int), rv)),
        decreases all.len() - i,
    {
        let ghost t = all.take(i + 1);
        assert(t.drop_last() =~= all.take(i as int));
        assert(t.last() == all[i as int]);
        match disk_from(&devices[i], mounts) {
            Some(d) => {
                insert_disk(&mut out, d);
                assert(disks_of(t, rv) == disks_of(all.take(i as int), rv).push(disk_of(all[i as int], rv)->Some_0));
                assert(disks_of(t, rv).drop_last() =~= disks_of(all.take(i as int), rv));
            },
            None => {},
        }
        i = i + 1;
    }
    assert(all.take(i as int) =~= all);
    out
}

} // verus!
