//! Reading the kernel's `/proc` files: uptime, traffic and disk counters,
//! memory, and the rates derived from two samples.

use vstd::prelude::*;

use crate::agent::error::{AgentError, ErrorKind};
use crate::protocol::{DiskIoMetrics, MemoryMetrics, NetworkMetrics};
use crate::agent::services::{last_value, opt_text, property_value};
use crate::text::{
    has_key, last_value_is, lemma_filter_map_source, lemma_last_value_push,
    all_digits, digits_value, is_digit, is_upper, owned, pair_texts, string_of, chars_of, filter_map, find, find_char, lemma_filter_map_step, lines, parse_unsigned,
    parse_unsigned_span, span_is, spans_are, split_lines, split_once, split_words, texts, trim,
    trim_span, words,
};

verus! {

/// A value clipped to `u64::MAX`, as saturating arithmetic leaves it.
pub open spec fn capped(n: nat) -> nat {
    if n > u64::MAX {
        u64::MAX as nat
    } else {
        n
    }
}

/// A kernel counter: a decimal `u64`.
pub open spec fn counter(s: Seq<char>) -> Option<nat> {
    parse_unsigned(s, u64::MAX as nat)
}

// ---------------------------------------------------------------------------
// /proc/uptime
// ---------------------------------------------------------------------------

/// The whole seconds of `/proc/uptime`'s first field.
pub open spec fn uptime_seconds(input: Seq<char>) -> Option<nat> {
    let w = words(input);
    if w.len() == 0 {
        None
    } else {
        let whole = match split_once(w[0], '.') {
            Some((a, _)) => a,
            None => w[0],
        };
        counter(whole)
    }
}

/// The whole seconds since boot, from `/proc/uptime` (`"1234.56 789.00"`).
pub fn parse_uptime(input: &str) -> (r: Result<u64, AgentError>)
    ensures
        match uptime_seconds(input@) {
            Some(n) => r == Ok::<u64, AgentError>(n as u64),
            None => r matches Err(e) && e.kind == ErrorKind::Internal && e.message@
                == "invalid /proc/uptime format"@,
        },
{
    let v = chars_of(input);
    let w = split_words(&v, 0, v.len());
    assert(v@.subrange(0, v@.len() as int) =~= input@);
    if w.len() == 0 {
        return Err(AgentError::internal("invalid /proc/uptime format"));
    }
    let (a, b) = w[0];
    let ghost first = v@.subrange(a as int, b as int);
    let end = match find_char(&v, a, b, '.') {
        Some(i) => {
            assert(first.take(i - a) =~= v@.subrange(a as int, i as int));
            i
        },
        None => b,
    };
    match parse_unsigned_span(&v, a, end, u64::MAX) {
        Some(n) => Ok(n),
        None => Err(AgentError::internal("invalid /proc/uptime format")),
    }
}

// ---------------------------------------------------------------------------
// Sums of counter rows
// ---------------------------------------------------------------------------

/// The sum of the first (or second) values of `rows`.
pub open spec fn column_total(rows: Seq<(nat, nat)>, first: bool) -> nat
    decreases rows.len(),
{
    if rows.len() == 0 {
        0
    } else {
        column_total(rows.drop_last(), first) + if first {
            rows.last().0
        } else {
            rows.last().1
        }
    }
}

/// The saturated sums of both columns; `None` when no row matched.
pub open spec fn sample_of(rows: Seq<(nat, nat)>) -> Option<(nat, nat)> {
    if rows.len() == 0 {
        None
    } else {
        Some((capped(column_total(rows, true)), capped(column_total(rows, false))))
    }
}

proof fn lemma_column_push(rows: Seq<(nat, nat)>, p: (nat, nat))
    ensures
        column_total(rows.push(p), true) == column_total(rows, true) + p.0,
        column_total(rows.push(p), false) == column_total(rows, false) + p.1,
{
    assert(rows.push(p).drop_last() =~= rows);
}

/// Whether `v[start..end]` spells one of `list`.
fn span_in_list(v: &Vec<char>, start: usize, end: usize, list: &Vec<String>) -> (r: bool)
    requires
        start <= end <= v@.len(),
    ensures
        r == texts(list@).contains(v@.subrange(start as int, end as int)),
{
    let mut i: usize = 0;
    while i < list.len()
        invariant
            start <= end <= v@.len(),
            i <= list@.len(),
            forall|j: int| 0 <= j < i ==> list@[j]@ != v@.subrange(start as int, end as int),
        decreases list@.len() - i,
    {
        if span_is(v, start, end, list[i].as_str()) {
            assert(texts(list@)[i as int] == v@.subrange(start as int, end as int));
            return true;
        }
        i = i + 1;
    }
    assert forall|j: int| 0 <= j < texts(list@).len() implies texts(list@)[j] != v@.subrange(
        start as int,
        end as int,
    ) by {
        assert(list@[j]@ != v@.subrange(start as int, end as int));
    }
    false
}

// ---------------------------------------------------------------------------
// /proc/net/dev
// ---------------------------------------------------------------------------

/// Received and transmitted bytes, summed over the eligible interfaces.
#[derive(Debug, Clone, Copy, PartialEq, Eq, Structural)]
pub struct NetworkSample {
    pub received_bytes: u64,
    pub transmitted_bytes: u64,
}

/// A `/proc/net/dev` row `name: rx_bytes ... tx_bytes ...` of an eligible
/// interface whose byte counters (fields 0 and 8) parse.
pub open spec fn network_row(line: Seq<char>, eligible: Seq<Seq<char>>) -> Option<(nat, nat)> {
    match split_once(line, ':') {
        Some((name, counters)) => {
            let w = words(counters);
            if eligible.contains(trim(name)) && w.len() > 8 && counter(w[0]) is Some && counter(
                w[8],
            ) is Some {
                Some((counter(w[0])->0, counter(w[8])->0))
            } else {
                None
            }
        },
        None => None,
    }
}

pub open spec fn network_rows(input: Seq<char>, eligible: Seq<Seq<char>>) -> Seq<(nat, nat)> {
    filter_map(lines(input), |l: Seq<char>| network_row(l, eligible))
}

/// The counters of one `/proc/net/dev` line, if it is a row of an eligible
/// interface.
fn network_line(v: &Vec<char>, a: usize, b: usize, eligible: &Vec<String>) -> (r: Option<(u64, u64)>)
    requires
        a <= b <= v@.len(),
    ensures
        match network_row(v@.subrange(a as int, b as int), texts(eligible@)) {
            Some(p) => r == Some((p.0 as u64, p.1 as u64)),
            None => r is None,
        },
{
    let ghost line = v@.subrange(a as int, b as int);
    let i = match find_char(v, a, b, ':') {
        Some(i) => i,
        None => return None,
    };
    assert(line.take(i - a) =~= v@.subrange(a as int, i as int));
    assert(line.skip(i - a + 1) =~= v@.subrange(i + 1, b as int));
    let (ns, ne) = trim_span(v, a, i);
    if !span_in_list(v, ns, ne, eligible) {
        return None;
    }
    let w = split_words(v, i + 1, b);
    if w.len() <= 8 {
        return None;
    }
    let received = match parse_unsigned_span(v, w[0].0, w[0].1, u64::MAX) {
        Some(n) => n,
        None => return None,
    };
    let transmitted = match parse_unsigned_span(v, w[8].0, w[8].1, u64::MAX) {
        Some(n) => n,
        None => return None,
    };
    Some((received, transmitted))
}

/// Sums the byte counters of the eligible interfaces in `/proc/net/dev`,
/// saturating; `None` when no eligible interface has a readable row.
pub fn parse_network_sample(input: &str, eligible: &Vec<String>) -> (r: Option<NetworkSample>)
    ensures
        match sample_of(network_rows(input@, texts(eligible@))) {
            Some(p) => r matches Some(s) && s.received_bytes == p.0 && s.transmitted_bytes == p.1,
            None => r is None,
        },
{
    let v = chars_of(input);
    let spans = split_lines(&v);
    let ghost ls = lines(v@);
    let ghost f = |l: Seq<char>| network_row(l, texts(eligible@));
    let ghost mut rows: Seq<(nat, nat)> = seq![];
    let mut received: u64 = 0;
    let mut transmitted: u64 = 0;
    let mut matched = false;
    let mut k: usize = 0;
    while k < spans.len()
        invariant
            spans_are(v@, spans@, ls),
            ls == lines(v@),
            v@ == input@,
            f == (|l: Seq<char>| network_row(l, texts(eligible@))),
            k <= spans@.len(),
            rows == filter_map(ls.take(k as int), f),
            matched == (rows.len() > 0),
            received == capped(column_total(rows, true)),
            transmitted == capped(column_total(rows, false)),
        decreases spans@.len() - k,
    {
        let (a, b) = spans[k];
        proof {
            lemma_filter_map_step(ls, k as int, f);
        }
        match network_line(&v, a, b, eligible) {
            Some((x, y)) => {
                proof {
                    lemma_column_push(rows, (x as nat, y as nat));
                    rows = rows.push((x as nat, y as nat));
                }
                received = received.saturating_add(x);
                transmitted = transmitted.saturating_add(y);
                matched = true;
            },
            None => {},
        }
        k = k + 1;
    }
    assert(ls.take(spans@.len() as int) =~= ls);
    if matched {
        Some(NetworkSample { received_bytes: received, transmitted_bytes: transmitted })
    } else {
        None
    }
}

// ---------------------------------------------------------------------------
// /proc/diskstats
// ---------------------------------------------------------------------------

/// Bytes read and written, summed over the eligible block devices.
#[derive(Debug, Clone, Copy, PartialEq, Eq, Structural)]
pub struct DiskSample {
    pub read_bytes: u64,
    pub written_bytes: u64,
}

/// Sectors are 512 bytes in `/proc/diskstats`.
pub const SECTOR_BYTES: u64 = 512;

/// A `/proc/diskstats` row of an eligible device (field 2) whose sectors
/// read (field 5) and written (field 9) parse, as saturated byte counts.
pub open spec fn disk_row(line: Seq<char>, eligible: Seq<Seq<char>>) -> Option<(nat, nat)> {
    let w = words(line);
    if w.len() > 9 && eligible.contains(w[2]) && counter(w[5]) is Some && counter(w[9]) is Some {
        Some((capped(counter(w[5])->0 * 512), capped(counter(w[9])->0 * 512)))
    } else {
        None
    }
}

pub open spec fn disk_rows(input: Seq<char>, eligible: Seq<Seq<char>>) -> Seq<(nat, nat)> {
    filter_map(lines(input), |l: Seq<char>| disk_row(l, eligible))
}

/// `sectors * 512`, saturating.
fn sector_bytes(sectors: u64) -> (r: u64)
    ensures
        r == capped(sectors as nat * 512),
{
    if sectors > u64::MAX / SECTOR_BYTES {
        u64::MAX
    } else {
        sectors * SECTOR_BYTES
    }
}

fn disk_line(v: &Vec<char>, a: usize, b: usize, eligible: &Vec<String>) -> (r: Option<(u64, u64)>)
    requires
        a <= b <= v@.len(),
    ensures
        match disk_row(v@.subrange(a as int, b as int), texts(eligible@)) {
            Some(p) => r == Some((p.0 as u64, p.1 as u64)),
            None => r is None,
        },
{
    let w = split_words(v, a, b);
    if w.len() <= 9 {
        return None;
    }
    if !span_in_list(v, w[2].0, w[2].1, eligible) {
        return None;
    }
    let read = match parse_unsigned_span(v, w[5].0, w[5].1, u64::MAX) {
        Some(n) => n,
        None => return None,
    };
    let written = match parse_unsigned_span(v, w[9].0, w[9].1, u64::MAX) {
        Some(n) => n,
        None => return None,
    };
    Some((sector_bytes(read), sector_bytes(written)))
}

/// Sums the bytes read and written by the eligible devices in
/// `/proc/diskstats`, saturating; `None` when no eligible device has a
/// readable row.
pub fn parse_disk_sample(input: &str, eligible: &Vec<String>) -> (r: Option<DiskSample>)
    ensures
        match sample_of(disk_rows(input@, texts(eligible@))) {
            Some(p) => r matches Some(s) && s.read_bytes == p.0 && s.written_bytes == p.1,
            None => r is None,
        },
{
    let v = chars_of(input);
    let spans = split_lines(&v);
    let ghost ls = lines(v@);
    let ghost f = |l: Seq<char>| disk_row(l, texts(eligible@));
    let ghost mut rows: Seq<(nat, nat)> = seq![];
    let mut read: u64 = 0;
    let mut written: u64 = 0;
    let mut matched = false;
    let mut k: usize = 0;
    while k < spans.len()
        invariant
            spans_are(v@, spans@, ls),
            ls == lines(v@),
            v@ == input@,
            f == (|l: Seq<char>| disk_row(l, texts(eligible@))),
            k <= spans@.len(),
            rows == filter_map(ls.take(k as int), f),
            matched == (rows.len() > 0),
            read == capped(column_total(rows, true)),
            written == capped(column_total(rows, false)),
        decreases spans@.len() - k,
    {
        let (a, b) = spans[k];
        proof {
            lemma_filter_map_step(ls, k as int, f);
        }
        match disk_line(&v, a, b, eligible) {
            Some((x, y)) => {
                proof {
                    lemma_column_push(rows, (x as nat, y as nat));
                    rows = rows.push((x as nat, y as nat));
                }
                read = read.saturating_add(x);
                written = written.saturating_add(y);
                matched = true;
            },
            None => {},
        }
        k = k + 1;
    }
    assert(ls.take(spans@.len() as int) =~= ls);
    if matched {
        Some(DiskSample { read_bytes: read, written_bytes: written })
    } else {
        None
    }
}

// ---------------------------------------------------------------------------
// Rates
// ---------------------------------------------------------------------------

/// Bytes per second between two readings of a counter taken `nanos`
/// nanoseconds apart, clipped to `u64::MAX`; `None` for an empty window or a
/// counter that went backwards.
pub open spec fn rate(first: nat, second: nat, nanos: nat) -> Option<nat> {
    if nanos == 0 || second < first {
        None
    } else {
        Some(capped((second - first) as nat * 1_000_000_000 / nanos))
    }
}

pub fn bytes_per_second(first: u64, second: u64, elapsed_nanos: u128) -> (r: Option<u64>)
    ensures
        match rate(first as nat, second as nat, elapsed_nanos as nat) {
            Some(n) => r == Some(n as u64),
            None => r is None,
        },
{
    if elapsed_nanos == 0 || second < first {
        return None;
    }
    let diff = (second - first) as u128;
    assert(diff * 1_000_000_000 <= u128::MAX) by (nonlinear_arith)
        requires
            diff <= u64::MAX,
    ;
    let scaled = diff * 1_000_000_000;
    let per_second = scaled / elapsed_nanos;
    if per_second > u64::MAX as u128 {
        Some(u64::MAX)
    } else {
        Some(per_second as u64)
    }
}

/// Receive and transmit rates from two samples; `None` unless both samples
/// exist and both rates are defined.
pub fn calculate_network_metrics(
    first: Option<NetworkSample>,
    second: Option<NetworkSample>,
    elapsed_nanos: u128,
) -> (r: Option<NetworkMetrics>)
    ensures
        match (first, second) {
            (Some(a), Some(b)) => match (
                rate(a.received_bytes as nat, b.received_bytes as nat, elapsed_nanos as nat),
                rate(a.transmitted_bytes as nat, b.transmitted_bytes as nat, elapsed_nanos as nat),
            ) {
                (Some(x), Some(y)) => r == Some(
                    NetworkMetrics {
                        received_bytes_per_second: x as u64,
                        transmitted_bytes_per_second: y as u64,
                    },
                ),
                _ => r is None,
            },
            _ => r is None,
        },
{
    let (a, b) = match (first, second) {
        (Some(a), Some(b)) => (a, b),
        _ => return None,
    };
    let received = match bytes_per_second(a.received_bytes, b.received_bytes, elapsed_nanos) {
        Some(x) => x,
        None => return None,
    };
    let transmitted = match bytes_per_second(
        a.transmitted_bytes,
        b.transmitted_bytes,
        elapsed_nanos,
    ) {
        Some(y) => y,
        None => return None,
    };
    Some(
        NetworkMetrics {
            received_bytes_per_second: received,
            transmitted_bytes_per_second: transmitted,
        },
    )
}

/// Read and write rates from two samples; `None` unless both samples exist
/// and both rates are defined.
pub fn calculate_disk_metrics(
    first: Option<DiskSample>,
    second: Option<DiskSample>,
    elapsed_nanos: u128,
) -> (r: Option<DiskIoMetrics>)
    ensures
        match (first, second) {
            (Some(a), Some(b)) => match (
                rate(a.read_bytes as nat, b.read_bytes as nat, elapsed_nanos as nat),
                rate(a.written_bytes as nat, b.written_bytes as nat, elapsed_nanos as nat),
            ) {
                (Some(x), Some(y)) => r == Some(
                    DiskIoMetrics { read_bytes_per_second: x as u64, written_bytes_per_second: y as u64 },
                ),
                _ => r is None,
            },
            _ => r is None,
        },
{
    let (a, b) = match (first, second) {
        (Some(a), Some(b)) => (a, b),
        _ => return None,
    };
    let read = match bytes_per_second(a.read_bytes, b.read_bytes, elapsed_nanos) {
        Some(x) => x,
        None => return None,
    };
    let written = match bytes_per_second(a.written_bytes, b.written_bytes, elapsed_nanos) {
        Some(y) => y,
        None => return None,
    };
    Some(DiskIoMetrics { read_bytes_per_second: read, written_bytes_per_second: written })
}

// ---------------------------------------------------------------------------
// /proc/meminfo
// ---------------------------------------------------------------------------

/// A `/proc/meminfo` row `Key:   1234 kB`: the key as written before the
/// colon and the first number after it in bytes (KiB * 1024, saturating).
pub open spec fn meminfo_row(line: Seq<char>) -> Option<(Seq<char>, nat)> {
    match split_once(line, ':') {
        Some((key, rest)) => {
            let w = words(rest);
            if w.len() > 0 && counter(w[0]) is Some {
                Some((key, capped(counter(w[0])->0 * 1024)))
            } else {
                None
            }
        },
        None => None,
    }
}

pub open spec fn meminfo_rows(input: Seq<char>) -> Seq<(Seq<char>, nat)> {
    filter_map(lines(input), |l: Seq<char>| meminfo_row(l))
}

/// The value of the last row with `key` (a later row replaces an earlier one).
pub open spec fn meminfo_value(rows: Seq<(Seq<char>, nat)>, key: Seq<char>) -> Option<nat>
    decreases rows.len(),
{
    if rows.len() == 0 {
        None
    } else if rows.last().0 == key {
        Some(rows.last().1)
    } else {
        meminfo_value(rows.drop_last(), key)
    }
}

proof fn lemma_meminfo_push(rows: Seq<(Seq<char>, nat)>, p: (Seq<char>, nat), key: Seq<char>)
    ensures
        meminfo_value(rows.push(p), key) == if p.0 == key {
            Some(p.1)
        } else {
            meminfo_value(rows, key)
        },
{
    assert(rows.push(p).drop_last() =~= rows);
}

proof fn lemma_meminfo_bounded(rows: Seq<(Seq<char>, nat)>, key: Seq<char>)
    requires
        forall|i: int| 0 <= i < rows.len() ==> #[trigger] rows[i].1 <= u64::MAX,
    ensures
        meminfo_value(rows, key) matches Some(n) ==> n <= u64::MAX,
    decreases rows.len(),
{
    if rows.len() > 0 && rows.last().0 != key {
        let d = rows.drop_last();
        assert forall|i: int| 0 <= i < d.len() implies #[trigger] d[i].1 <= u64::MAX by {
            assert(d[i] == rows[i]);
        }
        lemma_meminfo_bounded(d, key);
    }
}

fn meminfo_line(v: &Vec<char>, a: usize, b: usize) -> (r: Option<(usize, usize, u64)>)
    requires
        a <= b <= v@.len(),
    ensures
        match meminfo_row(v@.subrange(a as int, b as int)) {
            Some(p) => r matches Some(t) && a <= t.0 <= t.1 <= b && v@.subrange(
                t.0 as int,
                t.1 as int,
            ) == p.0 && t.2 == p.1,
            None => r is None,
        },
{
    let ghost line = v@.subrange(a as int, b as int);
    let i = match find_char(v, a, b, ':') {
        Some(i) => i,
        None => return None,
    };
    assert(line.take(i - a) =~= v@.subrange(a as int, i as int));
    assert(line.skip(i - a + 1) =~= v@.subrange(i + 1, b as int));
    let w = split_words(v, i + 1, b);
    if w.len() == 0 {
        return None;
    }
    let kib = match parse_unsigned_span(v, w[0].0, w[0].1, u64::MAX) {
        Some(n) => n,
        None => return None,
    };
    let bytes = if kib > u64::MAX / 1024 {
        u64::MAX
    } else {
        kib * 1024
    };
    Some((a, i, bytes))
}

/// The memory figures of `/proc/meminfo`.
pub open spec fn memory_of(input: Seq<char>) -> Result<MemoryMetrics, Seq<char>> {
    let rows = meminfo_rows(input);
    match (meminfo_value(rows, "MemTotal"@), meminfo_value(rows, "MemAvailable"@)) {
        (None, _) => Err("MemTotal missing from /proc/meminfo"@),
        (Some(_), None) => Err("MemAvailable missing from /proc/meminfo"@),
        (Some(total), Some(available)) => {
            let swap_total = match meminfo_value(rows, "SwapTotal"@) {
                Some(n) => n,
                None => 0,
            };
            let swap_free = match meminfo_value(rows, "SwapFree"@) {
                Some(n) => n,
                None => 0,
            };
            Ok(
                MemoryMetrics {
                    total_bytes: total as u64,
                    used_bytes: (if total > available {
                        total - available
                    } else {
                        0
                    }) as u64,
                    available_bytes: available as u64,
                    swap_total_bytes: swap_total as u64,
                    swap_used_bytes: (if swap_total > swap_free {
                        swap_total - swap_free
                    } else {
                        0
                    }) as u64,
                },
            )
        },
    }
}

/// `meminfo_value` is the value of the last row with the key, and `None`
/// exactly when no row has it.
pub proof fn lemma_meminfo_value(rows: Seq<(Seq<char>, nat)>, key: Seq<char>)
    ensures
        match meminfo_value(rows, key) {
            Some(v) => last_value_is(rows, key, v),
            None => !has_key(rows, key),
        },
    decreases rows.len(),
{
    if rows.len() > 0 {
        let d = rows.drop_last();
        let p = rows.last();
        assert(d.push(p) =~= rows);
        lemma_meminfo_value(d, key);
        match meminfo_value(d, key) {
            Some(v) => lemma_last_value_push(d, p, key, v),
            None => lemma_last_value_push(d, p, key, 0nat),
        }
    }
}

/// Every `/proc/meminfo` row holds at most `u64::MAX` bytes.
pub proof fn lemma_meminfo_rows_bounded(input: Seq<char>)
    ensures
        forall|i: int| 0 <= i < meminfo_rows(input).len() ==> #[trigger] meminfo_rows(input)[i].1 <= u64::MAX,
{
    let f = |l: Seq<char>| meminfo_row(l);
    let ls = lines(input);
    lemma_filter_map_source(ls, f);
    assert forall|i: int| 0 <= i < meminfo_rows(input).len() implies #[trigger] meminfo_rows(input)[i].1
        <= u64::MAX by {
        let j = choose|j: int| 0 <= j < ls.len() && f(#[trigger] ls[j]) == Some(#[trigger] filter_map(ls, f)[i]);
        assert(meminfo_rows(input) == filter_map(ls, f));
    }
}

/// The figure of a key in the rows: the last row's value, `absent` when no
/// row has the key.
pub open spec fn row_figure(rows: Seq<(Seq<char>, nat)>, key: Seq<char>, absent: nat, v: nat) -> bool {
    &&& has_key(rows, key) ==> last_value_is(rows, key, v)
    &&& !has_key(rows, key) ==> v == absent
}

/// What `/proc/meminfo` says, read from its rows: the total, the available
/// memory and the swap total are the last row of their key (no `SwapTotal`
/// row means no swap); used memory and used swap are what the total leaves
/// over the available or free amount, never below zero. The reading fails
/// exactly when `MemTotal` or `MemAvailable` is missing.
pub proof fn lemma_memory_from_rows(input: Seq<char>)
    ensures
        ({
            let rows = meminfo_rows(input);
            &&& memory_of(input) is Err <==> (!has_key(rows, "MemTotal"@) || !has_key(rows, "MemAvailable"@))
            &&& memory_of(input) matches Ok(m) ==> {
                &&& last_value_is(rows, "MemTotal"@, m.total_bytes as nat)
                &&& last_value_is(rows, "MemAvailable"@, m.available_bytes as nat)
                &&& m.used_bytes == if m.total_bytes > m.available_bytes {
                    m.total_bytes - m.available_bytes
                } else {
                    0
                }
                &&& row_figure(rows, "SwapTotal"@, 0, m.swap_total_bytes as nat)
                &&& exists|free: nat|
                    row_figure(rows, "SwapFree"@, 0, free) && m.swap_used_bytes == if m.swap_total_bytes > free {
                        m.swap_total_bytes - free
                    } else {
                        0
                    }
            }
        }),
{
    let rows = meminfo_rows(input);
    lemma_meminfo_rows_bounded(input);
    lemma_meminfo_value(rows, "MemTotal"@);
    lemma_meminfo_value(rows, "MemAvailable"@);
    lemma_meminfo_value(rows, "SwapTotal"@);
    lemma_meminfo_value(rows, "SwapFree"@);
    lemma_meminfo_bounded(rows, "MemTotal"@);
    lemma_meminfo_bounded(rows, "MemAvailable"@);
    lemma_meminfo_bounded(rows, "SwapTotal"@);
    lemma_meminfo_bounded(rows, "SwapFree"@);
    if let Ok(m) = memory_of(input) {
        let free = match meminfo_value(rows, "SwapFree"@) {
            Some(n) => n,
            None => 0,
        };
        assert(row_figure(rows, "SwapFree"@, 0, free));
    }
}

/// Total, used and available memory and swap from `/proc/meminfo`; an
/// internal error names a missing `MemTotal` or `MemAvailable`.
pub fn parse_memory(input: &str) -> (r: Result<MemoryMetrics, AgentError>)
    ensures
        match memory_of(input@) {
            Ok(m) => r == Ok::<MemoryMetrics, AgentError>(m),
            Err(message) => r matches Err(e) && e.kind == ErrorKind::Internal && e.message@
                == message,
        },
        r matches Ok(m) ==> {
            let rows = meminfo_rows(input@);
            &&& last_value_is(rows, "MemTotal"@, m.total_bytes as nat)
            &&& last_value_is(rows, "MemAvailable"@, m.available_bytes as nat)
            &&& row_figure(rows, "SwapTotal"@, 0, m.swap_total_bytes as nat)
        },
{
    proof {
        lemma_memory_from_rows(input@);
    }
    let v = chars_of(input);
    let spans = split_lines(&v);
    let ghost ls = lines(v@);
    let ghost f = |l: Seq<char>| meminfo_row(l);
    let ghost mut rows: Seq<(Seq<char>, nat)> = seq![];
    let mut total: Option<u64> = None;
    let mut available: Option<u64> = None;
    let mut swap_total: Option<u64> = None;
    let mut swap_free: Option<u64> = None;
    let mut k: usize = 0;
    while k < spans.len()
        invariant
            spans_are(v@, spans@, ls),
            ls == lines(v@),
            v@ == input@,
            f == (|l: Seq<char>| meminfo_row(l)),
            k <= spans@.len(),
            rows == filter_map(ls.take(k as int), f),
            forall|i: int| 0 <= i < rows.len() ==> #[trigger] rows[i].1 <= u64::MAX,
            total == match meminfo_value(rows, "MemTotal"@) {
                Some(n) => Some(n as u64),
                None => None::<u64>,
            },
            available == match meminfo_value(rows, "MemAvailable"@) {
                Some(n) => Some(n as u64),
                None => None::<u64>,
            },
            swap_total == match meminfo_value(rows, "SwapTotal"@) {
                Some(n) => Some(n as u64),
                None => None::<u64>,
            },
            swap_free == match meminfo_value(rows, "SwapFree"@) {
                Some(n) => Some(n as u64),
                None => None::<u64>,
            },
        decreases spans@.len() - k,
    {
        let (a, b) = spans[k];
        proof {
            lemma_filter_map_step(ls, k as int, f);
        }
        match meminfo_line(&v, a, b) {
            Some((ks, ke, bytes)) => {
                let ghost p = (v@.subrange(ks as int, ke as int), bytes as nat);
                proof {
                    lemma_meminfo_push(rows, p, "MemTotal"@);
                    lemma_meminfo_push(rows, p, "MemAvailable"@);
                    lemma_meminfo_push(rows, p, "SwapTotal"@);
                    lemma_meminfo_push(rows, p, "SwapFree"@);
                    rows = rows.push(p);
                }
                if span_is(&v, ks, ke, "MemTotal") {
                    total = Some(bytes);
                }
                if span_is(&v, ks, ke, "MemAvailable") {
                    available = Some(bytes);
                }
                if span_is(&v, ks, ke, "SwapTotal") {
                    swap_total = Some(bytes);
                }
                if span_is(&v, ks, ke, "SwapFree") {
                    swap_free = Some(bytes);
                }
            },
            None => {},
        }
        k = k + 1;
    }
    assert(ls.take(spans@.len() as int) =~= ls);
    proof {
        lemma_meminfo_bounded(rows, "MemTotal"@);
        lemma_meminfo_bounded(rows, "MemAvailable"@);
        lemma_meminfo_bounded(rows, "SwapTotal"@);
        lemma_meminfo_bounded(rows, "SwapFree"@);
    }
    let total = match total {
        Some(n) => n,
        None => return Err(AgentError::internal("MemTotal missing from /proc/meminfo")),
    };
    let available = match available {
        Some(n) => n,
        None => return Err(AgentError::internal("MemAvailable missing from /proc/meminfo")),
    };
    let swap_total = match swap_total {
        Some(n) => n,
        None => 0,
    };
    let swap_free = match swap_free {
        Some(n) => n,
        None => 0,
    };
    Ok(
        MemoryMetrics {
            total_bytes: total,
            used_bytes: total.saturating_sub(available),
            available_bytes: available,
            swap_total_bytes: swap_total,
            swap_used_bytes: swap_total.saturating_sub(swap_free),
        },
    )
}

// ---------------------------------------------------------------------------
// /etc/os-release
// ---------------------------------------------------------------------------

/// `s` without leading `'"'`s.
pub open spec fn strip_quotes_start(s: Seq<char>) -> Seq<char>
    decreases s.len(),
{
    if s.len() > 0 && s[0] == '"' {
        strip_quotes_start(s.drop_first())
    } else {
        s
    }
}

/// `s` without trailing `'"'`s.
pub open spec fn strip_quotes_end(s: Seq<char>) -> Seq<char>
    decreases s.len(),
{
    if s.len() > 0 && s.last() == '"' {
        strip_quotes_end(s.drop_last())
    } else {
        s
    }
}

/// `str::trim_matches('"')`.
pub open spec fn trim_quotes(s: Seq<char>) -> Seq<char> {
    strip_quotes_end(strip_quotes_start(s))
}

/// A `KEY=value` line: the trimmed key and the trimmed, unquoted value.
pub open spec fn key_value_row(line: Seq<char>) -> Option<(Seq<char>, Seq<char>)> {
    match split_once(line, '=') {
        Some((key, value)) => Some((trim(key), trim_quotes(trim(value)))),
        None => None,
    }
}

pub open spec fn key_values(input: Seq<char>) -> Seq<(Seq<char>, Seq<char>)> {
    filter_map(lines(input), |l: Seq<char>| key_value_row(l))
}

/// The span of `v[start..end]` without surrounding `'"'`s.
fn unquote_span(v: &Vec<char>, start: usize, end: usize) -> (r: (usize, usize))
    requires
        start <= end <= v@.len(),
    ensures
        start <= r.0 <= r.1 <= end,
        v@.subrange(r.0 as int, r.1 as int) == trim_quotes(v@.subrange(start as int, end as int)),
{
    let mut s = start;
    while s < end && v[s] == '"'
        invariant
            start <= s <= end <= v@.len(),
            strip_quotes_start(v@.subrange(start as int, end as int)) == strip_quotes_start(
                v@.subrange(s as int, end as int),
            ),
        decreases end - s,
    {
        assert(v@.subrange(s as int, end as int).drop_first() =~= v@.subrange(s + 1, end as int));
        s = s + 1;
    }
    let mut e = end;
    while e > s && v[e - 1] == '"'
        invariant
            start <= s <= e <= end <= v@.len(),
            strip_quotes_end(v@.subrange(s as int, end as int)) == strip_quotes_end(
                v@.subrange(s as int, e as int),
            ),
        decreases e - s,
    {
        assert(v@.subrange(s as int, e as int).drop_last() =~= v@.subrange(s as int, e - 1));
        e = e - 1;
    }
    (s, e)
}

/// The `KEY=value` pairs of an os-release style file, in order; a later
/// pair for the same key replaces an earlier one where they are looked up.
pub fn parse_key_values(input: &str) -> (r: Vec<(String, String)>)
    ensures
        pair_texts(r@) == key_values(input@),
{
    let v = chars_of(input);
    let spans = split_lines(&v);
    let ghost ls = lines(v@);
    let ghost f = |l: Seq<char>| key_value_row(l);
    let mut out: Vec<(String, String)> = Vec::new();
    let mut k: usize = 0;
    while k < spans.len()
        invariant
            spans_are(v@, spans@, ls),
            ls == lines(v@),
            v@ == input@,
            f == (|l: Seq<char>| key_value_row(l)),
            k <= spans@.len(),
            pair_texts(out@) == filter_map(ls.take(k as int), f),
        decreases spans@.len() - k,
    {
        let (a, b) = spans[k];
        proof {
            lemma_filter_map_step(ls, k as int, f);
        }
        let ghost line = v@.subrange(a as int, b as int);
        match find_char(&v, a, b, '=') {
            Some(i) => {
                assert(line.take(i - a) =~= v@.subrange(a as int, i as int));
                assert(line.skip(i - a + 1) =~= v@.subrange(i + 1, b as int));
                let (ks, ke) = trim_span(&v, a, i);
                let (vs, ve) = trim_span(&v, i + 1, b);
                let (qs, qe) = unquote_span(&v, vs, ve);
                assert(v@.subrange(vs as int, ve as int) == trim(v@.subrange(i + 1, b as int)));
                out.push((string_of(&v, ks, ke), string_of(&v, qs, qe)));
                assert(pair_texts(out@) =~= filter_map(ls.take(k + 1), f));
            },
            None => {},
        }
        k = k + 1;
    }
    assert(ls.take(spans@.len() as int) =~= ls);
    out
}

/// The operating system's name (`NAME`, or `"Linux"` when absent) and
/// version (`VERSION_ID`) from `/etc/os-release`.
pub fn os_identity(os_release: &str) -> (r: (String, Option<String>))
    ensures
        r.0@ == match last_value(key_values(os_release@), "NAME"@) {
            Some(name) => name,
            None => "Linux"@,
        },
        opt_text(r.1) == last_value(key_values(os_release@), "VERSION_ID"@),
{
    let pairs = parse_key_values(os_release);
    let name = match property_value(&pairs, "NAME") {
        Some(n) => n,
        None => owned("Linux"),
    };
    let version = property_value(&pairs, "VERSION_ID");
    (name, version)
}

// ---------------------------------------------------------------------------
// /proc/stat
// ---------------------------------------------------------------------------

/// Idle and total jiffies of the aggregate CPU line.
#[derive(Debug, Clone, Copy, PartialEq, Eq, Structural)]
pub struct CpuSample {
    pub idle: u64,
    pub total: u64,
}

/// The fields after the label of the first line, if there is a line.
pub open spec fn cpu_fields(input: Seq<char>) -> Option<Seq<Seq<char>>> {
    if lines(input).len() == 0 {
        None
    } else {
        let w = words(lines(input)[0]);
        Some(
            if w.len() == 0 {
                w
            } else {
                w.drop_first()
            },
        )
    }
}

pub open spec fn all_counters(fields: Seq<Seq<char>>) -> bool {
    forall|i: int| 0 <= i < fields.len() ==> #[trigger] counter(fields[i]) is Some
}

pub open spec fn counter_values(fields: Seq<Seq<char>>) -> Seq<nat> {
    fields.map_values(|f: Seq<char>| counter(f)->0)
}

pub open spec fn sum(s: Seq<nat>) -> nat
    decreases s.len(),
{
    if s.len() == 0 {
        0
    } else {
        sum(s.drop_last()) + s.last()
    }
}

/// What `/proc/stat` gives: `(idle, total)` with idle the saturated sum of
/// the idle and iowait columns, or the error message.
pub open spec fn cpu_sample_of(input: Seq<char>) -> Result<(nat, nat), Seq<char>> {
    match cpu_fields(input) {
        None => Err("missing aggregate CPU line"@),
        Some(fields) => if !all_counters(fields) {
            Err("invalid /proc/stat CPU values"@)
        } else if fields.len() < 5 {
            Err("incomplete /proc/stat CPU values"@)
        } else {
            let values = counter_values(fields);
            Ok((capped(values[3] + values[4]), sum(values)))
        },
    }
}

/// The total of a well-formed aggregate line fits a `u64` (else summing it
/// overflows).
pub open spec fn cpu_total_fits(input: Seq<char>) -> bool {
    match cpu_fields(input) {
        Some(fields) => all_counters(fields) && fields.len() >= 5 ==> sum(counter_values(fields))
            <= u64::MAX,
        None => true,
    }
}

proof fn lemma_sum_prefix(s: Seq<nat>, k: int)
    requires
        0 <= k <= s.len(),
    ensures
        sum(s.take(k)) <= sum(s),
    decreases s.len(),
{
    if k < s.len() {
        lemma_sum_prefix(s.drop_last(), k);
        assert(s.drop_last().take(k) =~= s.take(k));
    } else {
        assert(s.take(k) =~= s);
    }
}

/// The values of the aggregate CPU line, or the error message.
fn cpu_values(input: &str) -> (r: Result<Vec<u64>, &'static str>)
    ensures
        match cpu_fields(input@) {
            None => r matches Err(m) && m@ == "missing aggregate CPU line"@,
            Some(fields) => if all_counters(fields) {
                r matches Ok(values) && values@.len() == fields.len() && forall|i: int|
                    0 <= i < fields.len() ==> values@[i] == #[trigger] counter_values(fields)[i]
            } else {
                r matches Err(m) && m@ == "invalid /proc/stat CPU values"@
            },
        },
{
    let v = chars_of(input);
    let spans = split_lines(&v);
    if spans.len() == 0 {
        return Err("missing aggregate CPU line");
    }
    let (a, b) = spans[0];
    let w = split_words(&v, a, b);
    let ghost all = words(v@.subrange(a as int, b as int));
    let ghost fields = if all.len() == 0 {
        all
    } else {
        all.drop_first()
    };
    assert(cpu_fields(input@) == Some(fields));
    let mut values: Vec<u64> = Vec::new();
    let mut i: usize = 1;
    if w.len() == 0 {
        i = 0;
    }
    while i < w.len()
        invariant
            spans_are(v@, w@, all),
            v@ == input@,
            cpu_fields(input@) == Some(fields),
            fields == (if all.len() == 0 {
                all
            } else {
                all.drop_first()
            }),
            w@.len() > 0 ==> 1 <= i,
            w@.len() == 0 ==> i == 0,
            i <= w@.len(),
            values@.len() == i - (if w@.len() == 0 {
                0int
            } else {
                1int
            }),
            forall|j: int| 0 <= j < values@.len() ==> #[trigger] counter(fields[j]) is Some
                && values@[j] == counter(fields[j])->0,
        decreases w@.len() - i,
    {
        let (s, e) = w[i];
        assert(fields[i - 1] == all[i as int]);
        match parse_unsigned_span(&v, s, e, u64::MAX) {
            Some(n) => values.push(n),
            None => {
                assert(!all_counters(fields)) by {
                    assert(counter(fields[i - 1]) is None);
                }
                return Err("invalid /proc/stat CPU values");
            },
        }
        i = i + 1;
    }
    assert(all_counters(fields));
    Ok(values)
}

/// Whether summing the aggregate CPU line stays within `u64`.
pub fn cpu_sample_fits(input: &str) -> (r: bool)
    ensures
        r == cpu_total_fits(input@),
{
    let values = match cpu_values(input) {
        Ok(values) => values,
        Err(_) => return true,
    };
    let ghost fields = cpu_fields(input@)->0;
    assert(all_counters(fields));
    assert(values@.map_values(|x: u64| x as nat) =~= counter_values(fields)) by {
        assert forall|i: int| 0 <= i < values@.len() implies values@.map_values(
            |x: u64| x as nat,
        )[i] == counter_values(fields)[i] by {
            assert(values@[i] == counter_values(fields)[i]);
        }
    }
    if values.len() < 5 {
        return true;
    }
    let mut total: u64 = 0;
    let mut i: usize = 0;
    while i < values.len()
        invariant
            i <= values@.len(),
            total == sum(values@.take(i as int).map_values(|x: u64| x as nat)),
            cpu_fields(input@) == Some(fields),
            all_counters(fields),
            fields.len() >= 5,
            values@.map_values(|x: u64| x as nat) == counter_values(fields),
        decreases values@.len() - i,
    {
        assert(values@.take(i + 1).map_values(|x: u64| x as nat).drop_last() =~= values@.take(
            i as int,
        ).map_values(|x: u64| x as nat));
        if values[i] > u64::MAX - total {
            proof {
                lemma_sum_prefix(values@.map_values(|x: u64| x as nat), i + 1);
                assert(values@.take(i + 1).map_values(|x: u64| x as nat) =~= values@.map_values(
                    |x: u64| x as nat,
                ).take(i + 1));
            }
            return false;
        }
        total = total + values[i];
        i = i + 1;
    }
    assert(values@.take(values@.len() as int) =~= values@);
    assert(values@.map_values(|x: u64| x as nat) =~= counter_values(fields));
    true
}

/// Idle and total jiffies from `/proc/stat`'s aggregate `cpu` line.
pub fn parse_cpu_sample(input: &str) -> (r: Result<CpuSample, AgentError>)
    requires
        cpu_total_fits(input@),
    ensures
        match cpu_sample_of(input@) {
            Ok((idle, total)) => r == Ok::<CpuSample, AgentError>(
                CpuSample { idle: idle as u64, total: total as u64 },
            ),
            Err(message) => r matches Err(e) && e.kind == ErrorKind::Internal && e.message@
                == message,
        },
{
    let values = match cpu_values(input) {
        Ok(values) => values,
        Err(message) => return Err(AgentError::internal(message)),
    };
    let ghost fields = cpu_fields(input@)->0;
    let ghost nats = counter_values(fields);
    assert(all_counters(fields));
    assert(values@.map_values(|x: u64| x as nat) =~= nats) by {
        assert forall|i: int| 0 <= i < values@.len() implies values@.map_values(
            |x: u64| x as nat,
        )[i] == nats[i] by {
            assert(values@[i] == counter_values(fields)[i]);
        }
    }
    if values.len() < 5 {
        return Err(AgentError::internal("incomplete /proc/stat CPU values"));
    }
    let mut total: u64 = 0;
    let mut i: usize = 0;
    while i < values.len()
        invariant
            i <= values@.len(),
            values@.map_values(|x: u64| x as nat) == nats,
            sum(nats) <= u64::MAX,
            total == sum(nats.take(i as int)),
        decreases values@.len() - i,
    {
        assert(nats.take(i + 1).drop_last() =~= nats.take(i as int));
        proof {
            lemma_sum_prefix(nats, i + 1);
        }
        total = total + values[i];
        i = i + 1;
    }
    assert(nats.take(values@.len() as int) =~= nats);
    Ok(CpuSample { idle: values[3].saturating_add(values[4]), total })
}

// ---------------------------------------------------------------------------
// Thermal zones
// ---------------------------------------------------------------------------

/// The code point of `char::to_ascii_lowercase(c)`.
pub open spec fn ascii_lower(c: char) -> nat {
    if is_upper(c) {
        c as u32 as nat + 32
    } else {
        c as u32 as nat
    }
}

/// The code points of `s` in ASCII lower case.
pub open spec fn lowered(s: Seq<char>) -> Seq<nat> {
    s.map_values(|c: char| ascii_lower(c))
}

/// The code points of `s`.
pub open spec fn code_points(s: Seq<char>) -> Seq<nat> {
    s.map_values(|c: char| c as u32 as nat)
}

/// Whether `pat` occurs in `s` with `s` read in ASCII lower case.
pub open spec fn contains_lowered(s: Seq<char>, pat: Seq<char>) -> bool {
    exists|i: int|
        0 <= i && i + pat.len() <= s.len() && #[trigger] lowered(s.subrange(i, i + pat.len())) == code_points(pat)
}

/// A thermal zone of the CPU: its trimmed type, lower-cased, mentions
/// `cpu`, `soc` or `x86_pkg`.
pub open spec fn cpu_zone(zone_type: Seq<char>) -> bool {
    let z = trim(zone_type);
    contains_lowered(z, "cpu"@) || contains_lowered(z, "soc"@) || contains_lowered(z, "x86_pkg"@)
}

/// `str::parse::<i32>`: an optional sign, then one or more decimal digits,
/// within `i32`'s range.
pub open spec fn parse_i32(s: Seq<char>) -> Option<int> {
    if s.len() > 0 && s[0] == '-' {
        let d = s.drop_first();
        if d.len() > 0 && all_digits(d) && digits_value(d) <= 0x8000_0000 {
            Some(-(digits_value(d) as int))
        } else {
            None
        }
    } else {
        match parse_unsigned(s, 0x7fff_ffff) {
            Some(n) => Some(n as int),
            None => None,
        }
    }
}

/// A plausible CPU temperature in millidegrees Celsius: the zone is a CPU
/// zone and the trimmed reading is an `i32` between -40000 and 150000.
pub open spec fn cpu_millidegrees(zone_type: Seq<char>, value: Seq<char>) -> Option<int> {
    if !cpu_zone(zone_type) {
        None
    } else {
        match parse_i32(trim(value)) {
            Some(m) => if -40_000 <= m <= 150_000 {
                Some(m)
            } else {
                None
            },
            None => None,
        }
    }
}

/// Whether `v[start..end]`, lower-cased, contains the lower-case `pat`.
fn contains_lowered_span(v: &Vec<char>, start: usize, end: usize, pat: &str) -> (r: bool)
    requires
        start <= end <= v@.len(),
    ensures
        r == contains_lowered(v@.subrange(start as int, end as int), pat@),
{
    let p = chars_of(pat);
    let ghost s = v@.subrange(start as int, end as int);
    if p.len() > end - start {
        assert forall|i: int| 0 <= i && i + pat@.len() <= s.len() implies #[trigger] lowered(s.subrange(
            i,
            i + pat@.len(),
        )) != code_points(pat@) by {}
        return false;
    }
    let mut i: usize = start;
    while i <= end - p.len()
        invariant
            start <= i <= end <= v@.len(),
            p@ == pat@,
            p@.len() <= end - start,
            s == v@.subrange(start as int, end as int),
            forall|j: int|
                0 <= j < i - start ==> #[trigger] lowered(s.subrange(j, j + pat@.len())) != code_points(pat@),
        decreases end - i,
    {
        let mut k: usize = 0;
        let mut same = true;
        while k < p.len()
            invariant
                start <= i,
                i + p@.len() <= end <= v@.len(),
                k <= p@.len(),
                same == forall|m: int| 0 <= m < k ==> ascii_lower(#[trigger] v@[i + m]) == p@[m] as u32 as nat,
            decreases p@.len() - k,
        {
            let c = v[i + k];
            let want = p[k];
            let code = if 'A' <= c && c <= 'Z' {
                (c as u32) + 32
            } else {
                c as u32
            };
            let hit = code == want as u32;
            assert(hit == (ascii_lower(v@[i + k]) == p@[k as int] as u32 as nat));
            let ghost before = same;
            same = same && hit;
            assert(same == forall|m: int|
                0 <= m < k + 1 ==> ascii_lower(#[trigger] v@[i + m]) == p@[m] as u32 as nat) by {
                if before && hit {
                    assert forall|m: int| 0 <= m < k + 1 implies ascii_lower(
                        #[trigger] v@[i + m],
                    ) == p@[m] as u32 as nat by {
                        if m < k {
                        }
                    }
                } else if !before {
                    let m = choose|m: int| 0 <= m < k && ascii_lower(v@[i + m]) != p@[m] as u32 as nat;
                    assert(ascii_lower(v@[i + m]) != p@[m] as u32 as nat);
                }
            }
            k = k + 1;
        }
        let ghost window = lowered(s.subrange(i - start, i - start + pat@.len()));
        assert(same == (window =~= code_points(pat@))) by {
            if same {
                assert forall|m: int| 0 <= m < p@.len() implies window[m] == code_points(pat@)[m] by {
                    assert(ascii_lower(v@[i + m]) == p@[m] as u32 as nat);
                }
            } else {
                let m = choose|m: int| 0 <= m < p@.len() && ascii_lower(v@[i + m]) != p@[m] as u32 as nat;
                assert(window[m] != code_points(pat@)[m]);
            }
        }
        if same {
            return true;
        }
        i = i + 1;
    }
    assert forall|j: int| 0 <= j && j + pat@.len() <= s.len() implies #[trigger] lowered(s.subrange(
        j,
        j + pat@.len(),
    )) != code_points(pat@) by {
        assert(j < i - start);
    }
    false
}

/// Parses `v[start..end]` as an `i32`.
fn parse_i32_span(v: &Vec<char>, start: usize, end: usize) -> (r: Option<i32>)
    requires
        start <= end <= v@.len(),
    ensures
        match parse_i32(v@.subrange(start as int, end as int)) {
            Some(n) => r == Some(n as i32),
            None => r is None,
        },
{
    let ghost s = v@.subrange(start as int, end as int);
    if start < end && v[start] == '-' {
        assert(s.drop_first() =~= v@.subrange(start + 1, end as int));
        if start + 1 < end && v[start + 1] == '+' {
            assert(!is_digit(s.drop_first()[0]));
            return None;
        }
        match parse_unsigned_span(v, start + 1, end, 0x8000_0000) {
            Some(n) => {
                if n == 0x8000_0000 {
                    Some(i32::MIN)
                } else {
                    Some(-(n as i32))
                }
            },
            None => None,
        }
    } else {
        match parse_unsigned_span(v, start, end, 0x7fff_ffff) {
            Some(n) => Some(n as i32),
            None => None,
        }
    }
}

/// The CPU temperature a thermal zone reports, in millidegrees Celsius;
/// `None` for another kind of zone or an implausible reading.
pub fn cpu_temperature_millidegrees(zone_type: &str, value: &str) -> (r: Option<i32>)
    ensures
        match cpu_millidegrees(zone_type@, value@) {
            Some(m) => r == Some(m as i32),
            None => r is None,
        },
{
    let z = chars_of(zone_type);
    let (zs, ze) = trim_span(&z, 0, z.len());
    assert(z@.subrange(0, z@.len() as int) =~= zone_type@);
    let is_cpu = contains_lowered_span(&z, zs, ze, "cpu") || contains_lowered_span(&z, zs, ze, "soc")
        || contains_lowered_span(&z, zs, ze, "x86_pkg");
    if !is_cpu {
        return None;
    }
    let t = chars_of(value);
    let (ts, te) = trim_span(&t, 0, t.len());
    assert(t@.subrange(0, t@.len() as int) =~= value@);
    match parse_i32_span(&t, ts, te) {
        Some(m) => if -40_000 <= m && m <= 150_000 {
            Some(m)
        } else {
            None
        },
        None => None,
    }
}


// ---------------------------------------------------------------------------
// Which devices count
// ---------------------------------------------------------------------------

/// A network interface whose traffic counts: not loopback, and backed by a
/// device (`/sys/class/net/NAME/device` exists).
pub open spec fn counted_interface(name: Seq<char>, has_device: bool) -> bool {
    name != "lo"@ && has_device
}

/// A block device whose I/O counts: not a loop, RAM or compressed-RAM
/// device, not a partition, and not stacked on other devices (its
/// `slaves` directory is empty).
pub open spec fn counted_block_device(name: Seq<char>, is_partition: bool, has_slaves: bool) -> bool {
    !crate::text::starts_with(name, "loop"@) && !crate::text::starts_with(name, "ram"@)
        && !crate::text::starts_with(name, "zram"@) && !is_partition && !has_slaves
}

pub fn is_counted_interface(name: &str, has_device: bool) -> (r: bool)
    ensures
        r == counted_interface(name@, has_device),
{
    !crate::agent::events::text_eq(name, "lo") && has_device
}

pub fn is_counted_block_device(name: &str, is_partition: bool, has_slaves: bool) -> (r: bool)
    ensures
        r == counted_block_device(name@, is_partition, has_slaves),
{
    !crate::text::has_prefix(name, "loop") && !crate::text::has_prefix(name, "ram") && !crate::text::has_prefix(name, "zram") && !is_partition && !has_slaves
}

/// The names kept by `keep`, in order.
pub open spec fn kept<A>(entries: Seq<A>, keep: spec_fn(A) -> bool, name: spec_fn(A) -> Seq<char>) -> Seq<Seq<char>>
    decreases entries.len(),
{
    if entries.len() == 0 {
        seq![]
    } else if keep(entries.last()) {
        kept(entries.drop_last(), keep, name).push(name(entries.last()))
    } else {
        kept(entries.drop_last(), keep, name)
    }
}

pub open spec fn interface_kept() -> spec_fn((String, bool)) -> bool {
    |e: (String, bool)| counted_interface(e.0@, e.1)
}

pub open spec fn interface_name() -> spec_fn((String, bool)) -> Seq<char> {
    |e: (String, bool)| e.0@
}

/// The interfaces whose traffic counts, from `/sys/class/net` entries (each
/// name with whether it has a device); `None` when there is none.
pub fn eligible_network_interfaces(entries: &Vec<(String, bool)>) -> (r: Option<Vec<String>>)
    ensures
        ({
            let names = kept(entries@, interface_kept(), interface_name());
            if names.len() == 0 {
                r is None
            } else {
                r matches Some(v) && texts(v@) == names
            }
        }),
{
    let mut out: Vec<String> = Vec::new();
    let mut i: usize = 0;
    while i < entries.len()
        invariant
            i <= entries@.len(),
            texts(out@) == kept(entries@.take(i as int), interface_kept(), interface_name()),
        decreases entries@.len() - i,
    {
        assert(entries@.take(i + 1).drop_last() =~= entries@.take(i as int));
        let (name, has_device) = &entries[i];
        if is_counted_interface(name.as_str(), *has_device) {
            let ghost before = texts(out@);
            out.push(name.clone());
            assert(texts(out@) =~= before.push(name@));
        }
        i = i + 1;
    }
    assert(entries@.take(i as int) =~= entries@);
    if out.len() == 0 {
        None
    } else {
        Some(out)
    }
}

pub open spec fn block_kept() -> spec_fn((String, bool, bool)) -> bool {
    |e: (String, bool, bool)| counted_block_device(e.0@, e.1, e.2)
}

pub open spec fn block_name() -> spec_fn((String, bool, bool)) -> Seq<char> {
    |e: (String, bool, bool)| e.0@
}

/// The block devices whose I/O counts, from `/sys/class/block` entries
/// (each name with whether it is a partition and whether it has slaves);
/// `None` when there is none.
pub fn eligible_block_devices(entries: &Vec<(String, bool, bool)>) -> (r: Option<Vec<String>>)
    ensures
        ({
            let names = kept(entries@, block_kept(), block_name());
            if names.len() == 0 {
                r is None
            } else {
                r matches Some(v) && texts(v@) == names
            }
        }),
{
    let mut out: Vec<String> = Vec::new();
    let mut i: usize = 0;
    while i < entries.len()
        invariant
            i <= entries@.len(),
            texts(out@) == kept(entries@.take(i as int), block_kept(), block_name()),
        decreases entries@.len() - i,
    {
        assert(entries@.take(i + 1).drop_last() =~= entries@.take(i as int));
        let (name, is_partition, has_slaves) = &entries[i];
        if is_counted_block_device(name.as_str(), *is_partition, *has_slaves) {
            let ghost before = texts(out@);
            out.push(name.clone());
            assert(texts(out@) =~= before.push(name@));
        }
        i = i + 1;
    }
    assert(entries@.take(i as int) =~= entries@);
    if out.len() == 0 {
        None
    } else {
        Some(out)
    }
}

} // verus!
