//! Text primitives over characters: whitespace, trimming, line and word
//! splitting, searching and decimal parsing, each with the meaning that the
//! matching `str` method has, stated over `Seq<char>`.
//!
//! Executable helpers work on a `Vec<char>` and describe pieces of it by
//! half-open spans `(start, end)`.

use vstd::prelude::*;

verus! {

// ---------------------------------------------------------------------------
// Character classes
// ---------------------------------------------------------------------------

/// Unicode `White_Space`, the class `char::is_whitespace` tests.
pub open spec fn is_ws(c: char) -> bool {
    let n = c as u32;
    ||| 9 <= n <= 13
    ||| n == 32
    ||| n == 0x85
    ||| n == 0xA0
    ||| n == 0x1680
    ||| 0x2000 <= n <= 0x200A
    ||| n == 0x2028
    ||| n == 0x2029
    ||| n == 0x202F
    ||| n == 0x205F
    ||| n == 0x3000
}

pub open spec fn is_digit(c: char) -> bool {
    '0' <= c <= '9'
}

pub open spec fn is_lower(c: char) -> bool {
    'a' <= c <= 'z'
}

pub open spec fn is_upper(c: char) -> bool {
    'A' <= c <= 'Z'
}

pub open spec fn is_alnum(c: char) -> bool {
    is_digit(c) || is_lower(c) || is_upper(c)
}

pub open spec fn is_hex_digit(c: char) -> bool {
    is_digit(c) || ('a' <= c <= 'f') || ('A' <= c <= 'F')
}

pub fn ws(c: char) -> (r: bool)
    ensures
        r == is_ws(c),
{
    let n = c as u32;
    (9 <= n && n <= 13) || n == 32 || n == 0x85 || n == 0xA0 || n == 0x1680 || (0x2000 <= n && n
        <= 0x200A) || n == 0x2028 || n == 0x2029 || n == 0x202F || n == 0x205F || n == 0x3000
}

pub fn digit(c: char) -> (r: bool)
    ensures
        r == is_digit(c),
{
    '0' <= c && c <= '9'
}

pub fn lower(c: char) -> (r: bool)
    ensures
        r == is_lower(c),
{
    'a' <= c && c <= 'z'
}

pub fn alnum(c: char) -> (r: bool)
    ensures
        r == is_alnum(c),
{
    ('0' <= c && c <= '9') || ('a' <= c && c <= 'z') || ('A' <= c && c <= 'Z')
}

pub fn hex_digit(c: char) -> (r: bool)
    ensures
        r == is_hex_digit(c),
{
    ('0' <= c && c <= '9') || ('a' <= c && c <= 'f') || ('A' <= c && c <= 'F')
}

// ---------------------------------------------------------------------------
// Conversions
// ---------------------------------------------------------------------------

/// The characters of `s`, in order.
pub fn chars_of(s: &str) -> (v: Vec<char>)
    ensures
        v@ == s@,
{
    let mut v: Vec<char> = Vec::new();
    for c in iter: s.chars()
        invariant
            v@ == iter.seq().take(iter.index() as int),
    {
        v.push(c);
    }
    v
}

/// Appends one character to a string.
#[verifier::external_body]
pub(crate) fn push_char(s: &mut String, c: char)
    ensures
        final(s)@ == old(s)@.push(c),
{
    s.push(c);
}

/// Appends `v[start..end]` to `out`.
pub fn push_span(out: &mut String, v: &Vec<char>, start: usize, end: usize)
    requires
        start <= end <= v@.len(),
    ensures
        final(out)@ == old(out)@ + v@.subrange(start as int, end as int),
{
    let mut i = start;
    while i < end
        invariant
            start <= i <= end <= v@.len(),
            out@ == old(out)@ + v@.subrange(start as int, i as int),
        decreases end - i,
    {
        push_char(out, v[i]);
        assert(v@.subrange(start as int, i as int).push(v@[i as int]) =~= v@.subrange(
            start as int,
            i + 1,
        ));
        i = i + 1;
    }
}

/// A new string holding `v[start..end]`.
pub fn string_of(v: &Vec<char>, start: usize, end: usize) -> (s: String)
    requires
        start <= end <= v@.len(),
    ensures
        s@ == v@.subrange(start as int, end as int),
{
    let mut s = String::new();
    push_span(&mut s, v, start, end);
    assert(Seq::<char>::empty() + v@.subrange(start as int, end as int) =~= v@.subrange(
        start as int,
        end as int,
    ));
    s
}

/// Appends all of `s` to `out`.
pub fn push_str(out: &mut String, s: &str)
    ensures
        final(out)@ == old(out)@ + s@,
{
    let v = chars_of(s);
    push_span(out, &v, 0, v.len());
    assert(v@.subrange(0, v@.len() as int) =~= v@);
}

/// Whether `v[start..end]` spells `lit`.
pub fn span_is(v: &Vec<char>, start: usize, end: usize, lit: &str) -> (r: bool)
    requires
        start <= end <= v@.len(),
    ensures
        r == (v@.subrange(start as int, end as int) == lit@),
{
    let w = chars_of(lit);
    if end - start != w.len() {
        assert(v@.subrange(start as int, end as int).len() != lit@.len());
        return false;
    }
    let mut i: usize = 0;
    while i < w.len()
        invariant
            start <= end <= v@.len(),
            end - start == w@.len(),
            w@ == lit@,
            i <= w@.len(),
            forall|j: int| 0 <= j < i ==> v@[start + j] == w@[j],
        decreases w@.len() - i,
    {
        if v[start + i] != w[i] {
            assert(v@.subrange(start as int, end as int)[i as int] != lit@[i as int]);
            return false;
        }
        i = i + 1;
    }
    assert(v@.subrange(start as int, end as int) =~= lit@);
    true
}

/// Whether `v[start..end]` begins with `lit`.
pub fn span_starts_with(v: &Vec<char>, start: usize, end: usize, lit: &str) -> (r: bool)
    requires
        start <= end <= v@.len(),
    ensures
        r == (lit@.len() <= end - start && v@.subrange(start as int, start + lit@.len()) == lit@),
{
    let w = chars_of(lit);
    if w.len() > end - start {
        return false;
    }
    span_is(v, start, start + w.len(), lit)
}

/// Whether `v[start..end]` ends with `lit`.
pub fn span_ends_with(v: &Vec<char>, start: usize, end: usize, lit: &str) -> (r: bool)
    requires
        start <= end <= v@.len(),
    ensures
        r == (lit@.len() <= end - start && v@.subrange(end - lit@.len(), end as int) == lit@),
{
    let w = chars_of(lit);
    if w.len() > end - start {
        return false;
    }
    span_is(v, end - w.len(), end, lit)
}

/// `str::contains`: `pat` occurs in `s`.
pub open spec fn contains(s: Seq<char>, pat: Seq<char>) -> bool {
    exists|i: int| 0 <= i && i + pat.len() <= s.len() && #[trigger] s.subrange(i, i + pat.len()) == pat
}

/// Whether `pat` occurs in `s`.
pub fn contains_str(s: &str, pat: &str) -> (r: bool)
    ensures
        r == contains(s@, pat@),
{
    let v = chars_of(s);
    let p = chars_of(pat);
    if p.len() > v.len() {
        assert forall|i: int| 0 <= i && i + pat@.len() <= s@.len() implies #[trigger] s@.subrange(i, i + pat@.len()) != pat@ by {}
        return false;
    }
    if p.len() == 0 {
        assert(s@.subrange(0, 0 + pat@.len() as int) =~= pat@);
        return true;
    }
    let mut i: usize = 0;
    while i <= v.len() - p.len()
        invariant
            v@ == s@,
            p@ == pat@,
            0 < p@.len() <= v@.len(),
            i <= v@.len() - p@.len() + 1,
            forall|j: int| 0 <= j < i ==> #[trigger] s@.subrange(j, j + pat@.len()) != pat@,
        decreases v@.len() - p@.len() + 1 - i,
    {
        if span_is(&v, i, i + p.len(), pat) {
            assert(s@.subrange(i as int, i + pat@.len()) == pat@);
            return true;
        }
        i = i + 1;
    }
    false
}

// ---------------------------------------------------------------------------
// Trimming
// ---------------------------------------------------------------------------

/// `str::trim_start`: leading whitespace removed.
pub open spec fn trim_start(s: Seq<char>) -> Seq<char>
    decreases s.len(),
{
    if s.len() > 0 && is_ws(s[0]) {
        trim_start(s.drop_first())
    } else {
        s
    }
}

/// `str::trim_end`: trailing whitespace removed.
pub open spec fn trim_end(s: Seq<char>) -> Seq<char>
    decreases s.len(),
{
    if s.len() > 0 && is_ws(s.last()) {
        trim_end(s.drop_last())
    } else {
        s
    }
}

/// `str::trim`.
pub open spec fn trim(s: Seq<char>) -> Seq<char> {
    trim_end(trim_start(s))
}

/// Where `v[start..end]` begins once leading whitespace is skipped.
pub fn skip_ws(v: &Vec<char>, start: usize, end: usize) -> (i: usize)
    requires
        start <= end <= v@.len(),
    ensures
        start <= i <= end,
        v@.subrange(i as int, end as int) == trim_start(v@.subrange(start as int, end as int)),
{
    let mut i = start;
    while i < end && ws(v[i])
        invariant
            start <= i <= end <= v@.len(),
            trim_start(v@.subrange(start as int, end as int)) == trim_start(
                v@.subrange(i as int, end as int),
            ),
        decreases end - i,
    {
        assert(v@.subrange(i as int, end as int).drop_first() =~= v@.subrange(i + 1, end as int));
        i = i + 1;
    }
    i
}

/// Where `v[start..end]` ends once trailing whitespace is dropped.
pub fn skip_ws_back(v: &Vec<char>, start: usize, end: usize) -> (e: usize)
    requires
        start <= end <= v@.len(),
    ensures
        start <= e <= end,
        v@.subrange(start as int, e as int) == trim_end(v@.subrange(start as int, end as int)),
{
    let mut e = end;
    while e > start && ws(v[e - 1])
        invariant
            start <= e <= end <= v@.len(),
            trim_end(v@.subrange(start as int, end as int)) == trim_end(
                v@.subrange(start as int, e as int),
            ),
        decreases e - start,
    {
        assert(v@.subrange(start as int, e as int).drop_last() =~= v@.subrange(
            start as int,
            e - 1,
        ));
        e = e - 1;
    }
    e
}

/// The span of `v[start..end]` with surrounding whitespace removed.
pub fn trim_span(v: &Vec<char>, start: usize, end: usize) -> (r: (usize, usize))
    requires
        start <= end <= v@.len(),
    ensures
        start <= r.0 <= r.1 <= end,
        v@.subrange(r.0 as int, r.1 as int) == trim(v@.subrange(start as int, end as int)),
{
    let s = skip_ws(v, start, end);
    let e = skip_ws_back(v, s, end);
    (s, e)
}

// ---------------------------------------------------------------------------
// Lines
// ---------------------------------------------------------------------------

/// A line without the `'\r'` of a `"\r\n"` ending.
pub open spec fn strip_cr(line: Seq<char>) -> Seq<char> {
    if line.len() > 0 && line.last() == '\r' {
        line.drop_last()
    } else {
        line
    }
}

/// The lines of `s`, given the part `cur` of the current line already read.
pub open spec fn lines_from(s: Seq<char>, cur: Seq<char>) -> Seq<Seq<char>>
    decreases s.len(),
{
    if s.len() == 0 {
        if cur.len() == 0 {
            seq![]
        } else {
            seq![cur]
        }
    } else if s[0] == '\n' {
        seq![strip_cr(cur)] + lines_from(s.drop_first(), seq![])
    } else {
        lines_from(s.drop_first(), cur.push(s[0]))
    }
}

/// `str::lines`: split at `'\n'`, a `'\r'` before it dropped, no final empty
/// line after a trailing newline.
pub open spec fn lines(s: Seq<char>) -> Seq<Seq<char>> {
    lines_from(s, seq![])
}

/// The spans of the lines of `v`.
pub fn split_lines(v: &Vec<char>) -> (spans: Vec<(usize, usize)>)
    ensures
        spans@.len() == lines(v@).len(),
        forall|k: int|
            #![trigger spans@[k]] 0 <= k < spans@.len() ==> {
                &&& spans@[k].0 <= spans@[k].1 <= v@.len()
                &&& v@.subrange(spans@[k].0 as int, spans@[k].1 as int) == lines(
                    v@,
                )[k]
            },
{
    let n = v.len();
    let mut spans: Vec<(usize, usize)> = Vec::new();
    let mut cur: usize = 0;
    let mut i: usize = 0;
    let ghost mut done: Seq<Seq<char>> = seq![];
    assert(v@.subrange(0, n as int) =~= v@);
    assert(v@.subrange(0, 0) =~= Seq::<char>::empty());
    assert(done + lines(v@) =~= lines(v@));
    while i < n
        invariant
            n == v@.len(),
            cur <= i <= n,
            spans@.len() == done.len(),
            forall|k: int|
                #![trigger spans@[k]] 0 <= k < spans@.len() ==> {
                    &&& spans@[k].0 <= spans@[k].1 <= v@.len()
                    &&& v@.subrange(spans@[k].0 as int, spans@[k].1 as int) == done[k]
                },
            lines(v@) == done + lines_from(
                v@.subrange(i as int, n as int),
                v@.subrange(cur as int, i as int),
            ),
        decreases n - i,
    {
        let ghost rest = v@.subrange(i as int, n as int);
        let ghost c = v@.subrange(cur as int, i as int);
        assert(rest.drop_first() =~= v@.subrange(i + 1, n as int));
        if v[i] == '\n' {
            let e = if i > cur && v[i - 1] == '\r' {
                i - 1
            } else {
                i
            };
            assert(v@.subrange(cur as int, e as int) =~= strip_cr(c));
            let ghost old_spans = spans@;
            spans.push((cur, e));
            proof {
                let old_done = done;
                done = done.push(strip_cr(c));
                assert forall|k: int| #![trigger spans@[k]] 0 <= k < spans@.len() implies {
                    &&& spans@[k].0 <= spans@[k].1 <= v@.len()
                    &&& v@.subrange(spans@[k].0 as int, spans@[k].1 as int) == done[k]
                } by {
                    if k < old_spans.len() {
                        assert(spans@[k] == old_spans[k]);
                        assert(done[k] == old_done[k]);
                    } else {
                        assert(spans@[k] == (cur, e));
                    }
                }
                assert(v@.subrange((i + 1) as int, (i + 1) as int) =~= Seq::<char>::empty());
                assert(lines_from(rest, c) == seq![strip_cr(c)] + lines_from(rest.drop_first(), seq![]));
                assert(done.drop_last() + seq![strip_cr(c)] =~= done);
            }
            i = i + 1;
            cur = i;
        } else {
            assert(c.push(v@[i as int]) =~= v@.subrange(cur as int, i + 1));
            i = i + 1;
        }
    }
    let ghost c = v@.subrange(cur as int, n as int);
    assert(v@.subrange(n as int, n as int) =~= Seq::<char>::empty());
    if cur < n {
        let ghost old_spans = spans@;
        spans.push((cur, n));
        proof {
            let old_done = done;
            done = done.push(c);
            assert forall|k: int| #![trigger spans@[k]] 0 <= k < spans@.len() implies {
                &&& spans@[k].0 <= spans@[k].1 <= v@.len()
                &&& v@.subrange(spans@[k].0 as int, spans@[k].1 as int) == done[k]
            } by {
                if k < old_spans.len() {
                    assert(spans@[k] == old_spans[k]);
                    assert(done[k] == old_done[k]);
                } else {
                    assert(spans@[k] == (cur, n));
                }
            }
        }
    } else {
        assert(c.len() == 0);
    }
    assert(lines(v@) =~= done);
    spans
}

// ---------------------------------------------------------------------------
// Words
// ---------------------------------------------------------------------------

/// The words of `s`, given the part `cur` of the current word already read.
pub open spec fn words_from(s: Seq<char>, cur: Seq<char>) -> Seq<Seq<char>>
    decreases s.len(),
{
    if s.len() == 0 {
        if cur.len() == 0 {
            seq![]
        } else {
            seq![cur]
        }
    } else if is_ws(s[0]) {
        (if cur.len() == 0 {
            seq![]
        } else {
            seq![cur]
        }) + words_from(s.drop_first(), seq![])
    } else {
        words_from(s.drop_first(), cur.push(s[0]))
    }
}

/// `str::split_whitespace`: the maximal runs of non-whitespace characters.
pub open spec fn words(s: Seq<char>) -> Seq<Seq<char>> {
    words_from(s, seq![])
}

/// Spans of the pieces of `v[start..end]`, each a subrange of `v`.
pub open spec fn spans_are(v: Seq<char>, spans: Seq<(usize, usize)>, pieces: Seq<Seq<char>>) -> bool {
    &&& spans.len() == pieces.len()
    &&& forall|k: int|
        #![trigger spans[k]]
        0 <= k < spans.len() ==> {
            &&& spans[k].0 <= spans[k].1 <= v.len()
            &&& v.subrange(spans[k].0 as int, spans[k].1 as int) == pieces[k]
        }
}

pub proof fn lemma_spans_push(
    v: Seq<char>,
    spans: Seq<(usize, usize)>,
    pieces: Seq<Seq<char>>,
    a: usize,
    b: usize,
)
    requires
        spans_are(v, spans, pieces),
        a <= b <= v.len(),
    ensures
        spans_are(v, spans.push((a, b)), pieces.push(v.subrange(a as int, b as int))),
{
    let s2 = spans.push((a, b));
    let p2 = pieces.push(v.subrange(a as int, b as int));
    assert forall|k: int| #![trigger s2[k]] 0 <= k < s2.len() implies {
        &&& s2[k].0 <= s2[k].1 <= v.len()
        &&& v.subrange(s2[k].0 as int, s2[k].1 as int) == p2[k]
    } by {
        if k < spans.len() {
            assert(s2[k] == spans[k]);
            assert(p2[k] == pieces[k]);
        }
    }
}

/// The spans of the words of `v[start..end]`.
pub fn split_words(v: &Vec<char>, start: usize, end: usize) -> (spans: Vec<(usize, usize)>)
    requires
        start <= end <= v@.len(),
    ensures
        spans_are(v@, spans@, words(v@.subrange(start as int, end as int))),
{
    let mut spans: Vec<(usize, usize)> = Vec::new();
    let mut cur: usize = start;
    let mut i: usize = start;
    let ghost mut done: Seq<Seq<char>> = seq![];
    let ghost whole = v@.subrange(start as int, end as int);
    assert(v@.subrange(start as int, start as int) =~= Seq::<char>::empty());
    assert(done + words(whole) =~= words(whole));
    while i < end
        invariant
            start <= cur <= i <= end <= v@.len(),
            whole == v@.subrange(start as int, end as int),
            spans_are(v@, spans@, done),
            words(whole) == done + words_from(
                v@.subrange(i as int, end as int),
                v@.subrange(cur as int, i as int),
            ),
        decreases end - i,
    {
        let ghost rest = v@.subrange(i as int, end as int);
        let ghost c = v@.subrange(cur as int, i as int);
        assert(rest.drop_first() =~= v@.subrange(i + 1, end as int));
        if ws(v[i]) {
            if cur < i {
                proof {
                    lemma_spans_push(v@, spans@, done, cur, i);
                    done = done.push(c);
                    assert(done.drop_last() + seq![c] =~= done);
                }
                spans.push((cur, i));
            } else {
                assert(c.len() == 0);
                assert(Seq::<Seq<char>>::empty() + words_from(rest.drop_first(), seq![])
                    =~= words_from(rest.drop_first(), seq![]));
            }
            assert(v@.subrange((i + 1) as int, (i + 1) as int) =~= Seq::<char>::empty());
            i = i + 1;
            cur = i;
        } else {
            assert(c.push(v@[i as int]) =~= v@.subrange(cur as int, i + 1));
            i = i + 1;
        }
    }
    let ghost c = v@.subrange(cur as int, end as int);
    if cur < end {
        proof {
            lemma_spans_push(v@, spans@, done, cur, end);
            done = done.push(c);
        }
        spans.push((cur, end));
    } else {
        assert(c.len() == 0);
    }
    assert(words(whole) =~= done);
    spans
}

// ---------------------------------------------------------------------------
// Splitting at a character
// ---------------------------------------------------------------------------

/// The pieces of `s` between occurrences of `sep`, given the part `cur` of
/// the current piece already read.
pub open spec fn split_from(s: Seq<char>, sep: char, cur: Seq<char>) -> Seq<Seq<char>>
    decreases s.len(),
{
    if s.len() == 0 {
        seq![cur]
    } else if s[0] == sep {
        seq![cur] + split_from(s.drop_first(), sep, seq![])
    } else {
        split_from(s.drop_first(), sep, cur.push(s[0]))
    }
}

/// `str::split(sep)`: every piece between separators, empty ones included.
pub open spec fn split(s: Seq<char>, sep: char) -> Seq<Seq<char>> {
    split_from(s, sep, seq![])
}

/// The spans of the pieces of `v[start..end]` split at `sep`.
pub fn split_char(v: &Vec<char>, start: usize, end: usize, sep: char) -> (spans: Vec<(usize, usize)>)
    requires
        start <= end <= v@.len(),
    ensures
        spans_are(v@, spans@, split(v@.subrange(start as int, end as int), sep)),
{
    let mut spans: Vec<(usize, usize)> = Vec::new();
    let mut cur: usize = start;
    let mut i: usize = start;
    let ghost mut done: Seq<Seq<char>> = seq![];
    let ghost whole = v@.subrange(start as int, end as int);
    assert(v@.subrange(start as int, start as int) =~= Seq::<char>::empty());
    assert(done + split(whole, sep) =~= split(whole, sep));
    while i < end
        invariant
            start <= cur <= i <= end <= v@.len(),
            whole == v@.subrange(start as int, end as int),
            spans_are(v@, spans@, done),
            split(whole, sep) == done + split_from(
                v@.subrange(i as int, end as int),
                sep,
                v@.subrange(cur as int, i as int),
            ),
        decreases end - i,
    {
        let ghost rest = v@.subrange(i as int, end as int);
        let ghost c = v@.subrange(cur as int, i as int);
        assert(rest.drop_first() =~= v@.subrange(i + 1, end as int));
        if v[i] == sep {
            proof {
                lemma_spans_push(v@, spans@, done, cur, i);
                done = done.push(c);
                assert(done.drop_last() + seq![c] =~= done);
            }
            spans.push((cur, i));
            assert(v@.subrange((i + 1) as int, (i + 1) as int) =~= Seq::<char>::empty());
            i = i + 1;
            cur = i;
        } else {
            assert(c.push(v@[i as int]) =~= v@.subrange(cur as int, i + 1));
            i = i + 1;
        }
    }
    let ghost c = v@.subrange(cur as int, end as int);
    proof {
        lemma_spans_push(v@, spans@, done, cur, end);
        done = done.push(c);
    }
    spans.push((cur, end));
    assert(split(whole, sep) =~= done);
    spans
}

// ---------------------------------------------------------------------------
// Searching
// ---------------------------------------------------------------------------

/// Index of the first `c` in `s`.
pub open spec fn find(s: Seq<char>, c: char) -> Option<int>
    decreases s.len(),
{
    if s.len() == 0 {
        None
    } else if s[0] == c {
        Some(0)
    } else {
        match find(s.drop_first(), c) {
            Some(i) => Some(i + 1),
            None => None,
        }
    }
}

pub proof fn lemma_find_bounds(s: Seq<char>, c: char)
    ensures
        find(s, c) matches Some(i) ==> 0 <= i < s.len() && s[i] == c && forall|j: int|
            0 <= j < i ==> s[j] != c,
        find(s, c) is None ==> forall|j: int| 0 <= j < s.len() ==> s[j] != c,
    decreases s.len(),
{
    if s.len() > 0 && s[0] != c {
        lemma_find_bounds(s.drop_first(), c);
        if let Some(i) = find(s.drop_first(), c) {
            assert forall|j: int| 0 <= j < i + 1 implies s[j] != c by {
                if j > 0 {
                    assert(s[j] == s.drop_first()[j - 1]);
                }
            }
        } else {
            assert forall|j: int| 0 <= j < s.len() implies s[j] != c by {
                if j > 0 {
                    assert(s[j] == s.drop_first()[j - 1]);
                }
            }
        }
    }
}

/// `str::split_once(sep)`.
pub open spec fn split_once(s: Seq<char>, sep: char) -> Option<(Seq<char>, Seq<char>)> {
    match find(s, sep) {
        Some(i) => Some((s.take(i), s.skip(i + 1))),
        None => None,
    }
}

/// Position of the first `c` in `v[start..end]`.
pub fn find_char(v: &Vec<char>, start: usize, end: usize, c: char) -> (r: Option<usize>)
    requires
        start <= end <= v@.len(),
    ensures
        match r {
            Some(i) => start <= i < end && find(v@.subrange(start as int, end as int), c) == Some(
                i - start,
            ),
            None => find(v@.subrange(start as int, end as int), c) is None,
        },
{
    let mut i = start;
    while i < end
        invariant
            start <= i <= end <= v@.len(),
            find(v@.subrange(start as int, end as int), c) == match find(
                v@.subrange(i as int, end as int),
                c,
            ) {
                Some(k) => Some(k + (i - start)),
                None => None::<int>,
            },
        decreases end - i,
    {
        assert(v@.subrange(i as int, end as int).drop_first() =~= v@.subrange(i + 1, end as int));
        if v[i] == c {
            return Some(i);
        }
        i = i + 1;
    }
    None
}

// ---------------------------------------------------------------------------
// Decimal numbers
// ---------------------------------------------------------------------------

pub open spec fn digit_value(c: char) -> nat {
    (c as u32 - '0' as u32) as nat
}

/// The number spelled by a run of decimal digits.
pub open spec fn digits_value(s: Seq<char>) -> nat
    decreases s.len(),
{
    if s.len() == 0 {
        0
    } else {
        digits_value(s.drop_last()) * 10 + digit_value(s.last())
    }
}

pub open spec fn all_digits(s: Seq<char>) -> bool {
    forall|i: int| 0 <= i < s.len() ==> is_digit(s[i])
}

/// `str::parse` for an unsigned integer type whose largest value is `max`:
/// an optional `'+'`, then one or more decimal digits, the value at most `max`.
pub open spec fn parse_unsigned(s: Seq<char>, max: nat) -> Option<nat> {
    let d = if s.len() > 0 && s[0] == '+' {
        s.drop_first()
    } else {
        s
    };
    if d.len() > 0 && all_digits(d) && digits_value(d) <= max {
        Some(digits_value(d))
    } else {
        None
    }
}

proof fn lemma_digits_value_prefix(s: Seq<char>, k: int)
    requires
        0 <= k <= s.len(),
    ensures
        digits_value(s.take(k)) <= digits_value(s),
    decreases s.len(),
{
    if k < s.len() {
        lemma_digits_value_prefix(s.drop_last(), k);
        assert(s.drop_last().take(k) =~= s.take(k));
    } else {
        assert(s.take(k) =~= s);
    }
}

/// Parses `v[start..end]` as an unsigned number no larger than `max`.
pub fn parse_unsigned_span(v: &Vec<char>, start: usize, end: usize, max: u64) -> (r: Option<u64>)
    requires
        start <= end <= v@.len(),
    ensures
        match parse_unsigned(v@.subrange(start as int, end as int), max as nat) {
            Some(n) => r == Some(n as u64),
            None => r is None,
        },
{
    let ghost s = v@.subrange(start as int, end as int);
    let mut i = start;
    if i < end && v[i] == '+' {
        i = i + 1;
    }
    let ghost d = v@.subrange(i as int, end as int);
    assert(d =~= (if s.len() > 0 && s[0] == '+' {
        s.drop_first()
    } else {
        s
    }));
    if i == end {
        return None;
    }
    let first = i;
    let mut acc: u64 = 0;
    while i < end
        invariant
            first <= i <= end <= v@.len(),
            d == v@.subrange(first as int, end as int),
            s == v@.subrange(start as int, end as int),
            d == (if s.len() > 0 && s[0] == '+' {
                s.drop_first()
            } else {
                s
            }),
            d.len() > 0,
            acc as nat == digits_value(v@.subrange(first as int, i as int)),
            acc <= max,
            forall|j: int| first <= j < i ==> is_digit(#[trigger] v@[j]),
        decreases end - i,
    {
        let c = v[i];
        if !digit(c) {
            assert(!is_digit(d[i - first]));
            assert(!all_digits(d));
            return None;
        }
        let dv = (c as u32 - '0' as u32) as u64;
        assert(v@.subrange(first as int, i + 1).drop_last() =~= v@.subrange(first as int, i as int));
        proof {
            lemma_digits_value_prefix(d, i + 1 - first);
            assert(d.take(i + 1 - first) =~= v@.subrange(first as int, i + 1));
        }
        if acc > max / 10 {
            assert(digits_value(v@.subrange(first as int, i + 1)) > max) by (nonlinear_arith)
                requires
                    digits_value(v@.subrange(first as int, i + 1)) == acc * 10 + dv,
                    acc > max / 10,
            ;
            return None;
        }
        let next = acc * 10;
        if dv > max || next > max - dv {
            return None;
        }
        acc = next + dv;
        i = i + 1;
    }
    assert(v@.subrange(first as int, end as int) =~= d);
    Some(acc)
}

// ---------------------------------------------------------------------------
// Sequences of strings
// ---------------------------------------------------------------------------

/// The results of `f` that are `Some`, in order.
pub open spec fn filter_map<A, B>(s: Seq<A>, f: spec_fn(A) -> Option<B>) -> Seq<B>
    decreases s.len(),
{
    if s.len() == 0 {
        seq![]
    } else {
        let r = filter_map(s.drop_last(), f);
        match f(s.last()) {
            Some(b) => r.push(b),
            None => r,
        }
    }
}

pub proof fn lemma_filter_map_step<A, B>(s: Seq<A>, k: int, f: spec_fn(A) -> Option<B>)
    requires
        0 <= k < s.len(),
    ensures
        filter_map(s.take(k + 1), f) == match f(s[k]) {
            Some(b) => filter_map(s.take(k), f).push(b),
            None => filter_map(s.take(k), f),
        },
{
    assert(s.take(k + 1).drop_last() =~= s.take(k));
}

/// Every item `filter_map` gives is what `f` gives for some item of `s`.
pub proof fn lemma_filter_map_source<A, B>(s: Seq<A>, f: spec_fn(A) -> Option<B>)
    ensures
        forall|k: int|
            0 <= k < filter_map(s, f).len() ==> exists|j: int|
                0 <= j < s.len() && f(#[trigger] s[j]) == Some(#[trigger] filter_map(s, f)[k]),
    decreases s.len(),
{
    if s.len() > 0 {
        let d = s.drop_last();
        lemma_filter_map_source(d, f);
        let r = filter_map(d, f);
        assert forall|k: int| 0 <= k < filter_map(s, f).len() implies exists|j: int|
            0 <= j < s.len() && f(#[trigger] s[j]) == Some(#[trigger] filter_map(s, f)[k]) by {
            if k < r.len() {
                assert(filter_map(s, f)[k] == r[k]);
                let j = choose|j: int| 0 <= j < d.len() && f(#[trigger] d[j]) == Some(#[trigger] r[k]);
                assert(s[j] == d[j]);
            } else {
                assert(f(s[s.len() - 1]) == Some(filter_map(s, f)[k]));
            }
        }
    }
}

/// Whatever `f` gives for an item of `s` is among what `filter_map` gives.
pub proof fn lemma_filter_map_complete<A, B>(s: Seq<A>, f: spec_fn(A) -> Option<B>)
    ensures
        forall|j: int|
            0 <= j < s.len() && (#[trigger] f(s[j])) is Some ==> filter_map(s, f).contains(f(s[j])->0),
    decreases s.len(),
{
    if s.len() > 0 {
        let d = s.drop_last();
        lemma_filter_map_complete(d, f);
        assert forall|j: int|
            0 <= j < s.len() && (#[trigger] f(s[j])) is Some implies filter_map(s, f).contains(f(s[j])->0) by {
            let r = filter_map(d, f);
            if j < d.len() {
                assert(s[j] == d[j]);
                let i = choose|i: int| 0 <= i < r.len() && r[i] == f(d[j])->0;
                match f(s.last()) {
                    Some(b) => assert(filter_map(s, f)[i] == r[i]),
                    None => {},
                }
            } else {
                assert(filter_map(s, f) == r.push(f(s[j])->0));
                assert(filter_map(s, f)[r.len() as int] == f(s[j])->0);
            }
        }
    }
}

/// Whether some pair has the key `key`.
pub open spec fn has_key<V>(pairs: Seq<(Seq<char>, V)>, key: Seq<char>) -> bool {
    exists|i: int| 0 <= i < pairs.len() && (#[trigger] pairs[i]).0 == key
}

/// `v` is the value of the last pair whose key is `key`.
pub open spec fn last_value_is<V>(pairs: Seq<(Seq<char>, V)>, key: Seq<char>, v: V) -> bool {
    exists|i: int|
        #![trigger pairs[i]]
        0 <= i < pairs.len() && pairs[i].0 == key && pairs[i].1 == v && forall|j: int|
            i < j < pairs.len() ==> (#[trigger] pairs[j]).0 != key
}

/// Adding a pair at the end: it is the last one with its key, and the last
/// value of any other key stays.
pub proof fn lemma_last_value_push<V>(pairs: Seq<(Seq<char>, V)>, p: (Seq<char>, V), key: Seq<char>, v: V)
    ensures
        p.0 == key ==> last_value_is(pairs.push(p), key, p.1),
        p.0 != key ==> (last_value_is(pairs.push(p), key, v) == last_value_is(pairs, key, v)),
        has_key(pairs.push(p), key) == (has_key(pairs, key) || p.0 == key),
{
    let q = pairs.push(p);
    let n = pairs.len() as int;
    if p.0 == key {
        assert(q[n] == p);
    } else {
        if last_value_is(pairs, key, v) {
            let i = choose|i: int|
                #![trigger pairs[i]]
                0 <= i < pairs.len() && pairs[i].0 == key && pairs[i].1 == v && forall|j: int|
                    i < j < pairs.len() ==> (#[trigger] pairs[j]).0 != key;
            assert(q[i] == pairs[i]);
            assert forall|j: int| i < j < q.len() implies (#[trigger] q[j]).0 != key by {
                if j < n {
                    assert(q[j] == pairs[j]);
                }
            }
        }
        if last_value_is(q, key, v) {
            let i = choose|i: int|
                #![trigger q[i]]
                0 <= i < q.len() && q[i].0 == key && q[i].1 == v && forall|j: int|
                    i < j < q.len() ==> (#[trigger] q[j]).0 != key;
            assert(i != n);
            assert(q[i] == pairs[i]);
            assert forall|j: int| i < j < pairs.len() implies (#[trigger] pairs[j]).0 != key by {
                assert(q[j] == pairs[j]);
            }
        }
    }
    if has_key(pairs, key) {
        let i = choose|i: int| 0 <= i < pairs.len() && (#[trigger] pairs[i]).0 == key;
        assert(q[i] == pairs[i]);
    }
    if has_key(q, key) {
        let i = choose|i: int| 0 <= i < q.len() && (#[trigger] q[i]).0 == key;
        if i < n {
            assert(q[i] == pairs[i]);
        }
    }
}

/// What `filter_map` gives for a prefix is a prefix of what it gives for
/// the whole.
pub proof fn lemma_filter_map_prefix<A, B>(s: Seq<A>, i: int, f: spec_fn(A) -> Option<B>)
    requires
        0 <= i <= s.len(),
    ensures
        filter_map(s.take(i), f).len() <= filter_map(s, f).len(),
        forall|j: int|
            0 <= j < filter_map(s.take(i), f).len() ==> #[trigger] filter_map(s.take(i), f)[j]
                == filter_map(s, f)[j],
    decreases s.len(),
{
    if i == s.len() {
        assert(s.take(i) =~= s);
    } else {
        assert(s.drop_last().take(i) =~= s.take(i));
        lemma_filter_map_prefix(s.drop_last(), i, f);
    }
}

/// The texts of a list of strings.
pub open spec fn texts(list: Seq<String>) -> Seq<Seq<char>> {
    list.map_values(|x: String| x@)
}

/// Pushing a string pushes its text.
pub proof fn lemma_texts_push(s: Seq<String>, x: String)
    ensures
        texts(s.push(x)) == texts(s).push(x@),
{
    assert(texts(s.push(x)) =~= texts(s).push(x@));
}

/// What a sequence holds once `x` is pushed: what it held, and `x`.
pub proof fn lemma_contains_push<A>(s: Seq<A>, x: A)
    ensures
        forall|y: A| #[trigger] s.push(x).contains(y) <==> s.contains(y) || y == x,
{
    assert forall|y: A| #[trigger] s.push(x).contains(y) <==> s.contains(y) || y == x by {
        if s.push(x).contains(y) {
            let j = choose|j: int| 0 <= j < s.push(x).len() && s.push(x)[j] == y;
            if j < s.len() {
                assert(s[j] == y);
            }
        }
        if s.contains(y) {
            let j = choose|j: int| 0 <= j < s.len() && s[j] == y;
            assert(s.push(x)[j] == y);
        }
        if y == x {
            assert(s.push(x)[s.len() as int] == y);
        }
    }
}

/// The set of a sequence once `x` is pushed.
pub proof fn lemma_to_set_push<A>(s: Seq<A>, x: A)
    ensures
        s.push(x).to_set() == s.to_set().insert(x),
{
    lemma_contains_push(s, x);
    assert(s.push(x).to_set() =~= s.to_set().insert(x));
}

/// The texts of a list of string pairs.
pub open spec fn pair_texts(list: Seq<(String, String)>) -> Seq<(Seq<char>, Seq<char>)> {
    list.map_values(|p: (String, String)| (p.0@, p.1@))
}

/// Whether `list` holds a string spelling `s`.
pub fn contains_text(list: &Vec<String>, s: &String) -> (r: bool)
    ensures
        r == texts(list@).contains(s@),
{
    let mut i: usize = 0;
    while i < list.len()
        invariant
            i <= list@.len(),
            forall|j: int| 0 <= j < i ==> list@[j]@ != s@,
        decreases list@.len() - i,
    {
        if list[i] == *s {
            assert(texts(list@)[i as int] == s@);
            return true;
        }
        i = i + 1;
    }
    assert forall|j: int| 0 <= j < texts(list@).len() implies texts(list@)[j] != s@ by {
        assert(list@[j]@ != s@);
    }
    false
}

/// A new `String` spelling `s`.
pub fn owned(s: &str) -> (r: String)
    ensures
        r@ == s@,
{
    s.to_owned()
}

/// `str::starts_with`.
pub open spec fn starts_with(s: Seq<char>, prefix: Seq<char>) -> bool {
    prefix.len() <= s.len() && s.take(prefix.len() as int) == prefix
}

/// `str::starts_with`.
pub fn has_prefix(s: &str, prefix: &str) -> (r: bool)
    ensures
        r == starts_with(s@, prefix@),
{
    let v = chars_of(s);
    assert(v@.subrange(0, v@.len() as int) =~= s@);
    let b = span_starts_with(&v, 0, v.len(), prefix);
    proof {
        if prefix@.len() <= s@.len() {
            assert(v@.subrange(0, prefix@.len() as int) =~= s@.take(prefix@.len() as int));
        }
    }
    b
}

/// `str::ends_with`.
pub open spec fn ends_with(s: Seq<char>, suffix: Seq<char>) -> bool {
    suffix.len() <= s.len() && s.skip(s.len() - suffix.len()) == suffix
}

/// The items joined with `sep` between them (`[T]::join`).
pub open spec fn join(items: Seq<Seq<char>>, sep: Seq<char>) -> Seq<char>
    decreases items.len(),
{
    if items.len() == 0 {
        seq![]
    } else if items.len() == 1 {
        items[0]
    } else {
        join(items.drop_last(), sep) + sep + items.last()
    }
}

/// The decimal digits of `n`, without leading zeros (`u64`'s `Display`).
pub open spec fn decimal(n: nat) -> Seq<char>
    decreases n,
{
    if n < 10 {
        seq![digit_char(n)]
    } else {
        decimal(n / 10).push(digit_char(n % 10))
    }
}

pub open spec fn digit_char(d: nat) -> char {
    if d == 0 { '0' } else if d == 1 { '1' } else if d == 2 { '2' } else if d == 3 { '3' }
    else if d == 4 { '4' } else if d == 5 { '5' } else if d == 6 { '6' } else if d == 7 { '7' }
    else if d == 8 { '8' } else { '9' }
}

fn digit_to_char(d: u64) -> (c: char)
    requires
        d < 10,
    ensures
        c == digit_char(d as nat),
{
    if d == 0 { '0' } else if d == 1 { '1' } else if d == 2 { '2' } else if d == 3 { '3' }
    else if d == 4 { '4' } else if d == 5 { '5' } else if d == 6 { '6' } else if d == 7 { '7' }
    else if d == 8 { '8' } else { '9' }
}

/// Appends the decimal digits of `n` to `out`.
pub fn push_decimal(out: &mut String, n: u64)
    ensures
        final(out)@ == old(out)@ + decimal(n as nat),
    decreases n,
{
    if n >= 10 {
        push_decimal(out, n / 10);
        push_char(out, digit_to_char(n % 10));
        assert(old(out)@ + decimal((n / 10) as nat) + seq![digit_char((n % 10) as nat)]
            =~= old(out)@ + decimal(n as nat));
    } else {
        push_char(out, digit_to_char(n));
        assert(old(out)@.push(digit_char(n as nat)) =~= old(out)@ + decimal(n as nat));
    }
}

/// The first `Some` that `f` gives along `s`.
pub open spec fn first_some<A, B>(s: Seq<A>, f: spec_fn(A) -> Option<B>) -> Option<B>
    decreases s.len(),
{
    if s.len() == 0 {
        None
    } else {
        match f(s[0]) {
            Some(b) => Some(b),
            None => first_some(s.drop_first(), f),
        }
    }
}

pub proof fn lemma_first_some_step<A, B>(s: Seq<A>, k: int, f: spec_fn(A) -> Option<B>)
    requires
        0 <= k < s.len(),
    ensures
        first_some(s.skip(k), f) == match f(s[k]) {
            Some(b) => Some(b),
            None => first_some(s.skip(k + 1), f),
        },
{
    assert(s.skip(k).drop_first() =~= s.skip(k + 1));
}

pub proof fn lemma_first_some_end<A, B>(s: Seq<A>, f: spec_fn(A) -> Option<B>)
    ensures
        first_some(s.skip(s.len() as int), f) is None,
        s.skip(0) == s,
{
    assert(s.skip(s.len() as int) =~= Seq::<A>::empty());
    assert(s.skip(0) =~= s);
}

} // verus!
