//! The SSH public keys the web admin manages for one account: a marked
//! block of its `authorized_keys`, with every line outside the block kept as
//! it was.

use vstd::prelude::*;

use crate::agent::error::{AgentError, ErrorKind};
use crate::agent::services::{utf8_len, utf8_len_within};
use crate::digest::{b64_text, base64_decode, base64_decoded, base64_unpadded, sha256, sha256_of};
use crate::encoding::{hex_encode, hex_text};
use crate::text::{
    chars_of, is_digit, is_lower, is_ws, join, lines, owned, push_str, split_lines, string_of, trim, trim_span,
    ws,
};

verus! {

pub const START_MARKER: &'static str = "# deckox-managed:start";

pub const END_MARKER: &'static str = "# deckox-managed:end";

pub const MAX_AUTHORIZED_KEYS_BYTES: u64 = 1048576;

pub const MAX_PUBLIC_KEY_BYTES: u64 = 16384;

/// A managed key as the web admin lists it.
#[derive(Debug, Clone, PartialEq, Eq)]
pub struct SshKeySummary {
    /// The hex SHA-256 of the key's normalized line.
    pub id: String,
    pub key_type: String,
    /// `SHA256:` and the unpadded base64 SHA-256 of the key blob.
    pub fingerprint: String,
    pub comment: Option<String>,
}

#[derive(Debug, Clone, PartialEq, Eq)]
pub struct SshKeyList {
    pub enabled: bool,
    pub managed_user: Option<String>,
    pub keys: Vec<SshKeySummary>,
}

/// A parsed key: its normalized line and its summary.
#[derive(Debug, Clone)]
pub struct PublicKey {
    pub normalized: String,
    pub summary: SshKeySummary,
}

/// A key as plain values: normalized line, id, type, fingerprint, comment.
pub type KeyView = (Seq<char>, Seq<char>, Seq<char>, Seq<char>, Option<Seq<char>>);

pub open spec fn opt_text(o: Option<String>) -> Option<Seq<char>> {
    match o {
        Some(s) => Some(s@),
        None => None,
    }
}

impl View for PublicKey {
    type V = KeyView;

    open spec fn view(&self) -> KeyView {
        (
            self.normalized@,
            self.summary.id@,
            self.summary.key_type@,
            self.summary.fingerprint@,
            opt_text(self.summary.comment),
        )
    }
}

impl PublicKey {
    pub fn copy(&self) -> (r: PublicKey)
        ensures
            r@ == self@,
    {
        PublicKey {
            normalized: self.normalized.clone(),
            summary: SshKeySummary {
                id: self.summary.id.clone(),
                key_type: self.summary.key_type.clone(),
                fingerprint: self.summary.fingerprint.clone(),
                comment: crate::protocol::copy_opt(&self.summary.comment),
            },
        }
    }
}

// ---------------------------------------------------------------------------
// One key
// ---------------------------------------------------------------------------

/// The key types accepted.
pub open spec fn supported_type(t: Seq<char>) -> bool {
    ||| t == "ssh-ed25519"@
    ||| t == "ssh-rsa"@
    ||| t == "ecdsa-sha2-nistp256"@
    ||| t == "ecdsa-sha2-nistp384"@
    ||| t == "ecdsa-sha2-nistp521"@
    ||| t == "sk-ssh-ed25519@openssh.com"@
    ||| t == "sk-ecdsa-sha2-nistp256@openssh.com"@
}

pub fn supported_key_type(key_type: &str) -> (r: bool)
    ensures
        r == supported_type(key_type@),
{
    let eq = |lit: &str| -> (b: bool)
        ensures
            b == (key_type@ == lit@),
        { crate::agent::events::text_eq(key_type, lit) };
    eq("ssh-ed25519") || eq("ssh-rsa") || eq("ecdsa-sha2-nistp256") || eq("ecdsa-sha2-nistp384") || eq(
        "ecdsa-sha2-nistp521",
    ) || eq("sk-ssh-ed25519@openssh.com") || eq("sk-ecdsa-sha2-nistp256@openssh.com")
}

/// The first whitespace character of `s`.
#[verifier::opaque]
pub open spec fn first_ws(s: Seq<char>) -> Option<int> {
    if exists|i: int| 0 <= i < s.len() && is_ws(s[i]) {
        Some(choose|i: int| 0 <= i < s.len() && is_ws(s[i]) && forall|j: int| 0 <= j < i ==> !is_ws(s[j]))
    } else {
        None
    }
}

/// `splitn(3, char::is_whitespace)`: the type, the encoded blob (empty
/// when missing), and the rest when there is a third field.
pub open spec fn key_fields(s: Seq<char>) -> (Seq<char>, Seq<char>, Option<Seq<char>>) {
    match first_ws(s) {
        None => (s, seq![], None),
        Some(i) => {
            let a = s.skip(i + 1);
            match first_ws(a) {
                None => (s.take(i), a, None),
                Some(j) => (s.take(i), a.take(j), Some(a.skip(j + 1))),
            }
        },
    }
}

/// The comment: the third field trimmed, when not empty.
pub open spec fn comment_of(rest: Option<Seq<char>>) -> Option<Seq<char>> {
    match rest {
        Some(r) => if trim(r).len() > 0 {
            Some(trim(r))
        } else {
            None
        },
        None => None,
    }
}

/// The big-endian `u32` at the start of `b`.
pub open spec fn be_u32(b: Seq<u8>) -> nat {
    ((b[0] as nat * 256 + b[1] as nat) * 256 + b[2] as nat) * 256 + b[3] as nat
}

/// The first SSH string of a key blob: a big-endian length, then that many
/// bytes.
pub open spec fn ssh_string_of(blob: Seq<u8>) -> Option<Seq<u8>> {
    if blob.len() < 4 {
        None
    } else if 4 + be_u32(blob) <= blob.len() {
        Some(blob.subrange(4, 4 + be_u32(blob) as int))
    } else {
        None
    }
}

/// The line a key is written back as: type, blob, and the comment if any.
pub open spec fn normalized_of(t: Seq<char>, e: Seq<char>, comment: Option<Seq<char>>) -> Seq<char> {
    match comment {
        Some(c) => t + " "@ + e + " "@ + c,
        None => t + " "@ + e,
    }
}

/// The fields of a pasted key line: its type, its base64 blob and its
/// comment, or why the line is refused. Keys with `authorized_keys` options
/// in front are refused (their first field is not a key type).
pub open spec fn parts_of(input: Seq<char>) -> Result<(Seq<char>, Seq<char>, Option<Seq<char>>), Seq<char>> {
    if input.len() == 0 || utf8_len(input) > MAX_PUBLIC_KEY_BYTES || input.contains('\r') || input.contains('\n')
        || input.contains('\0') {
        Err("invalid SSH public key"@)
    } else {
        let (t, e, rest) = key_fields(trim(input));
        if !supported_type(t) || e.len() == 0 {
            Err("unsupported or malformed SSH public key"@)
        } else {
            Ok((t, e, comment_of(rest)))
        }
    }
}

/// The key with these fields: its blob must decode and start with its own
/// type.
pub open spec fn key_from_parts(t: Seq<char>, e: Seq<char>, comment: Option<Seq<char>>) -> Result<KeyView, Seq<char>> {
    match base64_decoded(e) {
        None => Err("SSH public key is not valid base64"@),
        Some(blob) => match ssh_string_of(blob) {
            None => Err("SSH public key blob is malformed"@),
            Some(embedded) => if embedded != vstd::utf8::encode_utf8(t) {
                Err("SSH public key type does not match its encoded data"@)
            } else {
                let normalized = normalized_of(t, e, comment);
                Ok(
                    (
                        normalized,
                        hex_text(sha256_of(vstd::utf8::encode_utf8(normalized))),
                        t,
                        "SHA256:"@ + b64_text(sha256_of(blob)),
                        comment,
                    ),
                )
            },
        },
    }
}

/// What reading one public key gives: the key, or why it is refused.
pub open spec fn key_of(input: Seq<char>) -> Result<KeyView, Seq<char>> {
    match parts_of(input) {
        Err(m) => Err(m),
        Ok((t, e, comment)) => key_from_parts(t, e, comment),
    }
}

/// The first whitespace in `v[start..end]`.
fn find_ws(v: &Vec<char>, start: usize, end: usize) -> (r: Option<usize>)
    requires
        start <= end <= v@.len(),
    ensures
        first_ws(v@.subrange(start as int, end as int)) == match r {
            Some(i) => Some(i - start),
            None => None::<int>,
        },
        r matches Some(i) ==> start <= i < end,
{
    let ghost s = v@.subrange(start as int, end as int);
    proof {
        reveal(first_ws);
    }
    let mut i = start;
    while i < end
        invariant
            start <= i <= end <= v@.len(),
            s == v@.subrange(start as int, end as int),
            forall|j: int| 0 <= j < i - start ==> !is_ws(#[trigger] s[j]),
        decreases end - i,
    {
        if ws(v[i]) {
            proof {
                reveal(first_ws);
                let c = choose|k: int| 0 <= k < s.len() && is_ws(s[k]) && forall|j: int| 0 <= j < k ==> !is_ws(s[j]);
                assert(is_ws(s[i - start]));
                assert(c == i - start) by {
                    if c < i - start {
                        assert(!is_ws(s[c]));
                    } else if c > i - start {
                        assert(!is_ws(s[i - start]));
                    }
                }
            }
            return Some(i);
        }
        i = i + 1;
    }
    assert(!exists|k: int| 0 <= k < s.len() && is_ws(s[k]));
    proof {
        reveal(first_ws);
    }
    None
}

fn has_char(v: &Vec<char>, c: char) -> (r: bool)
    ensures
        r == v@.contains(c),
{
    let mut i: usize = 0;
    while i < v.len()
        invariant
            i <= v@.len(),
            forall|j: int| 0 <= j < i ==> v@[j] != c,
        decreases v@.len() - i,
    {
        if v[i] == c {
            assert(v@[i as int] == c);
            return true;
        }
        i = i + 1;
    }
    false
}

fn ssh_string(blob: &Vec<u8>) -> (r: Option<Vec<u8>>)
    ensures
        match ssh_string_of(blob@) {
            Some(b) => r matches Some(x) && x@ == b,
            None => r is None,
        },
{
    if blob.len() < 4 {
        return None;
    }
    let length: u64 = ((blob[0] as u64 * 256 + blob[1] as u64) * 256 + blob[2] as u64) * 256 + blob[3] as u64;
    assert(length == be_u32(blob@));
    if length > (blob.len() - 4) as u64 {
        return None;
    }
    let end = 4 + length as usize;
    Some(crate::server::agent_client::copy_bytes(blob.as_slice(), 4, end))
}

fn bytes_equal(a: &Vec<u8>, b: &[u8]) -> (r: bool)
    ensures
        r == (a@ == b@),
{
    if a.len() != b.len() {
        return false;
    }
    let mut i: usize = 0;
    while i < a.len()
        invariant
            i <= a@.len() == b@.len(),
            forall|j: int| 0 <= j < i ==> a@[j] == b@[j],
        decreases a@.len() - i,
    {
        if a[i] != b[i] {
            return false;
        }
        i = i + 1;
    }
    assert(a@ =~= b@);
    true
}

fn refuse(message: &str) -> (r: Result<PublicKey, AgentError>)
    ensures
        r matches Err(e) && e.kind == ErrorKind::BadRequest && e.message@ == message@,
{
    Err(AgentError::bad_request(message))
}

/// Where the fields of `v[s..e]` lie: the type ends at the first
/// whitespace, the blob runs to the next one, the rest follows.
fn field_bounds(v: &Vec<char>, s: usize, e: usize) -> (r: (usize, usize, usize, Option<usize>))
    requires
        s <= e <= v@.len(),
    ensures
        s <= r.0 <= e,
        r.1 <= r.2 <= e,
        r.3 matches Some(k) ==> k <= e,
        ({
            let (ft, fe, fr) = key_fields(v@.subrange(s as int, e as int));
            &&& ft == v@.subrange(s as int, r.0 as int)
            &&& fe == v@.subrange(r.1 as int, r.2 as int)
            &&& fr == match r.3 {
                Some(k) => Some(v@.subrange(k as int, e as int)),
                None => None,
            }
        }),
{
    let ghost t = v@.subrange(s as int, e as int);
    match find_ws(v, s, e) {
        None => {
            assert(v@.subrange(e as int, e as int) =~= Seq::<char>::empty());
            (e, e, e, None)
        },
        Some(i) => {
            assert(t.skip(i - s + 1) =~= v@.subrange(i + 1, e as int));
            assert(t.take(i - s) =~= v@.subrange(s as int, i as int));
            match find_ws(v, i + 1, e) {
                None => (i, i + 1, e, None),
                Some(j) => {
                    assert(t.skip(i - s + 1).take(j - (i + 1)) =~= v@.subrange(i + 1, j as int));
                    assert(t.skip(i - s + 1).skip(j - (i + 1) + 1) =~= v@.subrange(j + 1, e as int));
                    (i, i + 1, j, Some(j + 1))
                },
            }
        },
    }
}

/// The type, blob and comment of a pasted key line.
fn key_parts(input: &str) -> (r: Result<(String, String, Option<String>), AgentError>)
    ensures
        match parts_of(input@) {
            Ok((t, e, c)) => r matches Ok(x) && x.0@ == t && x.1@ == e && opt_text(x.2) == c,
            Err(m) => r matches Err(x) && x.kind == ErrorKind::BadRequest && x.message@ == m,
        },
{
    let v = chars_of(input);
    if v.len() == 0 || !utf8_len_within(input, MAX_PUBLIC_KEY_BYTES) || has_char(&v, '\r') || has_char(&v, '\n')
        || has_char(&v, '\0') {
        return Err(AgentError::bad_request("invalid SSH public key"));
    }
    let (s, e) = trim_span(&v, 0, v.len());
    assert(v@.subrange(0, v@.len() as int) =~= input@);
    let (type_end, enc_start, enc_end, rest_start) = field_bounds(&v, s, e);
    let key_type = string_of(&v, s, type_end);
    let encoded = string_of(&v, enc_start, enc_end);
    if !supported_key_type(key_type.as_str()) || enc_end == enc_start {
        return Err(AgentError::bad_request("unsupported or malformed SSH public key"));
    }
    let comment: Option<String> = match rest_start {
        Some(k) => {
            let (cs, ce) = trim_span(&v, k, e);
            if cs < ce {
                Some(string_of(&v, cs, ce))
            } else {
                None
            }
        },
        None => None,
    };
    Ok((key_type, encoded, comment))
}

/// Reads one public key as pasted into the web admin or found in the
/// managed block.
pub fn parse_public_key(input: &str) -> (r: Result<PublicKey, AgentError>)
    ensures
        match key_of(input@) {
            Ok(k) => r matches Ok(x) && x@ == k,
            Err(m) => r matches Err(e) && e.kind == ErrorKind::BadRequest && e.message@ == m,
        },
{
    let (key_type, encoded, comment) = key_parts(input)?;
    let blob = match base64_decode(encoded.as_str()) {
        Some(b) => b,
        None => return refuse("SSH public key is not valid base64"),
    };
    let embedded = match ssh_string(&blob) {
        Some(x) => x,
        None => return refuse("SSH public key blob is malformed"),
    };
    if !bytes_equal(&embedded, key_type.as_str().as_bytes()) {
        return refuse("SSH public key type does not match its encoded data");
    }
    let mut normalized = owned(key_type.as_str());
    push_str(&mut normalized, " ");
    push_str(&mut normalized, encoded.as_str());
    match &comment {
        Some(c) => {
            push_str(&mut normalized, " ");
            push_str(&mut normalized, c.as_str());
        },
        None => {},
    }
    let digest = sha256(blob.as_slice());
    let mut fingerprint = owned("SHA256:");
    let b64 = base64_unpadded(digest.as_slice());
    push_str(&mut fingerprint, b64.as_str());
    let line_digest = sha256(normalized.as_str().as_bytes());
    let id = hex_encode(&line_digest);
    Ok(PublicKey { normalized, summary: SshKeySummary { id, key_type, fingerprint, comment } })
}

/// A line that holds a key: not blank and not a comment.
pub open spec fn key_line(line: Seq<char>) -> bool {
    trim(line).len() > 0 && trim(line)[0] != '#'
}

pub fn is_key_line(line: &str) -> (r: bool)
    ensures
        r == key_line(line@),
{
    let v = chars_of(line);
    let (s, e) = trim_span(&v, 0, v.len());
    assert(v@.subrange(0, v@.len() as int) =~= line@);
    s < e && v[s] != '#'
}

// ---------------------------------------------------------------------------
// The authorized_keys file
// ---------------------------------------------------------------------------

/// `authorized_keys` as the lines before the managed block, the managed
/// keys, and the lines after it.
pub struct AuthorizedKeysDocument {
    pub before: Vec<String>,
    pub managed: Vec<PublicKey>,
    pub after: Vec<String>,
}

pub type DocView = (Seq<Seq<char>>, Seq<KeyView>, Seq<Seq<char>>);

pub open spec fn key_views(keys: Seq<PublicKey>) -> Seq<KeyView> {
    keys.map_values(|k: PublicKey| k@)
}

impl View for AuthorizedKeysDocument {
    type V = DocView;

    open spec fn view(&self) -> DocView {
        (crate::text::texts(self.before@), key_views(self.managed@), crate::text::texts(self.after@))
    }
}

/// The lines whose trimmed text is `marker`, by index.
pub open spec fn marker_positions(ls: Seq<Seq<char>>, marker: Seq<char>) -> Seq<int>
    decreases ls.len(),
{
    if ls.len() == 0 {
        seq![]
    } else if trim(ls.last()) == marker {
        marker_positions(ls.drop_last(), marker).push(ls.len() - 1)
    } else {
        marker_positions(ls.drop_last(), marker)
    }
}

/// The keys of the key lines among `ls`, or the first key refused.
pub open spec fn keys_of(ls: Seq<Seq<char>>) -> Result<Seq<KeyView>, Seq<char>>
    decreases ls.len(),
{
    if ls.len() == 0 {
        Ok(seq![])
    } else {
        match keys_of(ls.drop_last()) {
            Err(m) => Err(m),
            Ok(ks) => if !key_line(ls.last()) {
                Ok(ks)
            } else {
                match key_of(ls.last()) {
                    Ok(k) => Ok(ks.push(k)),
                    Err(m) => Err(m),
                }
            },
        }
    }
}

/// What the file's text reads as: without markers, every line is outside
/// the block; with one start before one end, the key lines between them are
/// the managed keys; anything else is refused.
pub open spec fn doc_of(content: Seq<char>) -> Result<DocView, (ErrorKind, Seq<char>)> {
    let ls = lines(content);
    let starts = marker_positions(ls, START_MARKER@);
    let ends = marker_positions(ls, END_MARKER@);
    if starts.len() == 0 && ends.len() == 0 {
        Ok((ls, seq![], seq![]))
    } else if starts.len() == 1 && ends.len() == 1 && starts[0] < ends[0] {
        match keys_of(ls.subrange(starts[0] + 1, ends[0])) {
            Err(m) => Err((ErrorKind::BadRequest, m)),
            Ok(keys) => Ok((ls.take(starts[0]), keys, ls.skip(ends[0] + 1))),
        }
    } else {
        Err((ErrorKind::Conflict, "authorized_keys contains malformed Deckox markers"@))
    }
}

/// The normalized lines of keys.
pub open spec fn normalized_lines(keys: Seq<KeyView>) -> Seq<Seq<char>> {
    keys.map_values(|k: KeyView| k.0)
}

/// All the lines of the file, in order.
pub open spec fn all_lines(d: DocView) -> Seq<Seq<char>> {
    d.0 + seq![START_MARKER@] + normalized_lines(d.1) + seq![END_MARKER@] + d.2
}

/// The file's text: the lines before, the block with its keys, the lines
/// after, each ended by a newline.
pub open spec fn render_of(d: DocView) -> Seq<char> {
    join(all_lines(d), "\n"@) + "\n"@
}

proof fn lemma_texts_push(s: Seq<String>, x: String)
    ensures
        crate::text::texts(s.push(x)) == crate::text::texts(s).push(x@),
{
    assert(crate::text::texts(s.push(x)) =~= crate::text::texts(s).push(x@));
}

proof fn lemma_positions_bounds(ls: Seq<Seq<char>>, marker: Seq<char>)
    ensures
        forall|j: int| 0 <= j < marker_positions(ls, marker).len() ==> 0 <= #[trigger] marker_positions(ls, marker)[j]
            < ls.len(),
    decreases ls.len(),
{
    if ls.len() > 0 {
        lemma_positions_bounds(ls.drop_last(), marker);
        let p = marker_positions(ls.drop_last(), marker);
        assert forall|j: int| 0 <= j < marker_positions(ls, marker).len() implies 0 <= #[trigger] marker_positions(
            ls,
            marker,
        )[j] < ls.len() by {
            if j < p.len() {
                assert(marker_positions(ls, marker)[j] == p[j]);
            }
        }
    }
}

fn copy_lines(v: &Vec<char>, spans: &Vec<(usize, usize)>, from: usize, to: usize) -> (r: Vec<String>)
    requires
        from <= to <= spans@.len(),
        forall|j: int|
            #![trigger spans@[j]]
            0 <= j < spans@.len() ==> spans@[j].0 <= spans@[j].1 <= v@.len(),
    ensures
        r@.len() == to - from,
        forall|j: int|
            0 <= j < to - from ==> (#[trigger] r@[j])@ == v@.subrange(spans@[from + j].0 as int, spans@[from + j].1 as int),
{
    let mut out: Vec<String> = Vec::new();
    let mut i = from;
    while i < to
        invariant
            from <= i <= to <= spans@.len(),
            forall|j: int|
                #![trigger spans@[j]]
                0 <= j < spans@.len() ==> spans@[j].0 <= spans@[j].1 <= v@.len(),
            out@.len() == i - from,
            forall|j: int|
                0 <= j < i - from ==> (#[trigger] out@[j])@ == v@.subrange(
                    spans@[from + j].0 as int,
                    spans@[from + j].1 as int,
                ),
        decreases to - i,
    {
        let (a, b) = spans[i];
        out.push(string_of(v, a, b));
        i = i + 1;
    }
    out
}

impl AuthorizedKeysDocument {
    pub fn empty() -> (r: AuthorizedKeysDocument)
        ensures
            r@ == (Seq::<Seq<char>>::empty(), Seq::<KeyView>::empty(), Seq::<Seq<char>>::empty()),
    {
        let r = AuthorizedKeysDocument { before: Vec::new(), managed: Vec::new(), after: Vec::new() };
        assert(r@.0 =~= Seq::<Seq<char>>::empty());
        assert(r@.1 =~= Seq::<KeyView>::empty());
        assert(r@.2 =~= Seq::<Seq<char>>::empty());
        r
    }

    /// Reads the file's text.
    pub fn parse(content: &str) -> (r: Result<AuthorizedKeysDocument, AgentError>)
        ensures
            match doc_of(content@) {
                Ok(d) => r matches Ok(x) && x@ == d,
                Err((k, m)) => r matches Err(e) && e.kind == k && e.message@ == m,
            },
    {
        let v = chars_of(content);
        let spans = split_lines(&v);
        assert(v@ == content@);
        let ghost ls = lines(content@);
        let n = spans.len();
        let mut starts: usize = 0;
        let mut first_start: usize = 0;
        let mut ends: usize = 0;
        let mut first_end: usize = 0;
        let mut i: usize = 0;
        while i < n
            invariant
                i <= n == spans@.len() == ls.len(),
                ls == lines(v@),
                forall|j: int|
                    #![trigger spans@[j]]
                    0 <= j < spans@.len() ==> spans@[j].0 <= spans@[j].1 <= v@.len() && v@.subrange(
                        spans@[j].0 as int,
                        spans@[j].1 as int,
                    ) == ls[j],
                starts == marker_positions(ls.take(i as int), START_MARKER@).len(),
                ends == marker_positions(ls.take(i as int), END_MARKER@).len(),
                starts > 0 ==> first_start == marker_positions(ls.take(i as int), START_MARKER@)[0],
                ends > 0 ==> first_end == marker_positions(ls.take(i as int), END_MARKER@)[0],
                starts <= i && ends <= i,
            decreases n - i,
        {
            let (a, b) = spans[i];
            let (s, e) = trim_span(&v, a, b);
            assert(ls.take(i + 1).drop_last() =~= ls.take(i as int));
            proof {
                lemma_positions_prefix(ls.take(i + 1), START_MARKER@);
                lemma_positions_prefix(ls.take(i + 1), END_MARKER@);
            }
            if crate::text::span_is(&v, s, e, START_MARKER) {
                if starts == 0 {
                    first_start = i;
                }
                starts = starts + 1;
            }
            if crate::text::span_is(&v, s, e, END_MARKER) {
                if ends == 0 {
                    first_end = i;
                }
                ends = ends + 1;
            }
            i = i + 1;
        }
        assert(ls.take(n as int) =~= ls);
        proof {
            lemma_positions_bounds(ls, START_MARKER@);
            lemma_positions_bounds(ls, END_MARKER@);
        }
        if starts == 0 && ends == 0 {
            let before = copy_lines(&v, &spans, 0, n);
            let r = AuthorizedKeysDocument { before, managed: Vec::new(), after: Vec::new() };
            assert(r@.0 =~= ls) by {
                assert forall|j: int| 0 <= j < n implies r@.0[j] == ls[j] by {
                    assert(spans@[0 + j] == spans@[j]);
                }
            }
            assert(r@.1 =~= Seq::<KeyView>::empty());
            assert(r@.2 =~= Seq::<Seq<char>>::empty());
            return Ok(r);
        }
        if !(starts == 1 && ends == 1 && first_start < first_end) {
            return Err(AgentError::conflict("authorized_keys contains malformed Deckox markers"));
        }
        let ghost block = ls.subrange(first_start + 1, first_end as int);
        let mut managed: Vec<PublicKey> = Vec::new();
        let mut k = first_start + 1;
        assert(block.take(0) =~= Seq::<Seq<char>>::empty());
        assert(key_views(managed@) =~= Seq::<KeyView>::empty());
        while k < first_end
            invariant
                first_start < k <= first_end < n == spans@.len() == ls.len(),
                block == ls.subrange(first_start + 1, first_end as int),
                ls == lines(content@),
                marker_positions(ls, START_MARKER@).len() == 1,
                marker_positions(ls, END_MARKER@).len() == 1,
                marker_positions(ls, START_MARKER@)[0] == first_start,
                marker_positions(ls, END_MARKER@)[0] == first_end,
                forall|j: int|
                    #![trigger spans@[j]]
                    0 <= j < spans@.len() ==> spans@[j].0 <= spans@[j].1 <= v@.len() && v@.subrange(
                        spans@[j].0 as int,
                        spans@[j].1 as int,
                    ) == ls[j],
                keys_of(block.take(k - first_start - 1)) == Ok::<Seq<KeyView>, Seq<char>>(key_views(managed@)),
            decreases first_end - k,
        {
            let ghost t = block.take(k - first_start - 1);
            assert(block.take(k - first_start) =~= t.push(ls[k as int]));
            assert(block.take(k - first_start).drop_last() =~= t);
            let (a, b) = spans[k];
            let line = string_of(&v, a, b);
            if is_key_line(line.as_str()) {
                match parse_public_key(line.as_str()) {
                    Ok(key) => {
                        let ghost prev = managed@;
                        managed.push(key);
                        assert(key_views(managed@) =~= key_views(prev).push(key@));
                    },
                    Err(error) => {
                        proof {
                            assert(block.take(k - first_start).last() == ls[k as int]);
                            assert(keys_of(block.take(k - first_start)) == Err::<Seq<KeyView>, Seq<char>>(error.message@));
                            lemma_keys_error_stays(block, (k - first_start) as int);
                            assert(marker_positions(ls, START_MARKER@)[0] == first_start);
                            assert(marker_positions(ls, END_MARKER@)[0] == first_end);
                        }
                        return Err(error);
                    },
                }
            }
            k = k + 1;
        }
        assert(block.take(first_end - first_start - 1) =~= block);
        let before = copy_lines(&v, &spans, 0, first_start);
        let after = copy_lines(&v, &spans, first_end + 1, n);
        let r = AuthorizedKeysDocument { before, managed, after };
        assert(r@.0 =~= ls.take(first_start as int)) by {
            assert forall|j: int| 0 <= j < first_start implies r@.0[j] == ls[j] by {
                assert(spans@[0 + j] == spans@[j]);
            }
        }
        assert(r@.2 =~= ls.skip(first_end + 1)) by {
            assert forall|j: int| 0 <= j < n - first_end - 1 implies r@.2[j] == ls[first_end + 1 + j] by {
                assert(spans@[(first_end + 1) + j] == spans@[first_end + 1 + j]);
            }
        }
        Ok(r)
    }

    /// The file's text.
    pub fn render(&self) -> (r: String)
        ensures
            r@ == render_of(self@),
    {
        let ghost goal = all_lines(self@);
        let mut all: Vec<String> = Vec::new();
        let mut i: usize = 0;
        while i < self.before.len()
            invariant
                i <= self.before@.len(),
                crate::text::texts(all@) == crate::text::texts(self.before@).take(i as int),
            decreases self.before@.len() - i,
        {
            let x = self.before[i].clone();
            proof {
                lemma_texts_push(all@, x);
            }
            all.push(x);
            assert(crate::text::texts(self.before@).take(i + 1) =~= crate::text::texts(self.before@).take(i as int).push(
                self.before@[i as int]@,
            ));
            i = i + 1;
        }
        let m = owned(START_MARKER);
        proof {
            lemma_texts_push(all@, m);
        }
        all.push(m);
        assert(crate::text::texts(self.before@).take(self.before@.len() as int) =~= crate::text::texts(self.before@));
        let ghost keys = normalized_lines(key_views(self.managed@));
        let mut k: usize = 0;
        while k < self.managed.len()
            invariant
                k <= self.managed@.len(),
                keys == normalized_lines(key_views(self.managed@)),
                crate::text::texts(all@) == crate::text::texts(self.before@) + seq![START_MARKER@] + keys.take(k as int),
            decreases self.managed@.len() - k,
        {
            let x = self.managed[k].normalized.clone();
            proof {
                lemma_texts_push(all@, x);
            }
            all.push(x);
            assert(keys.take(k + 1) =~= keys.take(k as int).push(keys[k as int]));
            k = k + 1;
        }
        assert(keys.take(self.managed@.len() as int) =~= keys);
        let m = owned(END_MARKER);
        proof {
            lemma_texts_push(all@, m);
        }
        all.push(m);
        let mut j: usize = 0;
        while j < self.after.len()
            invariant
                j <= self.after@.len(),
                keys == normalized_lines(key_views(self.managed@)),
                crate::text::texts(all@) == crate::text::texts(self.before@) + seq![START_MARKER@] + keys + seq![
                    END_MARKER@,
                ] + crate::text::texts(self.after@).take(j as int),
            decreases self.after@.len() - j,
        {
            let x = self.after[j].clone();
            proof {
                lemma_texts_push(all@, x);
            }
            all.push(x);
            assert(crate::text::texts(self.after@).take(j + 1) =~= crate::text::texts(self.after@).take(j as int).push(
                self.after@[j as int]@,
            ));
            j = j + 1;
        }
        assert(crate::text::texts(self.after@).take(self.after@.len() as int) =~= crate::text::texts(self.after@));
        assert(crate::text::texts(all@) =~= goal);
        let mut out = join_lines(&all);
        push_str(&mut out, "\n");
        out
    }
}

proof fn lemma_positions_prefix(ls: Seq<Seq<char>>, marker: Seq<char>)
    requires
        ls.len() > 0,
    ensures
        marker_positions(ls, marker).len() > 0 ==> marker_positions(ls, marker)[0] == if marker_positions(
            ls.drop_last(),
            marker,
        ).len() > 0 {
            marker_positions(ls.drop_last(), marker)[0]
        } else {
            ls.len() - 1
        },
{
}

proof fn lemma_keys_error_stays(ls: Seq<Seq<char>>, k: int)
    requires
        1 <= k <= ls.len(),
        keys_of(ls.take(k)) is Err,
    ensures
        keys_of(ls) == keys_of(ls.take(k)),
    decreases ls.len() - k,
{
    if k < ls.len() {
        assert(ls.take(k + 1).drop_last() =~= ls.take(k));
        lemma_keys_error_stays(ls, k + 1);
    } else {
        assert(ls.take(k) =~= ls);
    }
}

/// The items joined with newlines.
fn join_lines(items: &Vec<String>) -> (r: String)
    ensures
        r@ == join(crate::text::texts(items@), "\n"@),
{
    let mut out = String::new();
    if items.len() == 0 {
        return out;
    }
    push_str(&mut out, items[0].as_str());
    assert(crate::text::texts(items@).take(1) =~= seq![items@[0]@]);
    let mut i: usize = 1;
    while i < items.len()
        invariant
            1 <= i <= items@.len(),
            out@ == join(crate::text::texts(items@).take(i as int), "\n"@),
        decreases items@.len() - i,
    {
        assert(crate::text::texts(items@).take(i + 1).drop_last() =~= crate::text::texts(items@).take(i as int));
        push_str(&mut out, "\n");
        push_str(&mut out, items[i].as_str());
        i = i + 1;
    }
    assert(crate::text::texts(items@).take(items@.len() as int) =~= crate::text::texts(items@));
    out
}

// ---------------------------------------------------------------------------
// The managed account
// ---------------------------------------------------------------------------

/// A Linux user name: 1 to 32 characters of `[a-z0-9_-]`, starting with a
/// lowercase letter or `_`.
pub open spec fn valid_user(name: Seq<char>) -> bool {
    &&& 0 < name.len() <= 32
    &&& (is_lower(name[0]) || name[0] == '_')
    &&& forall|i: int| 0 <= i < name.len() ==> is_lower(#[trigger] name[i]) || is_digit(name[i]) || name[i] == '_'
        || name[i] == '-'
}

pub fn valid_username(username: &str) -> (r: bool)
    ensures
        r == valid_user(username@),
{
    let v = chars_of(username);
    if v.len() == 0 || v.len() > 32 || !(crate::text::lower(v[0]) || v[0] == '_') {
        return false;
    }
    let mut i: usize = 0;
    while i < v.len()
        invariant
            i <= v@.len(),
            v@ == username@,
            forall|j: int| 0 <= j < i ==> is_lower(#[trigger] v@[j]) || is_digit(v@[j]) || v@[j] == '_' || v@[j] == '-',
        decreases v@.len() - i,
    {
        let c = v[i];
        if !(crate::text::lower(c) || crate::text::digit(c) || c == '_' || c == '-') {
            return false;
        }
        i = i + 1;
    }
    true
}

/// The account whose keys are managed.
#[derive(Debug, Clone)]
pub struct TargetUser {
    pub username: String,
    pub home: String,
    pub uid: u32,
    pub gid: u32,
}

/// The fields of the first `/etc/passwd` line for `user` that has all
/// seven of them.
pub open spec fn passwd_fields(ls: Seq<Seq<char>>, user: Seq<char>) -> Option<Seq<Seq<char>>>
    decreases ls.len(),
{
    if ls.len() == 0 {
        None
    } else {
        let f = crate::text::split(ls[0], ':');
        if f[0] == user && f.len() >= 7 {
            Some(f)
        } else {
            passwd_fields(ls.drop_first(), user)
        }
    }
}

/// A path that names the root directory: `/`, with only empty or `.`
/// components.
pub open spec fn root_path(home: Seq<char>) -> bool {
    home.len() > 0 && home[0] == '/' && forall|k: int|
        0 <= k < crate::text::split(home, '/').len() ==> #[trigger] crate::text::split(home, '/')[k].len() == 0
            || crate::text::split(home, '/')[k] == "."@
}

/// The account to manage, as `/etc/passwd` (`passwd`) describes it, or why
/// it cannot be managed.
pub open spec fn target_of(user: Seq<char>, passwd: Seq<char>) -> Result<(Seq<char>, Seq<char>, nat, nat), (ErrorKind, Seq<char>)> {
    if user == "root"@ || !valid_user(user) {
        Err((ErrorKind::BadRequest, "SSH managed_user must be a valid non-root Linux account"@))
    } else {
        match passwd_fields(lines(passwd), user) {
            None => Err((ErrorKind::BadRequest, "Linux user "@ + user + " does not exist"@)),
            Some(f) => match crate::text::parse_unsigned(f[2], 0xffff_ffff) {
                None => Err((ErrorKind::Internal, "managed user has an invalid UID"@)),
                Some(uid) => match crate::text::parse_unsigned(f[3], 0xffff_ffff) {
                    None => Err((ErrorKind::Internal, "managed user has an invalid GID"@)),
                    Some(gid) => if uid == 0 {
                        Err((ErrorKind::BadRequest, "SSH public-key management for UID 0 is not allowed"@))
                    } else if !(f[5].len() > 0 && f[5][0] == '/') || root_path(f[5]) {
                        Err((ErrorKind::BadRequest, "managed user has an unsafe home directory"@))
                    } else {
                        Ok((user, f[5], uid, gid))
                    },
                },
            },
        }
    }
}

proof fn lemma_passwd_fields(ls: Seq<Seq<char>>, user: Seq<char>)
    ensures
        passwd_fields(ls, user) matches Some(f) ==> f.len() >= 7,
    decreases ls.len(),
{
    if ls.len() > 0 {
        lemma_passwd_fields(ls.drop_first(), user);
    }
}

fn find_passwd_line(v: &Vec<char>, spans: &Vec<(usize, usize)>, user: &str) -> (r: Option<Vec<(usize, usize)>>)
    requires
        forall|j: int|
            #![trigger spans@[j]]
            0 <= j < spans@.len() ==> spans@[j].0 <= spans@[j].1 <= v@.len() && v@.subrange(
                spans@[j].0 as int,
                spans@[j].1 as int,
            ) == lines(v@)[j],
        spans@.len() == lines(v@).len(),
    ensures
        match passwd_fields(lines(v@), user@) {
            Some(f) => r matches Some(fs) && crate::text::spans_are(v@, fs@, f),
            None => r is None,
        },
{
    let ghost ls = lines(v@);
    let mut i: usize = 0;
    assert(ls.skip(0) =~= ls);
    while i < spans.len()
        invariant
            i <= spans@.len() == ls.len(),
            ls == lines(v@),
            forall|j: int|
                #![trigger spans@[j]]
                0 <= j < spans@.len() ==> spans@[j].0 <= spans@[j].1 <= v@.len() && v@.subrange(
                    spans@[j].0 as int,
                    spans@[j].1 as int,
                ) == ls[j],
            passwd_fields(ls, user@) == passwd_fields(ls.skip(i as int), user@),
        decreases spans@.len() - i,
    {
        assert(ls.skip(i as int).drop_first() =~= ls.skip(i + 1));
        assert(ls.skip(i as int)[0] == ls[i as int]);
        let (a, b) = spans[i];
        let fields = crate::text::split_char(v, a, b, ':');
        let ghost f = crate::text::split(ls[i as int], ':');
        assert(fields@.len() == f.len());
        if fields.len() >= 7 {
            let (x, y) = fields[0];
            assert(v@.subrange(x as int, y as int) == f[0]);
            if crate::text::span_is(v, x, y, user) {
                return Some(fields);
            }
        } else {
            proof {
                if f.len() > 0 {
                }
            }
        }
        i = i + 1;
    }
    assert(ls.skip(ls.len() as int) =~= Seq::<Seq<char>>::empty());
    None
}

fn is_root_path(v: &Vec<char>, a: usize, b: usize) -> (r: bool)
    requires
        a <= b <= v@.len(),
    ensures
        r == root_path(v@.subrange(a as int, b as int)),
{
    let ghost h = v@.subrange(a as int, b as int);
    if a == b || v[a] != '/' {
        return false;
    }
    let parts = crate::text::split_char(v, a, b, '/');
    let mut k: usize = 0;
    while k < parts.len()
        invariant
            k <= parts@.len(),
            h == v@.subrange(a as int, b as int),
            crate::text::spans_are(v@, parts@, crate::text::split(h, '/')),
            forall|j: int|
                0 <= j < k ==> #[trigger] crate::text::split(h, '/')[j].len() == 0 || crate::text::split(h, '/')[j]
                    == "."@,
        decreases parts@.len() - k,
    {
        let (x, y) = parts[k];
        assert(v@.subrange(x as int, y as int) == crate::text::split(h, '/')[k as int]);
        if !(x == y || crate::text::span_is(v, x, y, ".")) {
            assert(!(crate::text::split(h, '/')[k as int].len() == 0 || crate::text::split(h, '/')[k as int] == "."@));
            return false;
        }
        k = k + 1;
    }
    true
}

/// Looks the account up in `/etc/passwd`, whose text is `passwd`.
pub fn resolve_user(username: &str, passwd: &str) -> (r: Result<TargetUser, AgentError>)
    ensures
        match target_of(username@, passwd@) {
            Ok((name, home, uid, gid)) => r matches Ok(t) && t.username@ == name && t.home@ == home && t.uid == uid
                && t.gid == gid,
            Err((k, m)) => r matches Err(e) && e.kind == k && e.message@ == m,
        },
{
    if crate::agent::events::text_eq(username, "root") || !valid_username(username) {
        return Err(AgentError::bad_request("SSH managed_user must be a valid non-root Linux account"));
    }
    let v = chars_of(passwd);
    let spans = split_lines(&v);
    let fields = match find_passwd_line(&v, &spans, username) {
        Some(f) => f,
        None => {
            let mut m = owned("Linux user ");
            push_str(&mut m, username);
            push_str(&mut m, " does not exist");
            return Err(AgentError::bad_request(m.as_str()));
        },
    };
    let ghost f = passwd_fields(lines(passwd@), username@).unwrap();
    proof {
        lemma_passwd_fields(lines(passwd@), username@);
    }
    let (u0, u1) = fields[2];
    let (g0, g1) = fields[3];
    let (h0, h1) = fields[5];
    assert(v@.subrange(u0 as int, u1 as int) == f[2]);
    assert(v@.subrange(g0 as int, g1 as int) == f[3]);
    assert(v@.subrange(h0 as int, h1 as int) == f[5]);
    let uid = match crate::text::parse_unsigned_span(&v, u0, u1, 0xffff_ffff) {
        Some(n) => n as u32,
        None => return Err(AgentError::internal("managed user has an invalid UID")),
    };
    let gid = match crate::text::parse_unsigned_span(&v, g0, g1, 0xffff_ffff) {
        Some(n) => n as u32,
        None => return Err(AgentError::internal("managed user has an invalid GID")),
    };
    if uid == 0 {
        return Err(AgentError::bad_request("SSH public-key management for UID 0 is not allowed"));
    }
    if h0 == h1 || v[h0] != '/' || is_root_path(&v, h0, h1) {
        return Err(AgentError::bad_request("managed user has an unsafe home directory"));
    }
    Ok(TargetUser { username: owned(username), home: string_of(&v, h0, h1), uid, gid })
}

/// A managed key's id as the web admin sends it: 64 hex digits.
pub open spec fn valid_key_id(id: Seq<char>) -> bool {
    id.len() == 64 && forall|i: int| 0 <= i < 64 ==> crate::text::is_hex_digit(#[trigger] id[i])
}

pub fn check_key_id(key_id: &str) -> (r: Result<(), AgentError>)
    ensures
        valid_key_id(key_id@) ==> r is Ok,
        !valid_key_id(key_id@) ==> (r matches Err(e) && e.kind == ErrorKind::BadRequest && e.message@
            == "invalid SSH key ID"@),
{
    let v = chars_of(key_id);
    if v.len() != 64 {
        return Err(AgentError::bad_request("invalid SSH key ID"));
    }
    let mut i: usize = 0;
    while i < 64
        invariant
            i <= 64,
            v@ == key_id@,
            v@.len() == 64,
            forall|j: int| 0 <= j < i ==> crate::text::is_hex_digit(#[trigger] v@[j]),
        decreases 64 - i,
    {
        if !crate::text::hex_digit(v[i]) {
            return Err(AgentError::bad_request("invalid SSH key ID"));
        }
        i = i + 1;
    }
    Ok(())
}

/// The code point of a character in ASCII lowercase.
pub open spec fn ascii_fold(c: char) -> u32 {
    if 'A' <= c <= 'Z' {
        ((c as u32) + 32) as u32
    } else {
        c as u32
    }
}

/// `eq_ignore_ascii_case`.
pub open spec fn same_ignoring_case(a: Seq<char>, b: Seq<char>) -> bool {
    a.len() == b.len() && forall|i: int| 0 <= i < a.len() ==> ascii_fold(#[trigger] a[i]) == ascii_fold(b[i])
}

fn fold(c: char) -> (r: u32)
    ensures
        r == ascii_fold(c),
{
    if 'A' <= c && c <= 'Z' {
        (c as u32) + 32
    } else {
        c as u32
    }
}

fn eq_ignore_case(a: &str, b: &str) -> (r: bool)
    ensures
        r == same_ignoring_case(a@, b@),
{
    let x = chars_of(a);
    let y = chars_of(b);
    if x.len() != y.len() {
        return false;
    }
    let mut i: usize = 0;
    while i < x.len()
        invariant
            i <= x@.len() == y@.len(),
            x@ == a@,
            y@ == b@,
            forall|j: int| 0 <= j < i ==> ascii_fold(#[trigger] x@[j]) == ascii_fold(y@[j]),
        decreases x@.len() - i,
    {
        if fold(x[i]) != fold(y[i]) {
            return false;
        }
        i = i + 1;
    }
    true
}

/// The number of key lines among `ls`.
pub open spec fn key_line_count(ls: Seq<Seq<char>>) -> nat
    decreases ls.len(),
{
    if ls.len() == 0 {
        0
    } else {
        key_line_count(ls.drop_last()) + if key_line(ls.last()) {
            1nat
        } else {
            0nat
        }
    }
}

fn count_key_lines(ls: &Vec<String>) -> (r: usize)
    ensures
        r == key_line_count(crate::text::texts(ls@)),
{
    let ghost t = crate::text::texts(ls@);
    let mut n: usize = 0;
    let mut i: usize = 0;
    while i < ls.len()
        invariant
            i <= ls@.len(),
            t == crate::text::texts(ls@),
            n == key_line_count(t.take(i as int)),
            n <= i,
        decreases ls@.len() - i,
    {
        assert(t.take(i + 1).drop_last() =~= t.take(i as int));
        if is_key_line(ls[i].as_str()) {
            n = n + 1;
        }
        i = i + 1;
    }
    assert(t.take(ls@.len() as int) =~= t);
    n
}

/// The first managed key with `id`, ignoring ASCII case.
pub open spec fn key_index(keys: Seq<KeyView>, id: Seq<char>) -> Option<int> {
    if exists|i: int| 0 <= i < keys.len() && same_ignoring_case(keys[i].1, id) {
        Some(choose|i: int| 0 <= i < keys.len() && same_ignoring_case(keys[i].1, id) && forall|j: int|
            0 <= j < i ==> !same_ignoring_case(keys[j].1, id))
    } else {
        None
    }
}

/// A summary as plain values: id, type, fingerprint, comment.
pub open spec fn summary_view(s: SshKeySummary) -> (Seq<char>, Seq<char>, Seq<char>, Option<Seq<char>>) {
    (s.id@, s.key_type@, s.fingerprint@, opt_text(s.comment))
}

/// Whether a managed key has `fingerprint`.
pub open spec fn has_fingerprint(keys: Seq<KeyView>, fingerprint: Seq<char>) -> bool {
    exists|i: int| 0 <= i < keys.len() && keys[i].3 == fingerprint
}

/// The keys of one account, managed through its `authorized_keys`.
pub struct SshKeyManager {
    target: Option<TargetUser>,
}

impl SshKeyManager {
    /// Key management for `managed_user` (none when `None`), looked up in
    /// `/etc/passwd` (`passwd`).
    pub fn new(managed_user: Option<&str>, passwd: &str) -> (r: Result<SshKeyManager, AgentError>)
        ensures
            managed_user is None ==> (r matches Ok(m) && m.target() is None),
            managed_user matches Some(u) ==> match target_of(u@, passwd@) {
                Ok((name, home, uid, gid)) => r matches Ok(m) && m.target() matches Some(t) && t.username@ == name
                    && t.home@ == home && t.uid == uid && t.gid == gid,
                Err((k, msg)) => r matches Err(e) && e.kind == k && e.message@ == msg,
            },
    {
        match managed_user {
            None => Ok(SshKeyManager { target: None }),
            Some(u) => {
                let t = resolve_user(u, passwd)?;
                Ok(SshKeyManager { target: Some(t) })
            },
        }
    }

    pub closed spec fn target(&self) -> Option<TargetUser> {
        self.target
    }

    /// The managed account, or the error for a host without one.
    pub fn target_user(&self) -> (r: Result<&TargetUser, AgentError>)
        ensures
            match self.target() {
                Some(t) => r == Ok::<&TargetUser, AgentError>(&t),
                None => r matches Err(e) && e.kind == ErrorKind::Unavailable && e.message@
                    == "SSH public-key management is not configured"@,
            },
    {
        match &self.target {
            Some(t) => Ok(t),
            None => Err(AgentError::unavailable("SSH public-key management is not configured")),
        }
    }

    /// The managed keys of the document read from the account (none when no
    /// account is managed).
    pub fn list(&self, document: AuthorizedKeysDocument) -> (r: SshKeyList)
        ensures
            r.enabled == self.target() is Some,
            match self.target() {
                Some(t) => r.managed_user matches Some(u) && u@ == t.username@ && r.keys@.len()
                    == document.managed@.len() && forall|i: int|
                    0 <= i < r.keys@.len() ==> #[trigger] r.keys@[i] == document.managed@[i].summary,
                None => r.managed_user is None && r.keys@.len() == 0,
            },
    {
        match &self.target {
            None => SshKeyList { enabled: false, managed_user: None, keys: Vec::new() },
            Some(t) => {
                let mut keys: Vec<SshKeySummary> = Vec::new();
                let mut managed = document.managed;
                let ghost all = managed@;
                let mut rest: Vec<SshKeySummary> = Vec::new();
                while managed.len() > 0
                    invariant
                        managed@.len() + rest@.len() == all.len(),
                        managed@ == all.take(managed@.len() as int),
                        forall|i: int|
                            0 <= i < rest@.len() ==> #[trigger] rest@[i] == all[all.len() - 1 - i].summary,
                    decreases managed@.len(),
                {
                    let k = managed.pop().unwrap();
                    rest.push(k.summary);
                }
                while rest.len() > 0
                    invariant
                        keys@.len() + rest@.len() == all.len(),
                        forall|i: int|
                            0 <= i < rest@.len() ==> #[trigger] rest@[i] == all[all.len() - 1 - i].summary,
                        forall|i: int| 0 <= i < keys@.len() ==> #[trigger] keys@[i] == all[i].summary,
                    decreases rest@.len(),
                {
                    let s = rest.pop().unwrap();
                    keys.push(s);
                }
                SshKeyList { enabled: true, managed_user: Some(t.username.clone()), keys }
            },
        }
    }

    /// Adds a parsed key to the document, unless a managed key has the same
    /// fingerprint.
    pub fn add_to(document: &mut AuthorizedKeysDocument, key: PublicKey) -> (r: Result<SshKeySummary, AgentError>)
        ensures
            has_fingerprint(old(document)@.1, key@.3) ==> (r matches Err(e) && e.kind == ErrorKind::Conflict
                && e.message@ == "SSH public key is already managed"@ && final(document)@ == old(document)@),
            !has_fingerprint(old(document)@.1, key@.3) ==> (r matches Ok(s) && summary_view(s) == (key@.1, key@.2, key@.3, key@.4)
                && final(document)@ == (old(document)@.0, old(document)@.1.push(key@), old(document)@.2)),
    {
        let mut i: usize = 0;
        while i < document.managed.len()
            invariant
                i <= document.managed@.len(),
                document@ == old(document)@,
                forall|j: int| 0 <= j < i ==> #[trigger] key_views(document.managed@)[j].3 != key@.3,
            decreases document.managed@.len() - i,
        {
            if crate::agent::events::text_eq(document.managed[i].summary.fingerprint.as_str(), key.summary.fingerprint.as_str()) {
                assert(key_views(document.managed@)[i as int].3 == key@.3);
                return Err(AgentError::conflict("SSH public key is already managed"));
            }
            i = i + 1;
        }
        let summary = key.copy().summary;
        let ghost before = document.managed@;
        let ghost kv = key@;
        document.managed.push(key);
        assert(key_views(document.managed@) =~= key_views(before).push(kv));
        Ok(summary)
    }

    /// Removes the managed key with `key_id`, unless it is the last key the
    /// account could log in with.
    pub fn remove_from(document: &mut AuthorizedKeysDocument, key_id: &str) -> (r: Result<SshKeySummary, AgentError>)
        ensures
            match key_index(old(document)@.1, key_id@) {
                None => r matches Err(e) && e.kind == ErrorKind::NotFound && e.message@
                    == "managed SSH public key not found"@ && final(document)@ == old(document)@,
                Some(i) => if old(document)@.1.len() + key_line_count(old(document)@.0) + key_line_count(
                    old(document)@.2,
                ) <= 1 {
                    r matches Err(e) && e.kind == ErrorKind::Conflict && e.message@
                        == "refusing to remove the last SSH public key"@ && final(document)@ == old(document)@
                } else {
                    r matches Ok(s) && s.id@ == old(document)@.1[i].1 && s.key_type@ == old(document)@.1[i].2
                        && s.fingerprint@ == old(document)@.1[i].3 && opt_text(s.comment) == old(document)@.1[i].4
                        && final(document)@ == (old(document)@.0, old(document)@.1.remove(i), old(document)@.2)
                },
            },
    {
        let ghost keys = key_views(document.managed@);
        let mut i: usize = 0;
        let mut found: Option<usize> = None;
        while i < document.managed.len() && found.is_none()
            invariant
                i <= document.managed@.len(),
                document@ == old(document)@,
                keys == key_views(document.managed@),
                match found {
                    Some(k) => k < i && same_ignoring_case(keys[k as int].1, key_id@) && forall|j: int|
                        0 <= j < k ==> !same_ignoring_case(keys[j].1, key_id@),
                    None => forall|j: int| 0 <= j < i ==> !same_ignoring_case(#[trigger] keys[j].1, key_id@),
                },
            decreases document.managed@.len() - i,
        {
            if eq_ignore_case(document.managed[i].summary.id.as_str(), key_id) {
                found = Some(i);
            }
            i = i + 1;
        }
        let index = match found {
            None => {
                assert(!exists|j: int| 0 <= j < keys.len() && same_ignoring_case(keys[j].1, key_id@));
                return Err(AgentError::not_found("managed SSH public key not found"));
            },
            Some(k) => {
                proof {
                    let c = choose|j: int| 0 <= j < keys.len() && same_ignoring_case(keys[j].1, key_id@) && forall|m: int|
                        0 <= m < j ==> !same_ignoring_case(keys[m].1, key_id@);
                    assert(c == k) by {
                        if c < k {
                            assert(!same_ignoring_case(keys[c].1, key_id@));
                        } else if c > k {
                            assert(!same_ignoring_case(keys[k as int].1, key_id@));
                        }
                    }
                }
                k
            },
        };
        let a = count_key_lines(&document.before);
        let b = count_key_lines(&document.after);
        let m = document.managed.len();
        let last = m <= 1 && a <= 1 && b <= 1 && m + a + b <= 1;
        if last {
            return Err(AgentError::conflict("refusing to remove the last SSH public key"));
        }
        let ghost before = document.managed@;
        let removed = document.managed.remove(index);
        assert(key_views(document.managed@) =~= key_views(before).remove(index as int));
        Ok(removed.summary)
    }
}

/// What `lstat` says of a path: its kind, its owner and its size.
#[derive(Debug, Clone, Copy)]
pub struct PathFacts {
    pub is_dir: bool,
    pub is_file: bool,
    pub is_symlink: bool,
    pub uid: u32,
    pub len: u64,
}

/// The account's `.ssh` directory must be a real directory it owns.
pub fn check_ssh_directory(facts: PathFacts, target_uid: u32) -> (r: Result<(), AgentError>)
    ensures
        (!facts.is_dir || facts.is_symlink) ==> (r matches Err(e) && e.kind == ErrorKind::Forbidden && e.message@
            == "refusing unsafe .ssh directory"@),
        (facts.is_dir && !facts.is_symlink && facts.uid != target_uid) ==> (r matches Err(e) && e.kind
            == ErrorKind::Forbidden && e.message@ == ".ssh directory is not owned by the managed user"@),
        (facts.is_dir && !facts.is_symlink && facts.uid == target_uid) ==> r is Ok,
{
    if !facts.is_dir || facts.is_symlink {
        return Err(AgentError::forbidden("refusing unsafe .ssh directory"));
    }
    if facts.uid != target_uid {
        return Err(AgentError::forbidden(".ssh directory is not owned by the managed user"));
    }
    Ok(())
}

/// What writing `authorized_keys` first does with the account's `.ssh`
/// directory: secure the one there (mode 0700), or create it and give it to
/// the account.
#[derive(Debug, Clone, Copy, PartialEq, Eq, Structural)]
pub enum DirectoryStep {
    Secure,
    Create,
}

/// Before a write, the `.ssh` directory is secured when it is a real
/// directory the account owns, created when there is none (`facts` is
/// `None`), and anything else is refused.
pub fn plan_ssh_directory(facts: Option<PathFacts>, target_uid: u32) -> (r: Result<DirectoryStep, AgentError>)
    ensures
        facts is None ==> r == Ok::<DirectoryStep, AgentError>(DirectoryStep::Create),
        (facts matches Some(f) && f.is_dir && !f.is_symlink && f.uid == target_uid) ==> r == Ok::<
            DirectoryStep,
            AgentError,
        >(DirectoryStep::Secure),
        (facts matches Some(f) && !(f.is_dir && !f.is_symlink && f.uid == target_uid)) ==> (r matches Err(e) && e.kind
            == ErrorKind::Forbidden && e.message@ == "refusing unsafe .ssh directory"@),
{
    match facts {
        None => Ok(DirectoryStep::Create),
        Some(f) => if f.is_dir && !f.is_symlink && f.uid == target_uid {
            Ok(DirectoryStep::Secure)
        } else {
            Err(AgentError::forbidden("refusing unsafe .ssh directory"))
        },
    }
}

/// `authorized_keys` must be a regular file the account owns, of at most
/// a megabyte.
pub fn check_keys_file(facts: PathFacts, target_uid: u32) -> (r: Result<(), AgentError>)
    ensures
        (!facts.is_file || facts.is_symlink) ==> (r matches Err(e) && e.kind == ErrorKind::Forbidden && e.message@
            == "refusing unsafe authorized_keys path"@),
        (facts.is_file && !facts.is_symlink && facts.uid != target_uid) ==> (r matches Err(e) && e.kind
            == ErrorKind::Forbidden && e.message@ == "authorized_keys is not owned by the managed user"@),
        (facts.is_file && !facts.is_symlink && facts.uid == target_uid && facts.len > MAX_AUTHORIZED_KEYS_BYTES)
            ==> (r matches Err(e) && e.kind == ErrorKind::BadRequest && e.message@
            == "authorized_keys is too large"@),
        (facts.is_file && !facts.is_symlink && facts.uid == target_uid && facts.len <= MAX_AUTHORIZED_KEYS_BYTES)
            ==> r is Ok,
{
    if !facts.is_file || facts.is_symlink {
        return Err(AgentError::forbidden("refusing unsafe authorized_keys path"));
    }
    if facts.uid != target_uid {
        return Err(AgentError::forbidden("authorized_keys is not owned by the managed user"));
    }
    if facts.len > MAX_AUTHORIZED_KEYS_BYTES {
        return Err(AgentError::bad_request("authorized_keys is too large"));
    }
    Ok(())
}

/// The name of the file a new `authorized_keys` is written to before it
/// replaces the old one: `.authorized_keys.deckox.` and 8 random bytes in
/// hex.
pub fn temporary_name() -> (r: String)
    ensures
        exists|bytes: Seq<u8>| bytes.len() == 8 && r@ == ".authorized_keys.deckox."@ + hex_text(bytes),
{
    crate::encoding::random_hex_id(".authorized_keys.deckox.", 8)
}

} // verus!
