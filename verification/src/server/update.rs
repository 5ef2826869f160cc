//! The update check against the latest GitHub release, its cache, and the
//! install script fetched for a self-update.

use vstd::prelude::*;
use vstd::string::StrSliceExecFns;

use crate::protocol::{StatusView, UpdateCheckStatus, UpdateStatus, is_valid_release_tag, valid_release_tag};
use crate::text::{decimal, owned, push_decimal, push_str, starts_with};

verus! {

pub const MAX_RESPONSE_BYTES: usize = 65536;

pub const MAX_SCRIPT_BYTES: usize = 262144;

/// How long a finished check is served from the cache: 15 minutes.
pub const CACHE_TTL_MS: u64 = 900000;

/// Why reading a response body stopped.
#[derive(Debug, Clone, Copy, PartialEq, Eq, Structural)]
pub enum BoundedBodyError {
    Request,
    TooLarge,
}

#[derive(Debug, Clone, Copy, PartialEq, Eq, Structural)]
pub enum InstallScriptError {
    InvalidVersion,
    Request,
    TooLarge,
    InvalidResponse,
}

// ---------------------------------------------------------------------------
// Bounded bodies
// ---------------------------------------------------------------------------

/// A declared `Content-Length` over the cap refuses the body at once.
pub fn declared_too_large(content_length: Option<u64>, max_bytes: usize) -> (r: bool)
    ensures
        r == (content_length matches Some(n) && n > max_bytes),
{
    match content_length {
        Some(n) => n > max_bytes as u64,
        None => false,
    }
}

/// Appends `chunk` to `body` unless that would take it over `max_bytes`,
/// which leaves `body` as it was.
pub fn accumulate_chunk(body: &mut Vec<u8>, chunk: &[u8], max_bytes: usize) -> (r: Result<(), BoundedBodyError>)
    ensures
        old(body)@.len() + chunk@.len() > max_bytes ==> r == Err::<(), BoundedBodyError>(BoundedBodyError::TooLarge)
            && final(body)@ == old(body)@,
        old(body)@.len() + chunk@.len() <= max_bytes ==> r is Ok && final(body)@ == old(body)@ + chunk@,
{
    if chunk.len() > max_bytes || body.len() > max_bytes - chunk.len() {
        return Err(BoundedBodyError::TooLarge);
    }
    let ghost before = body@;
    body.extend_from_slice(chunk);
    assert(body@ =~= before + chunk@);
    Ok(())
}

// ---------------------------------------------------------------------------
// Versions
// ---------------------------------------------------------------------------

/// A SemVer version: `MAJOR.MINOR.PATCH`, the pre-release and the build
/// metadata (empty when absent).
#[derive(Debug, Clone, PartialEq, Eq)]
pub struct SemVer {
    pub major: u64,
    pub minor: u64,
    pub patch: u64,
    pub pre: String,
    pub build: String,
}

pub type SemVerView = (u64, u64, u64, Seq<char>, Seq<char>);

impl View for SemVer {
    type V = SemVerView;

    open spec fn view(&self) -> SemVerView {
        (self.major, self.minor, self.patch, self.pre@, self.build@)
    }
}

pub open spec fn opt_semver(v: Option<SemVer>) -> Option<SemVerView> {
    match v {
        Some(x) => Some(x@),
        None => None,
    }
}

/// The version `semver` reads from `text`, `None` when it is not one.
pub uninterp spec fn semver_parse(text: Seq<char>) -> Option<SemVerView>;

/// Whether `semver` ranks `a` above `b` (SemVer precedence, with build
/// metadata as the last tie-breaker).
pub uninterp spec fn semver_greater(a: SemVerView, b: SemVerView) -> bool;

/// `semver::Version::parse`, its fields taken as plain values. The outcome
/// depends on the text alone; the grammar is not restated here.
#[verifier::external_body]
fn parse_semver(text: &str) -> (r: Option<SemVer>)
    ensures
        opt_semver(r) == semver_parse(text@),
{
    semver::Version::parse(text).ok().map(|v| SemVer {
        major: v.major,
        minor: v.minor,
        patch: v.patch,
        pre: v.pre.as_str().to_owned(),
        build: v.build.as_str().to_owned(),
    })
}

/// The numeric part of a version: major, minor, patch.
pub open spec fn core_of(v: SemVerView) -> (u64, u64, u64) {
    (v.0, v.1, v.2)
}

/// Lexicographic `>` on (major, minor, patch).
pub open spec fn core_greater(a: (u64, u64, u64), b: (u64, u64, u64)) -> bool {
    a.0 > b.0 || (a.0 == b.0 && (a.1 > b.1 || (a.1 == b.1 && a.2 > b.2)))
}

/// `>` on `semver::Version`. It orders by major, then minor, then patch
/// before anything else; how pre-releases and build metadata rank is left to
/// the name. A pre-release or build text that `semver` refuses counts as
/// empty.
#[verifier::external_body]
fn semver_is_greater(a: &SemVer, b: &SemVer) -> (r: bool)
    ensures
        r == semver_greater(a@, b@),
        core_of(a@) != core_of(b@) ==> (r <==> core_greater(core_of(a@), core_of(b@))),
{
    let version = |v: &SemVer| semver::Version {
        major: v.major,
        minor: v.minor,
        patch: v.patch,
        pre: semver::Prerelease::new(&v.pre).unwrap_or(semver::Prerelease::EMPTY),
        build: semver::BuildMetadata::new(&v.build).unwrap_or(semver::BuildMetadata::EMPTY),
    };
    version(a) > version(b)
}

/// How `semver` prints a version: `MAJOR.MINOR.PATCH`, then `-PRE` and
/// `+BUILD` when present.
pub open spec fn version_display(v: SemVerView) -> Seq<char> {
    decimal(v.0 as nat) + "."@ + decimal(v.1 as nat) + "."@ + decimal(v.2 as nat) + (if v.3.len() > 0 {
        "-"@ + v.3
    } else {
        seq![]
    }) + (if v.4.len() > 0 {
        "+"@ + v.4
    } else {
        seq![]
    })
}

/// Appends a version as `semver` prints it.
pub fn push_version(out: &mut String, v: &SemVer)
    ensures
        final(out)@ == old(out)@ + version_display(v@),
{
    push_decimal(out, v.major);
    push_str(out, ".");
    push_decimal(out, v.minor);
    push_str(out, ".");
    push_decimal(out, v.patch);
    if v.pre.as_str().unicode_len() > 0 {
        push_str(out, "-");
        push_str(out, v.pre.as_str());
    }
    if v.build.as_str().unicode_len() > 0 {
        push_str(out, "+");
        push_str(out, v.build.as_str());
    }
    assert(final(out)@ =~= old(out)@ + version_display(v@)) by {
        reveal_strlit("-");
        reveal_strlit("+");
    }
}

/// `value` without one leading `v`.
pub open spec fn without_v(value: Seq<char>) -> Seq<char> {
    if value.len() > 0 && value[0] == 'v' {
        value.drop_first()
    } else {
        value
    }
}

/// A version, written with or without a leading `v`.
pub open spec fn version_of(value: Seq<char>) -> Option<SemVerView> {
    semver_parse(without_v(value))
}

pub fn parse_version(value: &str) -> (r: Option<SemVer>)
    ensures
        opt_semver(r) == version_of(value@),
{
    let v = crate::text::chars_of(value);
    if v.len() > 0 && v[0] == 'v' {
        let rest = crate::text::string_of(&v, 1, v.len());
        assert(v@.subrange(1, v@.len() as int) =~= value@.drop_first());
        parse_semver(rest.as_str())
    } else {
        parse_semver(value)
    }
}

// ---------------------------------------------------------------------------
// Evaluating a release
// ---------------------------------------------------------------------------

/// The status when the latest release is unknown.
pub open spec fn unavailable_view(current: Seq<char>, checked_at_ms: u64) -> StatusView {
    StatusView {
        current_version: current,
        latest_version: None,
        update_available: false,
        release_url: None,
        checked_at_ms: Some(checked_at_ms),
        status: UpdateCheckStatus::Unavailable,
    }
}

pub fn unavailable_status(current_version: &str, checked_at_ms: u64) -> (r: UpdateStatus)
    ensures
        r@ == unavailable_view(current_version@, checked_at_ms),
{
    UpdateStatus {
        current_version: owned(current_version),
        latest_version: None,
        update_available: false,
        release_url: None,
        checked_at_ms: Some(checked_at_ms),
        status: UpdateCheckStatus::Unavailable,
    }
}

/// The tag shown for the latest release: the version as `semver` prints it,
/// with a `v` in front when the release's tag had one. Only this, never the
/// raw tag, reaches a URL.
pub open spec fn safe_tag(latest_tag: Seq<char>, latest: SemVerView) -> Seq<char> {
    if latest_tag.len() > 0 && latest_tag[0] == 'v' {
        "v"@ + version_display(latest)
    } else {
        version_display(latest)
    }
}

/// The status for a release whose tag `latest_tag` reads as the version
/// `latest`, `newer` telling whether it ranks above the running version: its
/// cleaned tag, its release page, and whether an update is available.
pub open spec fn release_view(
    current: Seq<char>,
    latest_tag: Seq<char>,
    latest: SemVerView,
    newer: bool,
    checked_at_ms: u64,
) -> StatusView {
    let tag = safe_tag(latest_tag, latest);
    StatusView {
        current_version: current,
        latest_version: Some(tag),
        update_available: newer,
        release_url: Some("https://github.com/scolor-dev/deckox/releases/tag/"@ + tag),
        checked_at_ms: Some(checked_at_ms),
        status: if newer {
            UpdateCheckStatus::Available
        } else {
            UpdateCheckStatus::UpToDate
        },
    }
}

/// The status for the running version `current` against the latest release
/// tag: unavailable when either is not a version, else whether the release
/// is newer, with its cleaned tag and release page.
pub open spec fn update_view(current: Seq<char>, latest_tag: Seq<char>, checked_at_ms: u64) -> StatusView {
    match (version_of(current), version_of(latest_tag)) {
        (Some(c), Some(l)) => release_view(current, latest_tag, l, semver_greater(l, c), checked_at_ms),
        _ => unavailable_view(current, checked_at_ms),
    }
}

/// The status for a release already read: `latest` is the version that
/// `latest_tag` names and `newer` whether it ranks above `current`.
pub fn release_status(current: &str, latest_tag: &str, latest: &SemVer, newer: bool, checked_at_ms: u64) -> (r:
    UpdateStatus)
    ensures
        r@ == release_view(current@, latest_tag@, latest@, newer, checked_at_ms),
{
    let status = if newer {
        UpdateCheckStatus::Available
    } else {
        UpdateCheckStatus::UpToDate
    };
    let t = crate::text::chars_of(latest_tag);
    let mut tag = String::new();
    if t.len() > 0 && t[0] == 'v' {
        push_str(&mut tag, "v");
    }
    push_version(&mut tag, latest);
    let mut url = owned("https://github.com/scolor-dev/deckox/releases/tag/");
    push_str(&mut url, tag.as_str());
    proof {
        reveal_strlit("v");
        assert(tag@ =~= safe_tag(latest_tag@, latest@));
    }
    UpdateStatus {
        current_version: owned(current),
        latest_version: Some(tag),
        update_available: newer,
        release_url: Some(url),
        checked_at_ms: Some(checked_at_ms),
        status,
    }
}

pub fn evaluate_update(current: &str, latest_tag: &str, checked_at_ms: u64) -> (r: UpdateStatus)
    ensures
        r@ == update_view(current@, latest_tag@, checked_at_ms),
{
    let current_version = match parse_version(current) {
        Some(v) => v,
        None => return unavailable_status(current, checked_at_ms),
    };
    let latest_version = match parse_version(latest_tag) {
        Some(v) => v,
        None => return unavailable_status(current, checked_at_ms),
    };
    let newer = semver_is_greater(&latest_version, &current_version);
    release_status(current, latest_tag, &latest_version, newer, checked_at_ms)
}

// ---------------------------------------------------------------------------
// The cache of the last check
// ---------------------------------------------------------------------------

/// The last finished check and when it was stored (monotonic
/// milliseconds), served again until it is `ttl_ms` old.
pub struct StatusCache {
    entry: Option<(u64, UpdateStatus)>,
    ttl_ms: u64,
}

pub struct CacheView {
    pub entry: Option<(u64, StatusView)>,
    pub ttl_ms: u64,
}

impl View for StatusCache {
    type V = CacheView;

    closed spec fn view(&self) -> CacheView {
        CacheView {
            entry: match self.entry {
                Some((t, s)) => Some((t, s@)),
                None => None,
            },
            ttl_ms: self.ttl_ms,
        }
    }
}

/// The time since `then`, zero when the clock reads earlier.
pub open spec fn elapsed(then: u64, now: u64) -> int {
    if now >= then {
        now - then
    } else {
        0
    }
}

/// What the cache serves at `now`: its status while younger than the TTL.
pub open spec fn served(c: CacheView, now: u64) -> Option<StatusView> {
    match c.entry {
        Some((t, s)) => if elapsed(t, now) < c.ttl_ms {
            Some(s)
        } else {
            None
        },
        None => None,
    }
}

impl StatusCache {
    pub fn new(ttl_ms: u64) -> (r: StatusCache)
        ensures
            r@.entry is None,
            r@.ttl_ms == ttl_ms,
    {
        StatusCache { entry: None, ttl_ms }
    }

    /// The stored status, while it is fresh at `now`.
    pub fn fresh(&self, now: u64) -> (r: Option<UpdateStatus>)
        ensures
            match r {
                Some(s) => served(self@, now) == Some(s@),
                None => served(self@, now) is None,
            },
    {
        match &self.entry {
            Some((t, status)) => {
                let age = if now >= *t {
                    now - *t
                } else {
                    0
                };
                if age < self.ttl_ms {
                    Some(status.copy())
                } else {
                    None
                }
            },
            None => None,
        }
    }

    /// Keeps `status` as the check finished at `now`.
    pub fn store(&mut self, now: u64, status: &UpdateStatus)
        ensures
            final(self)@.entry == Some((now, status@)),
            final(self)@.ttl_ms == old(self)@.ttl_ms,
    {
        self.entry = Some((now, status.copy()));
    }
}

/// A stored check is served unchanged for as long as it is younger than
/// the TTL, and not once it is as old.
pub proof fn lemma_cache_serves_until_ttl(c: CacheView, stored_at: u64, status: StatusView, now: u64)
    requires
        now >= stored_at,
    ensures
        served(CacheView { entry: Some((stored_at, status)), ttl_ms: c.ttl_ms }, now) == if now - stored_at
            < c.ttl_ms {
            Some(status)
        } else {
            None::<StatusView>
        },
{
}

// ---------------------------------------------------------------------------
// The install script
// ---------------------------------------------------------------------------

/// Where the install script of release `tag` is fetched from: the tag, not
/// `main`, so the installer matches the version it installs.
pub open spec fn install_script_url_of(tag: Seq<char>) -> Seq<char> {
    "https://raw.githubusercontent.com/scolor-dev/deckox/"@ + tag + "/packaging/scripts/install.sh"@
}

pub fn install_script_url(target_version: &str) -> (r: Result<String, InstallScriptError>)
    ensures
        valid_release_tag(target_version@) ==> (r matches Ok(u) && u@ == install_script_url_of(target_version@)),
        !valid_release_tag(target_version@) ==> r == Err::<String, InstallScriptError>(
            InstallScriptError::InvalidVersion,
        ),
{
    if !is_valid_release_tag(target_version) {
        return Err(InstallScriptError::InvalidVersion);
    }
    let mut url = owned("https://raw.githubusercontent.com/scolor-dev/deckox/");
    push_str(&mut url, target_version);
    push_str(&mut url, "/packaging/scripts/install.sh");
    Ok(url)
}

/// What a fetched install script must be: the body read within the cap,
/// valid UTF-8, starting with `#!/bin/sh`.
pub open spec fn install_script_of(body: Result<Seq<u8>, BoundedBodyError>) -> Result<Seq<char>, InstallScriptError> {
    match body {
        Err(BoundedBodyError::Request) => Err(InstallScriptError::Request),
        Err(BoundedBodyError::TooLarge) => Err(InstallScriptError::TooLarge),
        Ok(bytes) => if vstd::utf8::valid_utf8(bytes) && starts_with(vstd::utf8::decode_utf8(bytes), "#!/bin/sh"@) {
            Ok(vstd::utf8::decode_utf8(bytes))
        } else {
            Err(InstallScriptError::InvalidResponse)
        },
    }
}

pub fn install_script(body: Result<Vec<u8>, BoundedBodyError>) -> (r: Result<String, InstallScriptError>)
    ensures
        match (r, install_script_of(match body {
            Ok(b) => Ok(b@),
            Err(e) => Err(e),
        })) {
            (Ok(s), Ok(t)) => s@ == t,
            (Err(a), Err(b)) => a == b,
            _ => false,
        },
{
    let bytes = match body {
        Ok(b) => b,
        Err(BoundedBodyError::Request) => return Err(InstallScriptError::Request),
        Err(BoundedBodyError::TooLarge) => return Err(InstallScriptError::TooLarge),
    };
    let ghost b = bytes@;
    let script = match crate::encoding::utf8_text(bytes) {
        Some(s) => s,
        None => return Err(InstallScriptError::InvalidResponse),
    };
    let v = crate::text::chars_of(script.as_str());
    if crate::text::span_starts_with(&v, 0, v.len(), "#!/bin/sh") {
        assert(starts_with(script@, "#!/bin/sh"@));
        Ok(script)
    } else {
        assert(!starts_with(script@, "#!/bin/sh"@)) by {
            if starts_with(script@, "#!/bin/sh"@) {
                assert(v@.subrange(0, "#!/bin/sh"@.len() as int) == "#!/bin/sh"@);
            }
        }
        Err(InstallScriptError::InvalidResponse)
    }
}

} // verus!
