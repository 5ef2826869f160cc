//! Administrator authentication: the password check with per-address rate
//! limiting, sessions, password changes, and the same-origin rules of the
//! API. Times are readings of a monotonic clock in nanoseconds.

use vstd::prelude::*;

use crate::encoding::{clock_value, hex_text, random_hex_id, unix_millis, unix_nanos};
use crate::password::{argon2_accepts, argon2_hash, argon2_verify, phc_well_formed};
use crate::table::{Table, lookup, with_entry, flagged, without_key};
use crate::text::{chars_of, owned, push_str, span_is, split, split_char, split_once, starts_with, texts, trim, trim_span, find_char, spans_are};
use crate::agent::services::{utf8_len, utf8_len_within};

verus! {

pub const SESSION_COOKIE: &'static str = "deckox_session";

/// Twelve hours, in nanoseconds (the unit of `now_ns`).
pub const SESSION_TTL: u64 = 43_200_000_000_000;

/// Twelve hours, in seconds.
pub const SESSION_TTL_SECONDS: u64 = 43_200;

/// Five minutes, in nanoseconds (the unit of `now_ns`).
pub const FAILURE_WINDOW: u64 = 300_000_000_000;

pub const MAX_FAILURES: u32 = 5;

pub const MAX_PASSWORD_BYTES: u64 = 1024;

pub const MIN_PASSWORD_BYTES: u64 = 12;

/// Key of the single administrator account in an [`AccountFile`].
pub const ADMIN_ACCOUNT: &'static str = "admin";

/// The admin account file: accounts by username.
pub struct AccountFile {
    pub accounts: Vec<(String, Account)>,
}

pub struct Account {
    pub password_hash: String,
    pub totp: Option<TotpSecret>,
    pub updated_at_ms: u64,
}

pub struct TotpSecret {
    pub secret_base32: String,
    pub recovery_code_hashes: Vec<String>,
}

pub struct LoginRequest {
    pub password: String,
}

pub struct ChangePasswordRequest {
    pub current_password: String,
    pub new_password: String,
}

pub struct AuthStatus {
    pub authenticated: bool,
}

pub enum LoginResult {
    Authenticated(String),
    Invalid,
    RateLimited,
}

pub enum ChangePasswordResult {
    Changed,
    InvalidCurrentPassword,
    RateLimited,
    InvalidNewPassword,
    NotPersistent,
    Failed(String),
}

pub enum PasswordConfirmationResult {
    Confirmed,
    Invalid,
    RateLimited,
}

/// Recent failures from one address: how many, since when.
#[derive(Clone, Copy, PartialEq, Eq, Structural)]
pub struct FailedLogins {
    pub count: u32,
    pub started_at: u64,
}

/// A session token: the lowercase hex text of 32 bytes, 64 characters.
pub open spec fn is_session_token(t: Seq<char>) -> bool {
    &&& t.len() == 64
    &&& exists|bytes: Seq<u8>| bytes.len() == 32 && t == hex_text(bytes)
}

/// Milliseconds since the Unix epoch by the system clock: the time stamps
/// of the account file and of audit records.
pub fn now_ms() -> (r: u64) {
    clock_value(unix_millis())
}

/// Nanoseconds since the Unix epoch by the system clock: the `now` that
/// sessions and failure windows are counted in (`SESSION_TTL`,
/// `FAILURE_WINDOW`).
pub fn now_ns() -> (r: u64) {
    clock_value(unix_nanos())
}

// ---------------------------------------------------------------------------
// Rate limiting
// ---------------------------------------------------------------------------

/// `now.duration_since(then)`: zero when `then` is later.
pub open spec fn elapsed(then: u64, now: u64) -> int {
    if now >= then {
        now - then
    } else {
        0
    }
}

/// Which entries are still within the failure window.
pub open spec fn fresh_flags(entries: Seq<(Seq<char>, FailedLogins)>, now: u64) -> Seq<bool> {
    Seq::new(entries.len(), |i: int| elapsed(entries[i].1.started_at, now) < FAILURE_WINDOW)
}

/// The entries still within the failure window, in order.
pub open spec fn fresh(entries: Seq<(Seq<char>, FailedLogins)>, now: u64) -> Seq<(Seq<char>, FailedLogins)> {
    flagged(entries, fresh_flags(entries, now))
}

/// Whether `address` has failed `MAX_FAILURES` times within the window.
pub open spec fn limited(entries: Seq<(Seq<char>, FailedLogins)>, address: Seq<char>) -> bool {
    lookup(entries, address) matches Some(f) && f.count >= MAX_FAILURES
}

/// Forgets failures older than the window, then tells whether `address` is
/// rate limited.
pub fn is_rate_limited(failures: &mut Table<FailedLogins>, address: &str, now: u64) -> (r: bool)
    ensures
        final(failures).view() == fresh(old(failures).view(), now),
        r == limited(fresh(old(failures).view(), now), address@),
{
    let ghost es = failures.view();
    let mut flags: Vec<bool> = Vec::new();
    let mut i: usize = 0;
    while i < failures.len()
        invariant
            i <= failures.view().len(),
            failures.view() == es,
            flags@ == fresh_flags(es, now).take(i as int),
        decreases failures.view().len() - i,
    {
        let (_, entry) = failures.entry(i);
        let age = if now >= entry.started_at {
            now - entry.started_at
        } else {
            0
        };
        flags.push(age < FAILURE_WINDOW);
        assert(flags@ =~= fresh_flags(es, now).take(i + 1));
        i = i + 1;
    }
    assert(flags@ =~= fresh_flags(es, now));
    failures.keep_flagged(&flags);
    match failures.get(address) {
        Some(entry) => entry.count >= MAX_FAILURES,
        None => false,
    }
}

/// The record of an address after one more failure at `now`: a record older
/// than the window starts over.
pub open spec fn failure_after(prior: Option<FailedLogins>, now: u64) -> FailedLogins {
    let entry = match prior {
        Some(e) => e,
        None => FailedLogins { count: 0, started_at: now },
    };
    let current = if elapsed(entry.started_at, now) >= FAILURE_WINDOW {
        FailedLogins { count: 0, started_at: now }
    } else {
        entry
    };
    FailedLogins {
        count: if current.count == u32::MAX {
            u32::MAX
        } else {
            (current.count + 1) as u32
        },
        started_at: current.started_at,
    }
}

/// Counts one more failure from `address`.
pub fn record_failure(failures: &mut Table<FailedLogins>, address: &str, now: u64)
    ensures
        final(failures).view() == with_entry(
            old(failures).view(),
            address@,
            failure_after(lookup(old(failures).view(), address@), now),
        ),
{
    let entry = match failures.get(address) {
        Some(e) => e,
        None => FailedLogins { count: 0, started_at: now },
    };
    let age = if now >= entry.started_at {
        now - entry.started_at
    } else {
        0
    };
    let current = if age >= FAILURE_WINDOW {
        FailedLogins { count: 0, started_at: now }
    } else {
        entry
    };
    let updated = FailedLogins { count: current.count.saturating_add(1), started_at: current.started_at };
    failures.set(address, updated);
}

/// `MAX_FAILURES` failures from one address at one moment rate-limit it,
/// whatever was recorded before.
pub proof fn lemma_failures_rate_limit(entries: Seq<(Seq<char>, FailedLogins)>, address: Seq<char>, now: u64)
    ensures
        ({
            let step = |es: Seq<(Seq<char>, FailedLogins)>| with_entry(es, address, failure_after(lookup(es, address), now));
            let after = step(step(step(step(step(entries)))));
            limited(after, address)
        }),
{
    let step = |es: Seq<(Seq<char>, FailedLogins)>| with_entry(es, address, failure_after(lookup(es, address), now));
    let e1 = step(entries);
    crate::table::lemma_lookup_with_entry(entries, address, failure_after(lookup(entries, address), now), address);
    let e2 = step(e1);
    crate::table::lemma_lookup_with_entry(e1, address, failure_after(lookup(e1, address), now), address);
    let e3 = step(e2);
    crate::table::lemma_lookup_with_entry(e2, address, failure_after(lookup(e2, address), now), address);
    let e4 = step(e3);
    crate::table::lemma_lookup_with_entry(e3, address, failure_after(lookup(e3, address), now), address);
    let e5 = step(e4);
    crate::table::lemma_lookup_with_entry(e4, address, failure_after(lookup(e4, address), now), address);
    let f1 = lookup(e1, address)->0;
    assert(f1.count >= 1);
    assert(elapsed(f1.started_at, now) < FAILURE_WINDOW);
}

// ---------------------------------------------------------------------------
// Sessions and cookies
// ---------------------------------------------------------------------------

/// Which sessions have not expired at `now`.
pub open spec fn live_flags(sessions: Seq<(Seq<char>, u64)>, now: u64) -> Seq<bool> {
    Seq::new(sessions.len(), |i: int| sessions[i].1 > now)
}

/// The sessions that have not expired at `now`.
pub open spec fn live(sessions: Seq<(Seq<char>, u64)>, now: u64) -> Seq<(Seq<char>, u64)> {
    flagged(sessions, live_flags(sessions, now))
}

/// Forgets expired sessions.
fn drop_expired(sessions: &mut Table<u64>, now: u64)
    ensures
        final(sessions).view() == live(old(sessions).view(), now),
{
    let ghost es = sessions.view();
    let mut flags: Vec<bool> = Vec::new();
    let mut i: usize = 0;
    while i < sessions.len()
        invariant
            i <= sessions.view().len(),
            sessions.view() == es,
            flags@ == live_flags(es, now).take(i as int),
        decreases sessions.view().len() - i,
    {
        let (_, expires_at) = sessions.entry(i);
        flags.push(expires_at > now);
        assert(flags@ =~= live_flags(es, now).take(i + 1));
        i = i + 1;
    }
    assert(flags@ =~= live_flags(es, now));
    sessions.keep_flagged(&flags);
}

/// A `name=value` pair of a `Cookie` header naming the session.
pub open spec fn session_pair(cookie: Seq<char>) -> Option<Seq<char>> {
    match split_once(trim(cookie), '=') {
        Some((name, value)) => if name == SESSION_COOKIE@ && value.len() > 0 {
            Some(value)
        } else {
            None
        },
        None => None,
    }
}

/// The session token in a `Cookie` header: the value of the first
/// non-empty `deckox_session` cookie.
pub open spec fn token_of(header: Seq<char>) -> Option<Seq<char>> {
    crate::text::first_some(split(header, ';'), |c: Seq<char>| session_pair(c))
}

pub fn session_token(cookie_header: Option<&str>) -> (r: Option<String>)
    ensures
        match cookie_header {
            Some(h) => match token_of(h@) {
                Some(t) => r matches Some(s) && s@ == t,
                None => r is None,
            },
            None => r is None,
        },
{
    let header = match cookie_header {
        Some(h) => h,
        None => return None,
    };
    let v = chars_of(header);
    let parts = split_char(&v, 0, v.len(), ';');
    assert(v@.subrange(0, v@.len() as int) =~= header@);
    let ghost ps = split(header@, ';');
    let ghost f = |c: Seq<char>| session_pair(c);
    let mut k: usize = 0;
    proof {
        crate::text::lemma_first_some_end(ps, f);
    }
    while k < parts.len()
        invariant
            spans_are(v@, parts@, ps),
            ps == split(header@, ';'),
            cookie_header == Some(header),
            f == (|c: Seq<char>| session_pair(c)),
            k <= parts@.len(),
            crate::text::first_some(ps, f) == crate::text::first_some(ps.skip(k as int), f),
        decreases parts@.len() - k,
    {
        proof {
            crate::text::lemma_first_some_step(ps, k as int, f);
        }
        let (a, b) = parts[k];
        let (s, e) = trim_span(&v, a, b);
        let ghost t = v@.subrange(s as int, e as int);
        match find_char(&v, s, e, '=') {
            Some(i) => {
                assert(t.take(i - s) =~= v@.subrange(s as int, i as int));
                assert(t.skip(i - s + 1) =~= v@.subrange(i + 1, e as int));
                if span_is(&v, s, i, SESSION_COOKIE) && i + 1 < e {
                    assert(v@.subrange(a as int, b as int) == ps[k as int]);
                    assert(trim(ps[k as int]) == t);
                    assert(session_pair(ps[k as int]) == Some(v@.subrange(i + 1, e as int)));
                    return Some(crate::text::string_of(&v, i + 1, e));
                }
            },
            None => {},
        }
        k = k + 1;
    }
    proof {
        crate::text::lemma_first_some_end(ps, f);
    }
    None
}

/// The `Set-Cookie` value of a new session.
pub open spec fn session_cookie_text(token: Seq<char>, secure: bool) -> Seq<char> {
    SESSION_COOKIE@ + "="@ + token + "; Path=/; HttpOnly; SameSite=Strict; Max-Age=43200"@ + if secure {
        "; Secure"@
    } else {
        ""@
    }
}

/// The `Set-Cookie` value that ends a session.
pub open spec fn expired_cookie_text(secure: bool) -> Seq<char> {
    SESSION_COOKIE@ + "=; Path=/; HttpOnly; SameSite=Strict; Max-Age=0"@ + if secure {
        "; Secure"@
    } else {
        ""@
    }
}

/// The request's origin is this host, over HTTP or HTTPS.
pub open spec fn same_origin_spec(host: Option<Seq<char>>, origin: Option<Seq<char>>) -> bool {
    match (host, origin) {
        (Some(h), Some(o)) => o == "http://"@ + h || o == "https://"@ + h,
        _ => false,
    }
}

pub fn same_origin(host: Option<&str>, origin: Option<&str>) -> (r: bool)
    ensures
        r == same_origin_spec(
            match host {
                Some(h) => Some(h@),
                None => None,
            },
            match origin {
                Some(o) => Some(o@),
                None => None,
            },
        ),
{
    let (h, o) = match (host, origin) {
        (Some(h), Some(o)) => (h, o),
        _ => return false,
    };
    let mut http = owned("http://");
    push_str(&mut http, h);
    let mut https = owned("https://");
    push_str(&mut https, h);
    crate::agent::events::text_eq(o, http.as_str()) || crate::agent::events::text_eq(o, https.as_str())
}

/// Any method but GET, HEAD and OPTIONS changes state.
pub open spec fn state_changing(method: Seq<char>) -> bool {
    !(method == "GET"@ || method == "HEAD"@ || method == "OPTIONS"@)
}

pub fn is_state_changing(method: &str) -> (r: bool)
    ensures
        r == state_changing(method@),
{
    !(crate::agent::events::text_eq(method, "GET") || crate::agent::events::text_eq(method, "HEAD")
        || crate::agent::events::text_eq(method, "OPTIONS"))
}

/// An ASCII byte in lower case.
pub open spec fn lower_byte(b: u8) -> u8 {
    if 65 <= b <= 90 {
        (b + 32) as u8
    } else {
        b
    }
}

/// The bytes in ASCII lower case.
pub open spec fn lowered_bytes(value: Seq<u8>) -> Seq<u8> {
    value.map_values(|b: u8| lower_byte(b))
}

/// `websocket`, any ASCII case.
pub open spec fn is_websocket(value: Seq<u8>) -> bool {
    value.len() == 9 && lowered_bytes(value) == seq![
        119u8, 101u8, 98u8, 115u8, 111u8, 99u8, 107u8, 101u8, 116u8,
    ]
}

/// A state-changing method, or a WebSocket upgrade, must come from this
/// origin.
pub fn requires_same_origin(method: &str, upgrade: Option<&Vec<u8>>) -> (r: bool)
    ensures
        r == (state_changing(method@) || match upgrade {
            Some(v) => is_websocket(v@),
            None => false,
        }),
{
    if is_state_changing(method) {
        return true;
    }
    let value = match upgrade {
        Some(v) => v,
        None => return false,
    };
    let word: [u8; 9] = [119, 101, 98, 115, 111, 99, 107, 101, 116];
    let ghost want = seq![119u8, 101u8, 98u8, 115u8, 111u8, 99u8, 107u8, 101u8, 116u8];
    if value.len() != 9 {
        return false;
    }
    let mut i: usize = 0;
    while i < 9
        invariant
            i <= 9,
            value@.len() == 9,
            word@ == want,
            want == seq![119u8, 101u8, 98u8, 115u8, 111u8, 99u8, 107u8, 101u8, 116u8],
            upgrade == Some(value),
            !state_changing(method@),
            forall|j: int| 0 <= j < i ==> lower_byte(#[trigger] value@[j]) == want[j],
        decreases 9 - i,
    {
        let b = value[i];
        let l = if 65 <= b && b <= 90 {
            b + 32
        } else {
            b
        };
        if l != word[i] {
            assert(lower_byte(value@[i as int]) != want[i as int]);
            assert(!is_websocket(value@)) by {
                if is_websocket(value@) {
                    let m = lowered_bytes(value@);
                    assert(m[i as int] == lower_byte(value@[i as int]));
                    assert(m[i as int] == want[i as int]);
                }
            }
            return false;
        }
        i = i + 1;
    }
    assert(lowered_bytes(value@) =~= want);
    true
}

// ---------------------------------------------------------------------------
// Passwords
// ---------------------------------------------------------------------------

/// A hash of `password` with a fresh salt; refused for an empty password or
/// one over 1024 bytes.
pub fn hash_password(password: &str) -> (r: Result<String, String>)
    ensures
        !(0 < utf8_len(password@) <= MAX_PASSWORD_BYTES) ==> (r matches Err(m) && m@
            == "password must contain between 1 and 1024 bytes"@),
        0 < utf8_len(password@) <= MAX_PASSWORD_BYTES ==> match r {
            Ok(h) => phc_well_formed(h@) && argon2_accepts(h@, password@),
            Err(m) => exists|e: Seq<char>| m@ == "failed to hash password: "@ + e,
        },
{
    if utf8_len_within(password, 0) || !utf8_len_within(password, MAX_PASSWORD_BYTES) {
        return Err(owned("password must contain between 1 and 1024 bytes"));
    }
    match argon2_hash(password) {
        Ok(hash) => Ok(hash),
        Err(error) => {
            let mut message = owned("failed to hash password: ");
            push_str(&mut message, error.as_str());
            Err(message)
        },
    }
}

// ---------------------------------------------------------------------------
// The authentication state
// ---------------------------------------------------------------------------

/// A password within the accepted size: 1 to 1024 bytes.
pub open spec fn plausible_password(password: Seq<char>) -> bool {
    0 < utf8_len(password) <= MAX_PASSWORD_BYTES
}

/// The administrator account, sessions and failure counts of one Server.
pub struct AuthManager {
    password_hash: String,
    totp: Option<TotpSecret>,
    updated_at_ms: u64,
    account_path: Option<String>,
    secure_cookie: bool,
    sessions: Table<u64>,
    failures: Table<FailedLogins>,
    password_change_failures: Table<FailedLogins>,
}

/// The state as plain values.
pub struct AuthView {
    pub password_hash: Seq<char>,
    pub updated_at_ms: u64,
    pub persistent: bool,
    pub secure_cookie: bool,
    pub sessions: Seq<(Seq<char>, u64)>,
    pub failures: Seq<(Seq<char>, FailedLogins)>,
    pub password_change_failures: Seq<(Seq<char>, FailedLogins)>,
}

impl View for AuthManager {
    type V = AuthView;

    closed spec fn view(&self) -> AuthView {
        AuthView {
            password_hash: self.password_hash@,
            updated_at_ms: self.updated_at_ms,
            persistent: self.account_path is Some,
            secure_cookie: self.secure_cookie,
            sessions: self.sessions.view(),
            failures: self.failures.view(),
            password_change_failures: self.password_change_failures.view(),
        }
    }
}

/// The outcome of a login as plain values.
pub enum LoginOutcome {
    Authenticated(Seq<char>),
    Invalid,
    RateLimited,
}

pub open spec fn login_outcome(r: LoginResult) -> LoginOutcome {
    match r {
        LoginResult::Authenticated(t) => LoginOutcome::Authenticated(t@),
        LoginResult::Invalid => LoginOutcome::Invalid,
        LoginResult::RateLimited => LoginOutcome::RateLimited,
    }
}

/// What a login attempt does, apart from the new session's token: an
/// implausible or wrong password counts as a failure; a rate-limited
/// address is refused before the password is checked; a right one clears
/// the address's failures.
pub open spec fn login_spec(s: AuthView, address: Seq<char>, password: Seq<char>, now: u64) -> (AuthView, LoginOutcome) {
    if !plausible_password(password) {
        (
            AuthView {
                failures: with_entry(s.failures, address, failure_after(lookup(s.failures, address), now)),
                ..s
            },
            LoginOutcome::Invalid,
        )
    } else {
        let pruned = fresh(s.failures, now);
        if limited(pruned, address) {
            (AuthView { failures: pruned, ..s }, LoginOutcome::RateLimited)
        } else if !argon2_accepts(s.password_hash, password) {
            (
                AuthView {
                    failures: with_entry(pruned, address, failure_after(lookup(pruned, address), now)),
                    ..s
                },
                LoginOutcome::Invalid,
            )
        } else {
            (
                AuthView {
                    failures: without_key(pruned, address),
                    password_change_failures: without_key(s.password_change_failures, address),
                    ..s
                },
                LoginOutcome::Authenticated(seq![]),
            )
        }
    }
}

impl AuthManager {
    pub fn new(account: Account, account_path: Option<String>, secure_cookie: bool) -> (r: AuthManager)
        ensures
            r@.password_hash == account.password_hash@,
            r@.updated_at_ms == account.updated_at_ms,
            r@.persistent == account_path is Some,
            r@.secure_cookie == secure_cookie,
            r@.sessions.len() == 0,
            r@.failures.len() == 0,
            r@.password_change_failures.len() == 0,
            r.account_path() == match account_path {
                Some(p) => Some(p@),
                None => None::<Seq<char>>,
            },
            r.totp() == totp_view(account.totp),
    {
        AuthManager {
            password_hash: account.password_hash,
            totp: account.totp,
            updated_at_ms: account.updated_at_ms,
            account_path,
            secure_cookie,
            sessions: Table::new(),
            failures: Table::new(),
            password_change_failures: Table::new(),
        }
    }

    /// A login attempt from `address` at `now` (nanoseconds, as `now_ns`
    /// reads them). On success a new session lives for twelve hours; its
    /// token is the lowercase hex text of 32 random bytes.
    pub fn login(&mut self, address: &str, password: &str, now: u64) -> (r: LoginResult)
        requires
            now <= u64::MAX - SESSION_TTL,
        ensures
            final(self).account_path() == old(self).account_path(),
            final(self).totp() == old(self).totp(),
            ({
                let (s, outcome) = login_spec(old(self)@, address@, password@, now);
                match outcome {
                    LoginOutcome::Authenticated(_) => r matches LoginResult::Authenticated(token)
                        && is_session_token(token@) && final(self)@ == (AuthView {
                        sessions: with_entry(old(self)@.sessions, token@, (now + SESSION_TTL) as u64),
                        ..s
                    }),
                    _ => login_outcome(r) == outcome && final(self)@ == s,
                }
            }),
    {
        if utf8_len_within(password, 0) || !utf8_len_within(password, MAX_PASSWORD_BYTES) {
            record_failure(&mut self.failures, address, now);
            return LoginResult::Invalid;
        }
        if is_rate_limited(&mut self.failures, address, now) {
            return LoginResult::RateLimited;
        }
        if !argon2_verify(self.password_hash.as_str(), password) {
            record_failure(&mut self.failures, address, now);
            return LoginResult::Invalid;
        }
        self.failures.remove(address);
        self.password_change_failures.remove(address);
        let token = random_hex_id("", 32);
        proof {
            let bytes = choose|bytes: Seq<u8>| bytes.len() == 32 && token@ == ""@ + hex_text(bytes);
            crate::encoding::lemma_hex_text_len(bytes);
            reveal_strlit("");
            assert(""@ + hex_text(bytes) =~= hex_text(bytes));
        }
        self.sessions.set(token.as_str(), now + SESSION_TTL);
        LoginResult::Authenticated(token)
    }

    /// Confirms the current password before a sensitive change, with its
    /// own failure count.
    pub fn confirm_current_password(&mut self, address: &str, password: &str, now: u64) -> (r: PasswordConfirmationResult)
        ensures
            final(self).account_path() == old(self).account_path(),
            final(self).totp() == old(self).totp(),
            !plausible_password(password@) ==> r is Invalid && final(self)@ == (AuthView {
                password_change_failures: with_entry(
                    old(self)@.password_change_failures,
                    address@,
                    failure_after(lookup(old(self)@.password_change_failures, address@), now),
                ),
                ..old(self)@
            }),
            plausible_password(password@) ==> {
                let pruned = fresh(old(self)@.password_change_failures, now);
                if limited(pruned, address@) {
                    r is RateLimited && final(self)@ == (AuthView { password_change_failures: pruned, ..old(self)@ })
                } else if !argon2_accepts(old(self)@.password_hash, password@) {
                    r is Invalid && final(self)@ == (AuthView {
                        password_change_failures: with_entry(pruned, address@, failure_after(lookup(pruned, address@), now)),
                        ..old(self)@
                    })
                } else {
                    r is Confirmed && final(self)@ == (AuthView {
                        password_change_failures: without_key(pruned, address@),
                        ..old(self)@
                    })
                }
            },
    {
        if utf8_len_within(password, 0) || !utf8_len_within(password, MAX_PASSWORD_BYTES) {
            record_failure(&mut self.password_change_failures, address, now);
            return PasswordConfirmationResult::Invalid;
        }
        if is_rate_limited(&mut self.password_change_failures, address, now) {
            return PasswordConfirmationResult::RateLimited;
        }
        if !argon2_verify(self.password_hash.as_str(), password) {
            record_failure(&mut self.password_change_failures, address, now);
            return PasswordConfirmationResult::Invalid;
        }
        self.password_change_failures.remove(address);
        PasswordConfirmationResult::Confirmed
    }

    /// Whether the request's session token names a live session; expired
    /// sessions are forgotten on the way.
    pub fn is_authenticated(&mut self, token: Option<&str>, now: u64) -> (r: bool)
        ensures
            final(self).account_path() == old(self).account_path(),
            final(self).totp() == old(self).totp(),
            match token {
                None => !r && final(self)@ == old(self)@,
                Some(t) => final(self)@ == (AuthView { sessions: live(old(self)@.sessions, now), ..old(self)@ })
                    && r == (lookup(live(old(self)@.sessions, now), t@) matches Some(expires) && expires > now),
            },
    {
        let t = match token {
            Some(t) => t,
            None => return false,
        };
        drop_expired(&mut self.sessions, now);
        match self.sessions.get(t) {
            Some(expires_at) => expires_at > now,
            None => false,
        }
    }

    /// Ends the request's session.
    pub fn logout(&mut self, token: Option<&str>)
        ensures
            final(self).account_path() == old(self).account_path(),
            final(self).totp() == old(self).totp(),
            match token {
                None => final(self)@ == old(self)@,
                Some(t) => final(self)@ == (AuthView { sessions: without_key(old(self)@.sessions, t@), ..old(self)@ }),
            },
    {
        match token {
            Some(t) => self.sessions.remove(t),
            None => {},
        }
    }

    pub fn session_cookie(&self, token: &str) -> (r: String)
        ensures
            r@ == session_cookie_text(token@, self@.secure_cookie),
    {
        let mut cookie = owned(SESSION_COOKIE);
        push_str(&mut cookie, "=");
        push_str(&mut cookie, token);
        push_str(&mut cookie, "; Path=/; HttpOnly; SameSite=Strict; Max-Age=43200");
        if self.secure_cookie {
            push_str(&mut cookie, "; Secure");
        } else {
            push_str(&mut cookie, "");
        }
        cookie
    }

    pub fn expired_cookie(&self) -> (r: String)
        ensures
            r@ == expired_cookie_text(self@.secure_cookie),
    {
        let mut cookie = owned(SESSION_COOKIE);
        push_str(&mut cookie, "=; Path=/; HttpOnly; SameSite=Strict; Max-Age=0");
        if self.secure_cookie {
            push_str(&mut cookie, "; Secure");
        } else {
            push_str(&mut cookie, "");
        }
        cookie
    }

    /// The checks and hashing before a password change: the account must be
    /// stored in a file, the new password 12 to 1024 bytes, the address not
    /// rate limited, and the current password right. `Ok` carries the new
    /// hash, to be stored with `password_changed`.
    pub fn prepare_password_change(&mut self, address: &str, current_password: &str, new_password: &str, now: u64) -> (r: Result<String, ChangePasswordResult>)
        ensures
            final(self).account_path() == old(self).account_path(),
            final(self).totp() == old(self).totp(),
            !old(self)@.persistent ==> (r matches Err(ChangePasswordResult::NotPersistent)) && final(self)@ == old(self)@,
            old(self)@.persistent && !(MIN_PASSWORD_BYTES <= utf8_len(new_password@) <= MAX_PASSWORD_BYTES)
                ==> (r matches Err(ChangePasswordResult::InvalidNewPassword)) && final(self)@ == old(self)@,
            old(self)@.persistent && MIN_PASSWORD_BYTES <= utf8_len(new_password@) <= MAX_PASSWORD_BYTES ==> {
                let pruned = fresh(old(self)@.password_change_failures, now);
                if limited(pruned, address@) {
                    r matches Err(ChangePasswordResult::RateLimited) && final(self)@ == (AuthView {
                        password_change_failures: pruned,
                        ..old(self)@
                    })
                } else if !argon2_accepts(old(self)@.password_hash, current_password@) {
                    r matches Err(ChangePasswordResult::InvalidCurrentPassword) && final(self)@ == (AuthView {
                        password_change_failures: with_entry(pruned, address@, failure_after(lookup(pruned, address@), now)),
                        ..old(self)@
                    })
                } else {
                    final(self)@ == (AuthView { password_change_failures: without_key(pruned, address@), ..old(self)@ })
                        && match r {
                        Ok(h) => phc_well_formed(h@) && argon2_accepts(h@, new_password@),
                        Err(ChangePasswordResult::Failed(m)) => exists|e: Seq<char>| m@ == "failed to hash password: "@ + e,
                        Err(_) => false,
                    }
                }
            },
    {
        if self.account_path.is_none() {
            return Err(ChangePasswordResult::NotPersistent);
        }
        if utf8_len_within(new_password, MIN_PASSWORD_BYTES - 1) || !utf8_len_within(new_password, MAX_PASSWORD_BYTES) {
            return Err(ChangePasswordResult::InvalidNewPassword);
        }
        if is_rate_limited(&mut self.password_change_failures, address, now) {
            return Err(ChangePasswordResult::RateLimited);
        }
        if !argon2_verify(self.password_hash.as_str(), current_password) {
            record_failure(&mut self.password_change_failures, address, now);
            return Err(ChangePasswordResult::InvalidCurrentPassword);
        }
        self.password_change_failures.remove(address);
        match hash_password(new_password) {
            Ok(hash) => Ok(hash),
            Err(error) => Err(ChangePasswordResult::Failed(error)),
        }
    }

    /// Takes the new hash into the account (stamped `updated_at_ms`) and
    /// returns the account file's path and the account to write there.
    pub fn set_password_hash(&mut self, hash: String, updated_at_ms: u64) -> (r: Option<(String, Account)>)
        ensures
            final(self)@ == (AuthView { password_hash: hash@, updated_at_ms, ..old(self)@ }),
            final(self).account_path() == old(self).account_path(),
            final(self).totp() == old(self).totp(),
            match old(self).account_path() {
                Some(path) => r matches Some(p) && p.0@ == path && p.1.password_hash@ == hash@ && p.1.updated_at_ms
                    == updated_at_ms && totp_view(p.1.totp) == old(self).totp(),
                None => r is None,
            },
    {
        self.password_hash = hash;
        self.updated_at_ms = updated_at_ms;
        match &self.account_path {
            Some(path) => Some((
                owned(path.as_str()),
                Account {
                    password_hash: owned(self.password_hash.as_str()),
                    totp: copy_totp(&self.totp),
                    updated_at_ms,
                },
            )),
            None => None,
        }
    }

    /// The account file's path; `None` when the hash comes from the
    /// environment.
    pub closed spec fn account_path(&self) -> Option<Seq<char>> {
        match self.account_path {
            Some(p) => Some(p@),
            None => None,
        }
    }

    /// The view's `persistent` is whether there is an account file.
    pub proof fn lemma_persistent(&self)
        ensures
            self@.persistent == self.account_path() is Some,
    {
    }

    /// The second-factor secret kept with the account.
    pub closed spec fn totp(&self) -> Option<(Seq<char>, Seq<Seq<char>>)> {
        totp_view(self.totp)
    }

    /// After the account was written: on success every session ends and all
    /// login failures are forgotten.
    pub fn password_change_saved(&mut self, written: Result<(), String>) -> (r: ChangePasswordResult)
        ensures
            final(self).account_path() == old(self).account_path(),
            final(self).totp() == old(self).totp(),
            match written {
                Ok(()) => r is Changed && final(self)@ == (AuthView { sessions: seq![], failures: seq![], ..old(self)@ }),
                Err(e) => r matches ChangePasswordResult::Failed(m) && m@ == e@ && final(self)@ == old(self)@,
            },
    {
        match written {
            Ok(()) => {
                self.sessions.clear();
                self.failures.clear();
                ChangePasswordResult::Changed
            },
            Err(error) => ChangePasswordResult::Failed(error),
        }
    }
}

/// A second-factor secret as plain values: the secret and the hashes of
/// the recovery codes left.
pub open spec fn totp_view(t: Option<TotpSecret>) -> Option<(Seq<char>, Seq<Seq<char>>)> {
    match t {
        Some(s) => Some((s.secret_base32@, texts(s.recovery_code_hashes@))),
        None => None,
    }
}

fn copy_totp(t: &Option<TotpSecret>) -> (r: Option<TotpSecret>)
    ensures
        totp_view(r) == totp_view(*t),
{
    match t {
        Some(t) => {
            let mut codes: Vec<String> = Vec::new();
            let mut i: usize = 0;
            while i < t.recovery_code_hashes.len()
                invariant
                    i <= t.recovery_code_hashes@.len(),
                    texts(codes@) == texts(t.recovery_code_hashes@).take(i as int),
                decreases t.recovery_code_hashes@.len() - i,
            {
                let ghost before = codes@;
                let code = owned(t.recovery_code_hashes[i].as_str());
                codes.push(code);
                proof {
                    crate::text::lemma_texts_push(before, code);
                }
                assert(texts(codes@) =~= texts(t.recovery_code_hashes@).take(i + 1));
                i = i + 1;
            }
            assert(texts(t.recovery_code_hashes@).take(i as int) =~= texts(t.recovery_code_hashes@));
            Some(TotpSecret { secret_base32: owned(t.secret_base32.as_str()), recovery_code_hashes: codes })
        },
        None => None,
    }
}

// ---------------------------------------------------------------------------
// Replies
// ---------------------------------------------------------------------------

/// What a handler answers: the HTTP status, the body (the session state or
/// an error code and message), the cookie to set, and the audit record.
pub struct Reply {
    pub status: u16,
    /// `None` for an `AuthStatus` body.
    pub error: Option<(&'static str, &'static str)>,
    pub authenticated: bool,
    pub cookie: CookieChange,
    /// The audit `result` and detail; `None` when the attempt is not audited.
    pub audit: Option<(&'static str, Option<String>)>,
}

pub enum CookieChange {
    Keep,
    Start(String),
    End,
}

/// The answer to a login attempt (from an allowed origin).
pub fn login_reply(result: LoginResult) -> (r: Reply)
    ensures
        match result {
            LoginResult::Authenticated(token) => r.status == 200 && r.error is None && r.authenticated
                && (r.cookie matches CookieChange::Start(t) && t@ == token@) && (r.audit matches Some(a)
                && a.0@ == "success"@ && a.1 is None),
            LoginResult::Invalid => r.status == 401 && r.error == Some(("invalid_credentials", "password is incorrect"))
                && !r.authenticated && r.cookie is Keep && (r.audit matches Some(a) && a.0@ == "failure"@ && a.1 is None),
            LoginResult::RateLimited => r.status == 429 && r.error == Some(
                ("rate_limited", "too many login attempts; try again later"),
            ) && !r.authenticated && r.cookie is Keep && (r.audit matches Some(a) && a.0@ == "rate_limited"@ && a.1 is None),
        },
{
    match result {
        LoginResult::Authenticated(token) => Reply {
            status: 200,
            error: None,
            authenticated: true,
            cookie: CookieChange::Start(token),
            audit: Some(("success", None)),
        },
        LoginResult::Invalid => Reply {
            status: 401,
            error: Some(("invalid_credentials", "password is incorrect")),
            authenticated: false,
            cookie: CookieChange::Keep,
            audit: Some(("failure", None)),
        },
        LoginResult::RateLimited => Reply {
            status: 429,
            error: Some(("rate_limited", "too many login attempts; try again later")),
            authenticated: false,
            cookie: CookieChange::Keep,
            audit: Some(("rate_limited", None)),
        },
    }
}

/// The answer to a login attempt from another origin.
pub fn cross_origin_reply() -> (r: Reply)
    ensures
        r.status == 403 && r.error == Some(("forbidden", "request origin is not allowed")) && r.cookie is Keep
            && r.audit is None && !r.authenticated,
{
    Reply {
        status: 403,
        error: Some(("forbidden", "request origin is not allowed")),
        authenticated: false,
        cookie: CookieChange::Keep,
        audit: None,
    }
}

/// The answer to a password change.
/// The answer to a password change's outcome: its status, error code and
/// message, cookie, and audit record.
pub open spec fn change_reply_of(r: Reply, result: ChangePasswordResult) -> bool {
    match result {
        ChangePasswordResult::Changed => r.status == 200 && r.error is None && !r.authenticated && r.cookie is End
            && (r.audit matches Some(a) && a.0@ == "success"@ && a.1 is None),
        ChangePasswordResult::InvalidCurrentPassword => r.status == 401 && r.error == Some(
            ("invalid_current_password", "current password is incorrect"),
        ) && !r.authenticated && r.cookie is Keep && (r.audit matches Some(a) && a.0@ == "failure"@ && (a.1 matches Some(d)
            && d@ == "invalid_current_password"@)),
        ChangePasswordResult::RateLimited => r.status == 429 && r.error == Some(
            ("rate_limited", "too many password confirmation attempts; try again later"),
        ) && !r.authenticated && r.cookie is Keep && (r.audit matches Some(a) && a.0@ == "rate_limited"@ && a.1 is None),
        ChangePasswordResult::InvalidNewPassword => r.status == 400 && r.error == Some(
            ("invalid_new_password", "new password must contain between 12 and 1024 bytes"),
        ) && !r.authenticated && r.cookie is Keep && r.audit is None,
        ChangePasswordResult::NotPersistent => r.status == 409 && r.error == Some(
            (
                "password_change_unavailable",
                "password cannot be changed while DECKOX_ADMIN_PASSWORD_HASH is configured",
            ),
        ) && !r.authenticated && r.cookie is Keep && r.audit is None,
        ChangePasswordResult::Failed(e) => r.status == 500 && r.error == Some(
            ("password_change_failed", "failed to save the new password"),
        ) && !r.authenticated && r.cookie is Keep && (r.audit matches Some(a) && a.0@ == "failure"@ && (a.1 matches Some(d)
            && d@ == e@)),
    }
}

pub fn change_password_reply(result: ChangePasswordResult) -> (r: Reply)
    ensures
        change_reply_of(r, result),
{
    match result {
        ChangePasswordResult::Changed => Reply {
            status: 200,
            error: None,
            authenticated: false,
            cookie: CookieChange::End,
            audit: Some(("success", None)),
        },
        ChangePasswordResult::InvalidCurrentPassword => Reply {
            status: 401,
            error: Some(("invalid_current_password", "current password is incorrect")),
            authenticated: false,
            cookie: CookieChange::Keep,
            audit: Some(("failure", Some(owned("invalid_current_password")))),
        },
        ChangePasswordResult::RateLimited => Reply {
            status: 429,
            error: Some(("rate_limited", "too many password confirmation attempts; try again later")),
            authenticated: false,
            cookie: CookieChange::Keep,
            audit: Some(("rate_limited", None)),
        },
        ChangePasswordResult::InvalidNewPassword => Reply {
            status: 400,
            error: Some(("invalid_new_password", "new password must contain between 12 and 1024 bytes")),
            authenticated: false,
            cookie: CookieChange::Keep,
            audit: None,
        },
        ChangePasswordResult::NotPersistent => Reply {
            status: 409,
            error: Some((
                "password_change_unavailable",
                "password cannot be changed while DECKOX_ADMIN_PASSWORD_HASH is configured",
            )),
            authenticated: false,
            cookie: CookieChange::Keep,
            audit: None,
        },
        ChangePasswordResult::Failed(error) => Reply {
            status: 500,
            error: Some(("password_change_failed", "failed to save the new password")),
            authenticated: false,
            cookie: CookieChange::Keep,
            audit: Some(("failure", Some(error))),
        },
    }
}

/// The answer to a request without a live session.
pub fn unauthenticated_reply() -> (r: Reply)
    ensures
        r.status == 401 && r.error == Some(("authentication_required", "authentication is required"))
            && r.cookie is Keep && r.audit is None,
{
    Reply {
        status: 401,
        error: Some(("authentication_required", "authentication is required")),
        authenticated: false,
        cookie: CookieChange::Keep,
        audit: None,
    }
}

/// Whether a request may go on: it needs a live session, and a
/// state-changing or upgrade request must come from this origin.
pub open spec fn admitted(authenticated: bool, needs_same_origin: bool, same_origin: bool) -> Option<u16> {
    if !authenticated {
        Some(401)
    } else if needs_same_origin && !same_origin {
        Some(403)
    } else {
        None
    }
}

pub fn admission(authenticated: bool, needs_same_origin: bool, same_origin: bool) -> (r: Option<Reply>)
    ensures
        match admitted(authenticated, needs_same_origin, same_origin) {
            None => r is None,
            Some(401) => r matches Some(reply) && reply.status == 401 && reply.error == Some(
                ("authentication_required", "authentication is required"),
            ),
            Some(_) => r matches Some(reply) && reply.status == 403 && reply.error == Some(
                ("forbidden", "request origin is not allowed"),
            ),
        },
{
    if !authenticated {
        return Some(unauthenticated_reply());
    }
    if needs_same_origin && !same_origin {
        return Some(cross_origin_reply());
    }
    None
}

// ---------------------------------------------------------------------------
// Loading the account
// ---------------------------------------------------------------------------

/// The account a password hash on its own describes: the hash (trimmed),
/// no two-factor, never updated; or why the hash does not parse.
pub open spec fn hash_account(hash: Seq<char>) -> Result<Seq<char>, Seq<char>> {
    match crate::password::phc_parse_error(crate::text::trim(hash)) {
        None => Ok(crate::text::trim(hash)),
        Some(e) => Err("invalid admin password hash: "@ + e),
    }
}

/// The account of `DECKOX_ADMIN_PASSWORD_HASH`, or of an account file that
/// holds a bare hash.
pub fn account_from_hash(hash: &str) -> (r: Result<Account, String>)
    ensures
        match hash_account(hash@) {
            Ok(h) => r matches Ok(a) && a.password_hash@ == h && a.totp is None && a.updated_at_ms == 0,
            Err(m) => r matches Err(x) && x@ == m,
        },
{
    let v = crate::text::chars_of(hash);
    let (s, e) = crate::text::trim_span(&v, 0, v.len());
    assert(v@.subrange(0, v@.len() as int) =~= hash@);
    let trimmed = crate::text::string_of(&v, s, e);
    match crate::password::check_phc(trimmed.as_str()) {
        Ok(()) => Ok(Account { password_hash: trimmed, totp: None, updated_at_ms: 0 }),
        Err(error) => {
            let mut m = owned("invalid admin password hash: ");
            push_str(&mut m, error.as_str());
            Err(m)
        },
    }
}

/// The account file from its text: the JSON form when it parsed
/// (`parsed`, read by the caller from the trimmed text), else a bare hash,
/// which becomes the admin account.
pub fn account_file_from(content: &str, parsed: Option<AccountFile>) -> (r: Result<AccountFile, String>)
    ensures
        parsed is Some ==> r is Ok,
        parsed is None ==> match hash_account(content@) {
            Ok(h) => r matches Ok(f) && f.accounts@.len() == 1 && f.accounts@[0].0@ == ADMIN_ACCOUNT@
                && f.accounts@[0].1.password_hash@ == h && f.accounts@[0].1.totp is None
                && f.accounts@[0].1.updated_at_ms == 0,
            Err(m) => r matches Err(x) && x@ == m,
        },
{
    match parsed {
        Some(f) => Ok(f),
        None => {
            let account = account_from_hash(content)?;
            Ok(AccountFile { accounts: vec![(owned(ADMIN_ACCOUNT), account)] })
        },
    }
}

/// Whether the file has an account named `name`.
pub open spec fn has_account(accounts: Seq<(String, Account)>, name: Seq<char>) -> bool {
    exists|i: int| 0 <= i < accounts.len() && accounts[i].0@ == name
}

/// The admin account of the file at `path`, or the error naming the file.
pub fn admin_account(file: AccountFile, path: &str) -> (r: Result<Account, String>)
    ensures
        has_account(file.accounts@, ADMIN_ACCOUNT@) ==> (r matches Ok(a) && exists|i: int|
            0 <= i < file.accounts@.len() && file.accounts@[i].0@ == ADMIN_ACCOUNT@ && file.accounts@[i].1 == a),
        !has_account(file.accounts@, ADMIN_ACCOUNT@) ==> (r matches Err(m) && m@ == path@
            + " does not contain an admin account"@),
{
    let ghost all = file.accounts@;
    let mut accounts = file.accounts;
    while accounts.len() > 0
        invariant
            all == file.accounts@,
            all.len() >= accounts@.len(),
            accounts@ == all.take(accounts@.len() as int),
            forall|j: int| accounts@.len() <= j < all.len() ==> all[j].0@ != ADMIN_ACCOUNT@,
        decreases accounts@.len(),
    {
        let ghost n = accounts@.len();
        let (name, account) = accounts.pop().unwrap();
        assert(all[n - 1] == (name, account));
        if crate::agent::events::text_eq(name.as_str(), ADMIN_ACCOUNT) {
            assert(0 <= n - 1 < all.len() && all[n - 1].0@ == ADMIN_ACCOUNT@ && all[n - 1].1 == account);
            assert(has_account(all, ADMIN_ACCOUNT@));
            return Ok(account);
        }
    }
    let mut m = owned(path);
    push_str(&mut m, " does not contain an admin account");
    Err(m)
}

/// `DECKOX_SECURE_COOKIE` turns on the `Secure` cookie flag only when it is
/// exactly `true`.
pub fn secure_cookie_setting(value: Option<&str>) -> (r: bool)
    ensures
        r == (value matches Some(v) && v@ == "true"@),
{
    match value {
        Some(v) => crate::agent::events::text_eq(v, "true"),
        None => false,
    }
}

/// `POST /api/v1/auth/login`: a request from another origin is refused
/// before the password is looked at; otherwise the login attempt and its
/// answer.
pub fn handle_login(
    auth: &mut AuthManager,
    host: Option<&str>,
    origin: Option<&str>,
    address: &str,
    password: &str,
    now: u64,
) -> (r: Reply)
    requires
        now <= u64::MAX - SESSION_TTL,
    ensures
        final(auth).account_path() == old(auth).account_path(),
        final(auth).totp() == old(auth).totp(),
        !same_origin_spec(opt_text(host), opt_text(origin)) ==> final(auth)@ == old(auth)@ && r.status == 403
            && r.error == Some(("forbidden", "request origin is not allowed")) && !r.authenticated && r.cookie is Keep
            && r.audit is None,
        same_origin_spec(opt_text(host), opt_text(origin)) ==> ({
            let (s, outcome) = login_spec(old(auth)@, address@, password@, now);
            match outcome {
                LoginOutcome::Authenticated(_) => r.status == 200 && r.error is None && r.authenticated && (r.cookie matches CookieChange::Start(
                    t,
                ) && is_session_token(t@) && final(auth)@ == (AuthView {
                    sessions: with_entry(old(auth)@.sessions, t@, (now + SESSION_TTL) as u64),
                    ..s
                })) && (r.audit matches Some(a) && a.0@ == "success"@ && a.1 is None),
                LoginOutcome::Invalid => r.status == 401 && r.error == Some(("invalid_credentials", "password is incorrect"))
                    && !r.authenticated && r.cookie is Keep && (r.audit matches Some(a) && a.0@ == "failure"@ && a.1 is None)
                    && final(auth)@ == s,
                LoginOutcome::RateLimited => r.status == 429 && r.error == Some(
                    ("rate_limited", "too many login attempts; try again later"),
                ) && !r.authenticated && r.cookie is Keep && (r.audit matches Some(a) && a.0@ == "rate_limited"@ && a.1 is None)
                    && final(auth)@ == s,
            }
        }),
{
    if !same_origin(host, origin) {
        return cross_origin_reply();
    }
    login_reply(auth.login(address, password, now))
}

pub open spec fn opt_text(o: Option<&str>) -> Option<Seq<char>> {
    match o {
        Some(t) => Some(t@),
        None => None,
    }
}

/// The first half of `PUT /api/v1/auth/password`: the checks, the new hash
/// taken into the account stamped `updated_at_ms`, and the account file's
/// path with the account to write there; or the answer when the change
/// stops short. `finish_password_change` takes how writing went.
pub fn begin_password_change(
    auth: &mut AuthManager,
    address: &str,
    current_password: &str,
    new_password: &str,
    now: u64,
    updated_at_ms: u64,
) -> (r: Result<(String, Account), Reply>)
    ensures
        final(auth).account_path() == old(auth).account_path(),
        final(auth).totp() == old(auth).totp(),
        old(auth).account_path() is None ==> final(auth)@ == old(auth)@ && (r matches Err(x) && change_reply_of(
            x,
            ChangePasswordResult::NotPersistent,
        )),
        old(auth).account_path() is Some && !(MIN_PASSWORD_BYTES <= utf8_len(new_password@) <= MAX_PASSWORD_BYTES)
            ==> final(auth)@ == old(auth)@ && (r matches Err(x) && change_reply_of(x, ChangePasswordResult::InvalidNewPassword)),
        old(auth).account_path() is Some && MIN_PASSWORD_BYTES <= utf8_len(new_password@) <= MAX_PASSWORD_BYTES ==> {
            let pruned = fresh(old(auth)@.password_change_failures, now);
            if limited(pruned, address@) {
                (r matches Err(x) && change_reply_of(x, ChangePasswordResult::RateLimited)) && final(auth)@ == (AuthView {
                    password_change_failures: pruned,
                    ..old(auth)@
                })
            } else if !argon2_accepts(old(auth)@.password_hash, current_password@) {
                (r matches Err(x) && change_reply_of(x, ChangePasswordResult::InvalidCurrentPassword)) && final(auth)@ == (AuthView {
                    password_change_failures: with_entry(pruned, address@, failure_after(lookup(pruned, address@), now)),
                    ..old(auth)@
                })
            } else {
                match r {
                    Ok(p) => p.0@ == old(auth).account_path()->Some_0 && phc_well_formed(p.1.password_hash@)
                        && argon2_accepts(p.1.password_hash@, new_password@) && p.1.updated_at_ms == updated_at_ms
                        && totp_view(p.1.totp) == old(auth).totp() && final(auth)@ == (AuthView {
                        password_hash: p.1.password_hash@,
                        updated_at_ms,
                        password_change_failures: without_key(pruned, address@),
                        ..old(auth)@
                    }),
                    Err(x) => (exists|m: String| #[trigger] change_reply_of(x, ChangePasswordResult::Failed(m))
                        && exists|e: Seq<char>| m@ == "failed to hash password: "@ + e) && final(auth)@ == (AuthView {
                        password_change_failures: without_key(pruned, address@),
                        ..old(auth)@
                    }),
                }
            }
        },
{
    proof {
        auth.lemma_persistent();
    }
    match auth.prepare_password_change(address, current_password, new_password, now) {
        Err(result) => {
            let ghost res = result;
            let x = change_password_reply(result);
            proof {
                if res is Failed {
                    assert(change_reply_of(x, ChangePasswordResult::Failed(res->Failed_0)));
                }
            }
            Err(x)
        },
        Ok(hash) => {
            let ghost h = hash@;
            match auth.set_password_hash(hash, updated_at_ms) {
                Some(p) => {
                    assert(p.1.password_hash@ == h);
                    Ok(p)
                },
                None => Err(change_password_reply(ChangePasswordResult::NotPersistent)),
            }
        },
    }
}

/// The second half of a password change: on a written account every
/// session ends (the answer ends the cookie too) and login failures are
/// forgotten; a failed write is answered with `500`.
pub fn finish_password_change(auth: &mut AuthManager, written: Result<(), String>) -> (r: Reply)
    ensures
        final(auth).account_path() == old(auth).account_path(),
        final(auth).totp() == old(auth).totp(),
        written is Ok ==> change_reply_of(r, ChangePasswordResult::Changed) && final(auth)@ == (AuthView {
            sessions: seq![],
            failures: seq![],
            ..old(auth)@
        }),
        written matches Err(e) ==> change_reply_of(r, ChangePasswordResult::Failed(e)) && final(auth)@ == old(auth)@,
{
    change_password_reply(auth.password_change_saved(written))
}

} // verus!
