//! The Agent's own copy of the admin password check. Dangerous operations
//! carry the admin password to the Agent, which checks it against a hash the
//! Server cannot write. Five failures within ten minutes lock the check for
//! five minutes, so a Server that was taken over cannot guess passwords
//! through the Agent.
//!
//! Times are readings of a monotonic clock in nanoseconds.

use vstd::prelude::*;

use crate::agent::error::{AgentError, ErrorKind};
use crate::agent::services::{utf8_len, utf8_len_within};
use crate::password::{argon2_accepts, argon2_hash, argon2_verify, is_phc_hash, phc_well_formed};
use crate::text::{chars_of, decimal, push_decimal, push_str, string_of, trim, trim_span};

verus! {

pub const MAX_FAILURES: usize = 5;

/// Ten minutes.
pub const FAILURE_WINDOW: u64 = 600_000_000_000;

/// Five minutes.
pub const LOCK_DURATION: u64 = 300_000_000_000;

pub const MIN_PASSWORD_BYTES: usize = 12;

pub const MAX_PASSWORD_BYTES: usize = 1024;

/// Where the hash in use came from.
#[derive(Debug, Clone, Copy, PartialEq, Eq, Structural)]
pub enum HashSource {
    /// The verifier file.
    File,
    /// The `DECKOX_ADMIN_PASSWORD_HASH` environment variable.
    Environment,
    /// Copied from the Server's account file; still to be saved.
    Account,
    /// None was found.
    Missing,
}

/// The state of the check, as plain values.
pub struct VerifierView {
    pub hash: Option<Seq<char>>,
    pub from_environment: bool,
    pub file_modified: Option<u128>,
    pub failures: Seq<u64>,
    pub locked_until: Option<u64>,
}

pub struct Verifier {
    path: String,
    source: HashSource,
    from_environment: bool,
    hash: Option<String>,
    file_modified: Option<u128>,
    failures: Vec<u64>,
    locked_until: Option<u64>,
}

impl View for Verifier {
    type V = VerifierView;

    closed spec fn view(&self) -> VerifierView {
        VerifierView {
            hash: match self.hash {
                Some(h) => Some(h@),
                None => None,
            },
            from_environment: self.from_environment,
            file_modified: self.file_modified,
            failures: self.failures@,
            locked_until: self.locked_until,
        }
    }
}

/// The trimmed text of a verifier file, when it is a PHC string.
pub open spec fn file_hash(text: Seq<char>) -> Option<Seq<char>> {
    if phc_well_formed(trim(text)) {
        Some(trim(text))
    } else {
        None
    }
}

/// The hash a verifier file holds: its trimmed text, if that parses.
pub fn verifier_hash(text: &str) -> (r: Option<String>)
    ensures
        match file_hash(text@) {
            Some(h) => r matches Some(s) && s@ == h,
            None => r is None,
        },
{
    let v = chars_of(text);
    let (s, e) = trim_span(&v, 0, v.len());
    assert(v@.subrange(0, v@.len() as int) =~= text@);
    let hash = string_of(&v, s, e);
    if is_phc_hash(hash.as_str()) {
        Some(hash)
    } else {
        None
    }
}

/// The admin hash of the Server's account file: the `password_hash` of its
/// `admin` account when the file is JSON (`parsed`; empty without an admin
/// account), else the file's trimmed text; `None` unless it parses.
pub open spec fn account_hash_of(trimmed: Seq<char>, parsed: Option<Seq<char>>) -> Option<Seq<char>> {
    let hash = match parsed {
        Some(h) => h,
        None => trimmed,
    };
    if phc_well_formed(hash) {
        Some(hash)
    } else {
        None
    }
}

pub fn account_hash(trimmed: &str, parsed: Option<String>) -> (r: Option<String>)
    ensures
        match account_hash_of(trimmed@, match parsed {
            Some(h) => Some(h@),
            None => None,
        }) {
            Some(h) => r matches Some(s) && s@ == h,
            None => r is None,
        },
{
    let hash = match parsed {
        Some(h) => h,
        None => trimmed.to_owned(),
    };
    if is_phc_hash(hash.as_str()) {
        Some(hash)
    } else {
        None
    }
}

/// How long ago `then` was, as `Instant::duration_since` (zero when it is
/// in the future).
pub open spec fn elapsed(then: u64, now: u64) -> int {
    if now >= then {
        now - then
    } else {
        0
    }
}

/// The failures without those, at the front, older than the window.
pub open spec fn prune(failures: Seq<u64>, now: u64) -> Seq<u64>
    decreases failures.len(),
{
    if failures.len() > 0 && elapsed(failures[0], now) > FAILURE_WINDOW {
        prune(failures.drop_first(), now)
    } else {
        failures
    }
}

/// The state after a failed attempt at `now`: the failure is recorded, old
/// ones are dropped, and with five recent failures the check locks for
/// five minutes and the count starts over.
pub open spec fn after_failure(s: VerifierView, now: u64) -> VerifierView {
    let recent = prune(s.failures.push(now), now);
    if recent.len() >= MAX_FAILURES {
        VerifierView { failures: seq![], locked_until: Some((now + LOCK_DURATION) as u64), ..s }
    } else {
        VerifierView { failures: recent, ..s }
    }
}

/// The whole seconds left of the lock, plus one; `None` when not locked.
pub open spec fn lock_seconds(s: VerifierView, now: u64) -> Option<nat> {
    match s.locked_until {
        Some(until) => if until >= now {
            Some(((until - now) / 1_000_000_000) as nat + 1)
        } else {
            None
        },
        None => None,
    }
}

/// What checking `password` at `now` does, from state `s` to state `t`
/// with result `r`: refused while locked (state unchanged), refused without
/// a hash (unchanged); the right password clears the failures, a wrong one
/// is recorded as a failure.
pub open spec fn verify_outcome(
    s: VerifierView,
    password: Seq<char>,
    now: u64,
    t: VerifierView,
    r: Result<(), AgentError>,
) -> bool {
    match lock_seconds(s, now) {
        Some(seconds) => t == s && (r matches Err(e) && e.kind == ErrorKind::TooManyRequests && e.message@
            == locked_message(seconds)),
        None => match s.hash {
            None => t == s && (r matches Err(e) && e.kind == ErrorKind::Unavailable),
            Some(h) => if argon2_accepts(h, password) {
                r is Ok && t == (VerifierView { failures: seq![], ..s })
            } else {
                t == after_failure(s, now) && (r matches Err(e) && e.kind == ErrorKind::Unauthorized && e.message@
                    == "the admin password was not accepted by the Agent"@)
            },
        },
    }
}

/// The message of a refusal while locked.
pub open spec fn locked_message(seconds: nat) -> Seq<char> {
    "too many wrong passwords; try again in "@ + decimal(seconds) + " seconds"@
}

/// Whether a failure at `then` is older than the window at `now`.
fn is_stale(then: u64, now: u64) -> (r: bool)
    ensures
        r == (elapsed(then, now) > FAILURE_WINDOW),
{
    let age = if now >= then {
        now - then
    } else {
        0
    };
    age > FAILURE_WINDOW
}

impl Verifier {
    /// The check as found at start-up: the verifier file's hash if it has
    /// one, else a well-formed hash from the environment, else the hash
    /// copied from the Server's account file (which the caller then saves
    /// and reports with `saved`), else none.
    pub fn load(
        path: String,
        from_file: Option<String>,
        file_modified: Option<u128>,
        environment_hash: Option<String>,
        from_account: Option<String>,
    ) -> (r: Verifier)
        ensures
            r.path() == path@,
            r@.failures.len() == 0,
            r@.locked_until is None,
            match from_file {
                Some(h) => r.source() == HashSource::File && r@.hash == Some(h@) && r@.file_modified
                    == file_modified && !r@.from_environment,
                None => match environment_hash {
                    Some(h) if phc_well_formed(h@) => r.source() == HashSource::Environment
                        && r@.hash == Some(h@) && r@.from_environment && r@.file_modified is None,
                    _ => match from_account {
                        Some(h) => r.source() == HashSource::Account && r@.hash == Some(h@)
                            && !r@.from_environment && r@.file_modified is None,
                        None => r.source() == HashSource::Missing && r@.hash is None
                            && !r@.from_environment && r@.file_modified is None,
                    },
                },
            },
    {
        let (source, hash, modified) = match from_file {
            Some(h) => (HashSource::File, Some(h), file_modified),
            None => {
                let from_env = match environment_hash {
                    Some(h) => if is_phc_hash(h.as_str()) {
                        Some(h)
                    } else {
                        None
                    },
                    None => None,
                };
                match from_env {
                    Some(h) => (HashSource::Environment, Some(h), None),
                    None => match from_account {
                        Some(h) => (HashSource::Account, Some(h), None),
                        None => (HashSource::Missing, None, None),
                    },
                }
            },
        };
        Verifier {
            path,
            source,
            from_environment: source == HashSource::Environment,
            hash,
            file_modified: modified,
            failures: Vec::new(),
            locked_until: None,
        }
    }

    pub closed spec fn path(&self) -> Seq<char> {
        self.path@
    }

    pub closed spec fn source(&self) -> HashSource {
        self.source
    }

    /// The verifier file's path.
    pub fn file_path(&self) -> (r: &str)
        ensures
            r@ == self.path(),
    {
        self.path.as_str()
    }

    /// Where the hash came from.
    pub fn hash_source(&self) -> (r: HashSource)
        ensures
            r == self.source(),
    {
        self.source
    }

    /// The copied hash was saved to the verifier file, modified at `modified`.
    pub fn saved(&mut self, modified: Option<u128>)
        ensures
            final(self)@ == (VerifierView { file_modified: modified, ..old(self)@ }),
            final(self).path() == old(self).path(),
            final(self).source() == HashSource::File,
    {
        self.file_modified = modified;
        self.source = HashSource::File;
    }

    /// Whether there is a hash to check against.
    pub fn is_provisioned(&self) -> (r: bool)
        ensures
            r == self@.hash is Some,
    {
        self.hash.is_some()
    }

    /// Whether the verifier file changed on disk since its hash was read (it
    /// never does for a hash from the environment).
    pub fn needs_reload(&self, current: Option<u128>) -> (r: bool)
        ensures
            r == (!self@.from_environment && current is Some && current != self@.file_modified),
    {
        !self.from_environment && current.is_some() && current != self.file_modified
    }

    /// Picks up the verifier file written while the Agent runs (by
    /// `reset-password`): with a hash in `text`, it replaces the old one and
    /// clears the failures and the lock.
    pub fn reload(&mut self, current: Option<u128>, text: &str)
        ensures
            final(self).path() == old(self).path(),
            match file_hash(text@) {
                Some(h) => final(self)@ == (VerifierView {
                    hash: Some(h),
                    file_modified: current,
                    failures: seq![],
                    locked_until: None,
                    ..old(self)@
                }),
                None => final(self)@ == old(self)@,
            },
    {
        match verifier_hash(text) {
            Some(h) => {
                self.hash = Some(h);
                self.file_modified = current;
                self.failures = Vec::new();
                self.locked_until = None;
                self.source = HashSource::File;
            },
            None => {},
        }
    }

    /// Seconds until the lock ends (rounded up by one), while locked.
    pub fn locked_for(&self, now: u64) -> (r: Option<u64>)
        ensures
            match lock_seconds(self@, now) {
                Some(n) => r == Some(n as u64),
                None => r is None,
            },
    {
        match self.locked_until {
            Some(until) => if until >= now {
                Some((until - now) / 1_000_000_000 + 1)
            } else {
                None
            },
            None => None,
        }
    }

    fn record_failure(&mut self, now: u64)
        requires
            now <= u64::MAX - LOCK_DURATION,
        ensures
            final(self)@ == after_failure(old(self)@, now),
            final(self).path() == old(self).path(),
            final(self).source() == old(self).source(),
    {
        let ghost pushed = self.failures@.push(now);
        self.failures.push(now);
        let mut start: usize = 0;
        assert(pushed.skip(0) =~= pushed);
        while start < self.failures.len() && is_stale(self.failures[start], now)
            invariant
                self.failures@ == pushed,
                start <= pushed.len(),
                prune(pushed, now) == prune(pushed.skip(start as int), now),
            decreases pushed.len() - start,
        {
            assert(pushed.skip(start as int).drop_first() =~= pushed.skip(start + 1));
            start = start + 1;
        }
        let mut recent: Vec<u64> = Vec::new();
        let mut i = start;
        while i < self.failures.len()
            invariant
                self.failures@ == pushed,
                start <= i <= pushed.len(),
                recent@ == pushed.subrange(start as int, i as int),
            decreases pushed.len() - i,
        {
            recent.push(self.failures[i]);
            assert(recent@ =~= pushed.subrange(start as int, i + 1));
            i = i + 1;
        }
        assert(recent@ =~= pushed.skip(start as int));
        if recent.len() >= MAX_FAILURES {
            self.locked_until = Some(now + LOCK_DURATION);
            self.failures = Vec::new();
        } else {
            self.failures = recent;
        }
    }

    /// Checks `password` against the hash. Refused while locked, and without
    /// a hash; a wrong password counts as a failure.
    pub fn verify(&mut self, password: &str, now: u64) -> (r: Result<(), AgentError>)
        requires
            now <= u64::MAX - LOCK_DURATION,
        ensures
            final(self).path() == old(self).path(),
            final(self).source() == old(self).source(),
            verify_outcome(old(self)@, password@, now, final(self)@, r),
    {
        match self.locked_for(now) {
            Some(seconds) => {
                let mut message = String::new();
                push_str(&mut message, "too many wrong passwords; try again in ");
                push_decimal(&mut message, seconds);
                push_str(&mut message, " seconds");
                assert(message@ =~= locked_message(seconds as nat));
                return Err(AgentError::too_many_requests(message.as_str()));
            },
            None => {},
        }
        let accepted = match &self.hash {
            Some(h) => argon2_verify(h.as_str(), password),
            None => {
                return Err(
                    AgentError::unavailable(
                        "the Agent has no admin password to check against; run `sudo deckox-server reset-password` as root",
                    ),
                );
            },
        };
        if accepted {
            self.failures = Vec::new();
            return Ok(());
        }
        self.record_failure(now);
        Err(AgentError::unauthorized("the admin password was not accepted by the Agent"))
    }

    /// The checks before the hash is replaced: not for a hash from the
    /// environment, the new password 12 to 1024 bytes long, and the current
    /// password right (when there is a hash at all).
    pub fn check_replacement(&mut self, current_password: &str, new_password: &str, now: u64) -> (r:
        Result<(), AgentError>)
        requires
            now <= u64::MAX - LOCK_DURATION,
        ensures
            final(self).path() == old(self).path(),
            old(self)@.from_environment ==> final(self)@ == old(self)@ && (r matches Err(e) && e.kind
                == ErrorKind::Conflict),
            !old(self)@.from_environment && !(MIN_PASSWORD_BYTES <= utf8_len(new_password@)
                <= MAX_PASSWORD_BYTES) ==> final(self)@ == old(self)@ && (r matches Err(e)
                && e.kind == ErrorKind::BadRequest),
            final(self).source() == old(self).source(),
            !old(self)@.from_environment && MIN_PASSWORD_BYTES <= utf8_len(new_password@) <= MAX_PASSWORD_BYTES
                ==> match old(self)@.hash {
                None => r is Ok && final(self)@ == old(self)@,
                Some(_) => verify_outcome(old(self)@, current_password@, now, final(self)@, r),
            },
    {
        if self.from_environment {
            return Err(AgentError::conflict(
                "the admin password comes from the environment and cannot be changed here",
            ));
        }
        if utf8_len_within(new_password, 11) || !utf8_len_within(new_password, 1024) {
            return Err(AgentError::bad_request("password must contain between 12 and 1024 bytes"));
        }
        if self.is_provisioned() {
            self.verify(current_password, now)?;
        }
        Ok(())
    }

    /// The new password's hash, with a fresh salt.
    pub fn hash_replacement(new_password: &str) -> (r: Result<String, AgentError>)
        ensures
            r matches Ok(h) ==> phc_well_formed(h@) && argon2_accepts(h@, new_password@),
            r matches Err(e) ==> e.kind == ErrorKind::Internal && exists|m: Seq<char>|
                e.message@ == "failed to hash the password: "@ + m,
    {
        match argon2_hash(new_password) {
            Ok(hash) => Ok(hash),
            Err(error) => {
                let mut message = String::new();
                push_str(&mut message, "failed to hash the password: ");
                push_str(&mut message, error.as_str());
                Err(AgentError::internal(message.as_str()))
            },
        }
    }

    /// The new hash was saved to the verifier file, modified at `modified`.
    pub fn installed(&mut self, hash: String, modified: Option<u128>)
        ensures
            final(self).path() == old(self).path(),
            final(self)@ == (VerifierView { hash: Some(hash@), file_modified: modified, ..old(self)@ }),
    {
        self.hash = Some(hash);
        self.file_modified = modified;
        self.source = HashSource::File;
    }
}

/// Five wrong passwords within the failure window lock the check, from the
/// last of them, for five minutes, and while it is locked every attempt is
/// refused, the right password included.
pub proof fn lemma_five_failures_lock(s: VerifierView, t: Seq<u64>, now: u64)
    requires
        s.failures.len() == 0,
        t.len() == 5,
        forall|i: int, j: int| 0 <= i <= j < 5 ==> t[i] <= t[j],
        t[4] - t[0] <= FAILURE_WINDOW,
        t[4] <= u64::MAX - LOCK_DURATION,
        t[4] <= now <= t[4] + LOCK_DURATION,
    ensures
        ({
            let s5 = after_failure(
                after_failure(after_failure(after_failure(after_failure(s, t[0]), t[1]), t[2]), t[3]),
                t[4],
            );
            &&& s5.locked_until == Some((t[4] + LOCK_DURATION) as u64)
            &&& s5.failures.len() == 0
            &&& lock_seconds(s5, now) matches Some(n) && 1 <= n <= 301
        }),
{
    let s1 = after_failure(s, t[0]);
    assert(s.failures.push(t[0]) =~= seq![t[0]]);
    assert(s1.failures =~= seq![t[0]]);
    let s2 = after_failure(s1, t[1]);
    assert(s1.failures.push(t[1]) =~= seq![t[0], t[1]]);
    assert(s2.failures =~= seq![t[0], t[1]]);
    let s3 = after_failure(s2, t[2]);
    assert(s2.failures.push(t[2]) =~= seq![t[0], t[1], t[2]]);
    assert(s3.failures =~= seq![t[0], t[1], t[2]]);
    let s4 = after_failure(s3, t[3]);
    assert(s3.failures.push(t[3]) =~= seq![t[0], t[1], t[2], t[3]]);
    assert(s4.failures =~= seq![t[0], t[1], t[2], t[3]]);
    let s5 = after_failure(s4, t[4]);
    assert(s4.failures.push(t[4]) =~= seq![t[0], t[1], t[2], t[3], t[4]]);
    assert(prune(seq![t[0], t[1], t[2], t[3], t[4]], t[4]) =~= seq![t[0], t[1], t[2], t[3], t[4]]);
    let left = (t[4] + LOCK_DURATION - now) as int;
    assert(0 <= left <= LOCK_DURATION);
    assert(left / 1_000_000_000 <= 300) by (nonlinear_arith)
        requires
            0 <= left <= 300_000_000_000,
    ;
}

/// The lock holds even for the right password: five wrong passwords
/// within the failure window, each refused as `verify` refuses it, leave
/// the check locked, and a sixth attempt within five minutes of the last,
/// whatever its password, is refused with the time left (1 to 301
/// seconds), leaving the state as it was.
pub proof fn lemma_lock_holds_for_right_password(
    states: Seq<VerifierView>,
    guesses: Seq<Seq<char>>,
    t: Seq<u64>,
    results: Seq<Result<(), AgentError>>,
    password: Seq<char>,
    now: u64,
    last: VerifierView,
    r: Result<(), AgentError>,
)
    requires
        states.len() == 6,
        guesses.len() == 5,
        t.len() == 5,
        results.len() == 5,
        states[0].failures.len() == 0,
        states[0].locked_until is None,
        states[0].hash is Some,
        forall|i: int| 0 <= i < 5 ==> !argon2_accepts(states[0].hash->Some_0, #[trigger] guesses[i]),
        forall|i: int| 0 <= i < 5 ==> verify_outcome(states[i], guesses[i], t[i], states[i + 1], #[trigger] results[i]),
        forall|i: int, j: int| 0 <= i <= j < 5 ==> t[i] <= t[j],
        t[4] - t[0] <= FAILURE_WINDOW,
        t[4] <= u64::MAX - LOCK_DURATION,
        t[4] <= now <= t[4] + LOCK_DURATION,
        verify_outcome(states[5], password, now, last, r),
    ensures
        forall|i: int| 0 <= i < 5 ==> #[trigger] results[i] is Err,
        r matches Err(e) && e.kind == ErrorKind::TooManyRequests && exists|n: nat|
            1 <= n <= 301 && e.message@ == locked_message(n),
        last == states[5],
{
    let h = states[0].hash->Some_0;
    lemma_five_failures_lock(states[0], t, now);
    let s0 = states[0];
    assert(verify_outcome(states[0], guesses[0], t[0], states[1], results[0]));
    assert(!argon2_accepts(h, guesses[0]));
    assert(states[1] == after_failure(s0, t[0]));
    assert(s0.failures.push(t[0]) =~= seq![t[0]]);
    assert(states[1].failures =~= seq![t[0]]);
    assert(verify_outcome(states[1], guesses[1], t[1], states[2], results[1]));
    assert(!argon2_accepts(h, guesses[1]));
    assert(states[2] == after_failure(states[1], t[1]));
    assert(states[1].failures.push(t[1]) =~= seq![t[0], t[1]]);
    assert(states[2].failures =~= seq![t[0], t[1]]);
    assert(verify_outcome(states[2], guesses[2], t[2], states[3], results[2]));
    assert(!argon2_accepts(h, guesses[2]));
    assert(states[3] == after_failure(states[2], t[2]));
    assert(states[2].failures.push(t[2]) =~= seq![t[0], t[1], t[2]]);
    assert(states[3].failures =~= seq![t[0], t[1], t[2]]);
    assert(verify_outcome(states[3], guesses[3], t[3], states[4], results[3]));
    assert(!argon2_accepts(h, guesses[3]));
    assert(states[4] == after_failure(states[3], t[3]));
    assert(states[3].failures.push(t[3]) =~= seq![t[0], t[1], t[2], t[3]]);
    assert(states[4].failures =~= seq![t[0], t[1], t[2], t[3]]);
    assert(verify_outcome(states[4], guesses[4], t[4], states[5], results[4]));
    assert(!argon2_accepts(h, guesses[4]));
    assert(states[5] == after_failure(states[4], t[4]));
    assert(states[5] == after_failure(
        after_failure(after_failure(after_failure(after_failure(s0, t[0]), t[1]), t[2]), t[3]),
        t[4],
    ));
    assert forall|i: int| 0 <= i < 5 implies #[trigger] results[i] is Err by {
        assert(verify_outcome(states[i], guesses[i], t[i], states[i + 1], results[i]));
    }
    let n = lock_seconds(states[5], now)->Some_0;
    assert(1 <= n <= 301);
}

} // verus!
