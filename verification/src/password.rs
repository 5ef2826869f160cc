//! Argon2id password hashes in PHC string form, through the `argon2` crate.

use vstd::prelude::*;

verus! {

/// Whether `argon2` accepts `password` against the PHC string `hash`: the
/// string parses, and hashing the password with the salt and parameters it
/// names gives the hash it holds.
pub uninterp spec fn argon2_accepts(hash: Seq<char>, password: Seq<char>) -> bool;

/// Why `hash` does not parse as a PHC string (`PasswordHash::new`), as its
/// error prints; `None` when it parses.
pub uninterp spec fn phc_parse_error(hash: Seq<char>) -> Option<Seq<char>>;

/// Whether `hash` parses as a PHC string.
pub open spec fn phc_well_formed(hash: Seq<char>) -> bool {
    phc_parse_error(hash) is None
}

/// `<Argon2 as PasswordVerifier<str>>::verify_password` with the default
/// Argon2id parameters: `true` exactly when the password is accepted. The
/// outcome depends on the two strings alone.
#[verifier::external_body]
pub(crate) fn argon2_verify(hash: &str, password: &str) -> (r: bool)
    ensures
        r == argon2_accepts(hash@, password@),
{
    argon2::PasswordVerifier::<str>::verify_password(
        &argon2::Argon2::default(),
        password.as_bytes(),
        hash,
    ).is_ok()
}

/// `PasswordHash::new(hash)`: `Ok` exactly for a well-formed PHC string,
/// else its error as text. The outcome depends on the string alone.
#[verifier::external_body]
pub(crate) fn check_phc(hash: &str) -> (r: Result<(), String>)
    ensures
        match phc_parse_error(hash@) {
            None => r is Ok,
            Some(e) => r matches Err(m) && m@ == e,
        },
{
    argon2::PasswordHash::new(hash).map(|_| ()).map_err(|error| error.to_string())
}

/// Whether `hash` is a well-formed PHC string.
pub fn is_phc_hash(hash: &str) -> (r: bool)
    ensures
        r == phc_well_formed(hash@),
{
    check_phc(hash).is_ok()
}

/// `PasswordHasher::hash_password` with the default Argon2id parameters and
/// a fresh random salt, as a PHC string; the error as text. The salt is
/// random, so the string itself is not named; what the crate's
/// documentation shows of it is claimed: it parses as a PHC string, and
/// `verify_password` accepts `password` against it. Whether hashing
/// succeeds is not stated.
#[verifier::external_body]
pub(crate) fn argon2_hash(password: &str) -> (r: Result<String, String>)
    ensures
        r matches Ok(h) ==> phc_well_formed(h@) && argon2_accepts(h@, password@),
{
    argon2::PasswordHasher::<argon2::PasswordHash>::hash_password(
        &argon2::Argon2::default(),
        password.as_bytes(),
    ).map(|hash| hash.to_string()).map_err(|error| error.to_string())
}

} // verus!
