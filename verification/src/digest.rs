//! SHA-256 and base64, from the `sha2` and `base64` crates.

use base64::Engine;
use sha2::Digest;
use vstd::prelude::*;

verus! {

/// The SHA-256 digest of `bytes`.
pub uninterp spec fn sha256_of(bytes: Seq<u8>) -> Seq<u8>;

/// `Sha256::digest`: the 32-byte digest of `bytes`.
#[verifier::external_body]
pub(crate) fn sha256(bytes: &[u8]) -> (r: Vec<u8>)
    ensures
        r@ == sha256_of(bytes@),
        r@.len() == 32,
{
    sha2::Sha256::digest(bytes).to_vec()
}

/// The base64 digit for `n` (0..63) in the standard alphabet.
pub open spec fn b64_char(n: nat) -> char {
    if n < 26 {
        ('A' as u32 + n) as char
    } else if n < 52 {
        ('a' as u32 + (n - 26)) as char
    } else if n < 62 {
        ('0' as u32 + (n - 52)) as char
    } else if n == 62 {
        '+'
    } else {
        '/'
    }
}

/// `bytes` in base64 with the standard alphabet and no padding: each three
/// bytes become four digits, a final one or two bytes two or three digits.
pub open spec fn b64_text(bytes: Seq<u8>) -> Seq<char>
    decreases bytes.len(),
{
    if bytes.len() == 0 {
        seq![]
    } else if bytes.len() == 1 {
        seq![b64_char(bytes[0] as nat / 4), b64_char((bytes[0] as nat % 4) * 16)]
    } else if bytes.len() == 2 {
        seq![
            b64_char(bytes[0] as nat / 4),
            b64_char((bytes[0] as nat % 4) * 16 + bytes[1] as nat / 16),
            b64_char((bytes[1] as nat % 16) * 4),
        ]
    } else {
        seq![
            b64_char(bytes[0] as nat / 4),
            b64_char((bytes[0] as nat % 4) * 16 + bytes[1] as nat / 16),
            b64_char((bytes[1] as nat % 16) * 4 + bytes[2] as nat / 64),
            b64_char(bytes[2] as nat % 64),
        ] + b64_text(bytes.skip(3))
    }
}

/// `STANDARD_NO_PAD.encode` of `base64`. (It panics only when the encoded
/// length overflows `usize`, which the bound rules out.)
#[verifier::external_body]
pub(crate) fn base64_unpadded(bytes: &[u8]) -> (r: String)
    requires
        bytes@.len() <= 0x1000_0000,
    ensures
        r@ == b64_text(bytes@),
{
    base64::engine::general_purpose::STANDARD_NO_PAD.encode(bytes)
}

/// What `STANDARD.decode` of `base64` gives for `text`: the bytes, or
/// `None` when it is not canonical padded base64.
pub uninterp spec fn base64_decoded(text: Seq<char>) -> Option<Seq<u8>>;

/// `STANDARD.decode` of `base64`. The outcome depends on the text alone.
#[verifier::external_body]
pub(crate) fn base64_decode(text: &str) -> (r: Option<Vec<u8>>)
    ensures
        match base64_decoded(text@) {
            Some(b) => r matches Some(v) && v@ == b,
            None => r is None,
        },
{
    base64::engine::general_purpose::STANDARD.decode(text).ok()
}

} // verus!
