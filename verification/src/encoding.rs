//! Hex text, UTF-8 text, random bytes and the wall clock, from the crates and the part
//! of std that provide them.

use vstd::prelude::*;

verus! {

/// The lowercase hex digit of `n` (0..15).
pub open spec fn hex_digit_char(n: nat) -> char {
    if n < 10 {
        ('0' as u32 + n) as char
    } else {
        ('a' as u32 + (n - 10)) as char
    }
}

/// Two lowercase hex digits per byte, high nibble first (`hex::encode`).
pub open spec fn hex_text(bytes: Seq<u8>) -> Seq<char>
    decreases bytes.len(),
{
    if bytes.len() == 0 {
        seq![]
    } else {
        hex_text(bytes.drop_last()) + seq![
            hex_digit_char(bytes.last() as nat / 16),
            hex_digit_char(bytes.last() as nat % 16),
        ]
    }
}

pub proof fn lemma_hex_text_len(bytes: Seq<u8>)
    ensures
        hex_text(bytes).len() == 2 * bytes.len(),
    decreases bytes.len(),
{
    if bytes.len() > 0 {
        lemma_hex_text_len(bytes.drop_last());
    }
}

/// `hex::encode`: each byte as two lowercase hex digits, in order.
#[verifier::external_body]
pub(crate) fn hex_encode(bytes: &Vec<u8>) -> (r: String)
    ensures
        r@ == hex_text(bytes@),
{
    hex::encode(bytes)
}

/// `rand::fill` on a fresh buffer: `count` bytes from the thread-local
/// generator. Nothing is claimed of their values.
#[verifier::external_body]
pub(crate) fn random_bytes(count: usize) -> (r: Vec<u8>)
    ensures
        r@.len() == count,
{
    let mut bytes = vec![0u8; count];
    rand::fill(&mut bytes[..]);
    bytes
}

/// A random identifier: `prefix` and the hex text of `count` random bytes.
pub fn random_hex_id(prefix: &str, count: usize) -> (r: String)
    ensures
        exists|bytes: Seq<u8>| bytes.len() == count && r@ == prefix@ + hex_text(bytes),
{
    let bytes = random_bytes(count);
    let hex = hex_encode(&bytes);
    let mut id = String::new();
    crate::text::push_str(&mut id, prefix);
    crate::text::push_str(&mut id, hex.as_str());
    assert(id@ =~= prefix@ + hex_text(bytes@));
    id
}

/// Milliseconds since the Unix epoch by the system clock
/// (`SystemTime::now().duration_since(UNIX_EPOCH)`, then `as_millis`);
/// `None` for a clock set before the epoch. Nothing is claimed of the value.
#[verifier::external_body]
pub(crate) fn unix_millis() -> (r: Option<u128>) {
    std::time::SystemTime::now()
        .duration_since(std::time::UNIX_EPOCH)
        .ok()
        .map(|elapsed| elapsed.as_millis())
}

/// Nanoseconds since the Unix epoch by the system clock
/// (`SystemTime::now().duration_since(UNIX_EPOCH)`, then `as_nanos`);
/// `None` for a clock set before the epoch. Nothing is claimed of the value.
#[verifier::external_body]
pub(crate) fn unix_nanos() -> (r: Option<u128>) {
    std::time::SystemTime::now()
        .duration_since(std::time::UNIX_EPOCH)
        .ok()
        .map(|elapsed| elapsed.as_nanos())
}

/// A clock reading as `u64`: clipped to `u64::MAX`, 0 before the epoch.
pub fn clock_value(reading: Option<u128>) -> (r: u64)
    ensures
        r == match reading {
            Some(t) => if t > u64::MAX {
                u64::MAX
            } else {
                t as u64
            },
            None => 0,
        },
{
    match reading {
        Some(t) => if t > u64::MAX as u128 {
            u64::MAX
        } else {
            t as u64
        },
        None => 0,
    }
}

/// `String::from_utf8`: the text when `bytes` are valid UTF-8, as std
/// documents it.
#[verifier::external_body]
pub(crate) fn utf8_text(bytes: Vec<u8>) -> (r: Option<String>)
    ensures
        r is Some == vstd::utf8::valid_utf8(bytes@),
        r matches Some(s) ==> s@ == vstd::utf8::decode_utf8(bytes@),
{
    String::from_utf8(bytes).ok()
}

} // verus!
