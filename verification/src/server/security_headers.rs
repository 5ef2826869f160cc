//! The security headers added to every response the Server sends.

use vstd::prelude::*;

verus! {

/// Everything the Web loads is served by the Server itself, so every fetch
/// directive is locked to `'self'`.
pub const CONTENT_SECURITY_POLICY: &'static str = "default-src 'self'; script-src 'self'; style-src 'self'; img-src 'self' data:; connect-src 'self'; object-src 'none'; frame-ancestors 'none'; base-uri 'self'; form-action 'self'";

/// The headers, name and value, added to a response. `Strict-Transport-Security`
/// only when `secure` (a TLS-terminating proxy is known to sit in front),
/// since over plain HTTP it would promise TLS wrongly.
pub open spec fn headers_for(secure: bool) -> Seq<(Seq<char>, Seq<char>)> {
    seq![
        ("x-content-type-options"@, "nosniff"@),
        ("x-frame-options"@, "DENY"@),
        ("referrer-policy"@, "no-referrer"@),
        ("content-security-policy"@, CONTENT_SECURITY_POLICY@),
        ("permissions-policy"@, "geolocation=(), camera=(), microphone=()"@),
    ] + if secure {
        seq![("strict-transport-security"@, "max-age=63072000; includeSubDomains"@)]
    } else {
        seq![]
    }
}

pub open spec fn header_views(h: Seq<(&'static str, &'static str)>) -> Seq<(Seq<char>, Seq<char>)> {
    h.map_values(|p: (&'static str, &'static str)| (p.0@, p.1@))
}

pub fn security_headers(secure: bool) -> (r: Vec<(&'static str, &'static str)>)
    ensures
        header_views(r@) == headers_for(secure),
{
    let mut r = vec![
        ("x-content-type-options", "nosniff"),
        ("x-frame-options", "DENY"),
        ("referrer-policy", "no-referrer"),
        ("content-security-policy", CONTENT_SECURITY_POLICY),
        ("permissions-policy", "geolocation=(), camera=(), microphone=()"),
    ];
    if secure {
        r.push(("strict-transport-security", "max-age=63072000; includeSubDomains"));
    }
    assert(header_views(r@) =~= headers_for(secure));
    r
}

} // verus!
