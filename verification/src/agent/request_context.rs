//! The request id of each Agent request: the one the Server sent, when it
//! is safe to log, else a fresh one.

use vstd::prelude::*;

use crate::encoding::{hex_text, random_hex_id};
use crate::text::{alnum, is_alnum, owned};

verus! {

pub const AGENT_REQUEST_ID_HEADER: &'static str = "x-deckox-request-id";

#[derive(Debug, Clone)]
pub struct RequestId(pub String);

/// An id the Server may hand over: 1 to 80 ASCII letters, digits or `-`.
pub open spec fn acceptable_id(value: Seq<char>) -> bool {
    &&& 0 < value.len() <= 80
    &&& forall|i: int| 0 <= i < value.len() ==> is_alnum(#[trigger] value[i]) || value[i] == '-'
}

pub fn is_acceptable_id(value: &str) -> (r: bool)
    ensures
        r == acceptable_id(value@),
{
    let v = crate::text::chars_of(value);
    if v.len() == 0 || v.len() > 80 {
        return false;
    }
    let mut i: usize = 0;
    while i < v.len()
        invariant
            i <= v@.len(),
            v@ == value@,
            forall|j: int| 0 <= j < i ==> is_alnum(#[trigger] v@[j]) || v@[j] == '-',
        decreases v@.len() - i,
    {
        if !(alnum(v[i]) || v[i] == '-') {
            return false;
        }
        i = i + 1;
    }
    true
}

impl RequestId {
    /// The id for a request: the header's, when acceptable, else `agent-`
    /// and 16 random bytes in hex.
    pub fn assign(header: Option<&str>) -> (r: RequestId)
        ensures
            match header {
                Some(h) => acceptable_id(h@) ==> r.0@ == h@,
                None => true,
            },
            !(header matches Some(h) && acceptable_id(h@)) ==> exists|bytes: Seq<u8>|
                bytes.len() == 16 && r.0@ == "agent-"@ + hex_text(bytes),
    {
        match header {
            Some(h) => {
                if is_acceptable_id(h) {
                    return RequestId(owned(h));
                }
            },
            None => {},
        }
        RequestId(random_hex_id("agent-", 16))
    }
}

} // verus!
