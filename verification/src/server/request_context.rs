//! The id that follows each Server request into the logs, the audit trail
//! and the Agent.

use vstd::prelude::*;

use crate::encoding::{hex_text, random_hex_id};

verus! {

pub const REQUEST_ID_HEADER: &'static str = "x-request-id";

pub const AGENT_REQUEST_ID_HEADER: &'static str = "x-deckox-request-id";

#[derive(Debug, Clone)]
pub struct RequestId(pub String);

impl RequestId {
    /// A fresh id: `req-` and 16 random bytes in hex.
    pub fn fresh() -> (r: RequestId)
        ensures
            exists|bytes: Seq<u8>| bytes.len() == 16 && r.0@ == "req-"@ + hex_text(bytes),
    {
        RequestId(random_hex_id("req-", 16))
    }

    /// An id for a command-line action: `cli-` and 8 random bytes in hex.
    pub fn for_cli() -> (r: RequestId)
        ensures
            exists|bytes: Seq<u8>| bytes.len() == 8 && r.0@ == "cli-"@ + hex_text(bytes),
    {
        RequestId(random_hex_id("cli-", 8))
    }
}

} // verus!
