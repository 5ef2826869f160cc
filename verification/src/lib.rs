//! Deckox: the verified core of a Linux web-administration tool — the rules
//! that decide what the Agent may do on the host, the parsers that read what
//! the host's tools report, and the bounded state the Server and the Agent
//! keep.

use vstd::prelude::*;

pub mod agent;
pub mod digest;
pub mod encoding;
pub mod error_shape;
pub mod modules;
pub mod order;
pub mod password;
pub mod protocol;
pub mod server;
pub mod table;
pub mod terminal;
pub mod text;
pub mod toml_doc;

verus! {

} // verus!
