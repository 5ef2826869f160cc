//! What the Agent reports of its own and the Server's systemd units, read
//! from a fixed set of `systemctl show` properties.

use vstd::prelude::*;

use crate::agent::services::{last_value, opt_text, parse_properties, property_value};
use crate::protocol::DiagnosticUnitState;
use crate::text::{owned, pair_texts};

verus! {

pub const SYSTEMCTL_PROPERTIES: &'static str = "LoadState,ActiveState,SubState,UnitFileState";

#[derive(Debug, Clone, Copy, PartialEq, Eq, Structural)]
pub enum DeckoxUnit {
    Agent,
    Server,
}

impl DeckoxUnit {
    pub fn id(self) -> (r: &'static str)
        ensures
            r@ == match self {
                DeckoxUnit::Agent => "deckox-agent.service"@,
                DeckoxUnit::Server => "deckox-server.service"@,
            },
    {
        match self {
            DeckoxUnit::Agent => "deckox-agent.service",
            DeckoxUnit::Server => "deckox-server.service",
        }
    }
}

/// A property's value, `unknown` when it is missing or empty.
pub open spec fn known(v: Option<Seq<char>>) -> Seq<char> {
    match v {
        Some(s) => if s.len() > 0 {
            s
        } else {
            "unknown"@
        },
        None => "unknown"@,
    }
}

pub type UnitStateView = (Seq<char>, Seq<char>, Seq<char>, Option<Seq<char>>);

pub open spec fn unit_state_view(s: DiagnosticUnitState) -> UnitStateView {
    (s.load_state@, s.active_state@, s.sub_state@, opt_text(s.unit_file_state))
}

/// The unit's state from `systemctl show` output: only the four fixed
/// properties are read, the last value of each counting.
pub open spec fn unit_state_of(props: Seq<(Seq<char>, Seq<char>)>) -> UnitStateView {
    (
        known(last_value(props, "LoadState"@)),
        known(last_value(props, "ActiveState"@)),
        known(last_value(props, "SubState"@)),
        match last_value(props, "UnitFileState"@) {
            Some(v) => if v.len() > 0 {
                Some(v)
            } else {
                None
            },
            None => None,
        },
    )
}

fn known_value(pairs: &Vec<(String, String)>, key: &str) -> (r: String)
    ensures
        r@ == known(last_value(pair_texts(pairs@), key@)),
{
    match property_value(pairs, key) {
        Some(v) => if crate::text::chars_of(v.as_str()).len() > 0 {
            v
        } else {
            owned("unknown")
        },
        None => owned("unknown"),
    }
}

pub fn parse_unit_state(input: &str) -> (r: DiagnosticUnitState)
    ensures
        unit_state_view(r) == unit_state_of(crate::agent::services::properties_of(input@)),
{
    let pairs = parse_properties(input);
    let unit_file_state = match property_value(&pairs, "UnitFileState") {
        Some(v) => if crate::text::chars_of(v.as_str()).len() > 0 {
            Some(v)
        } else {
            None
        },
        None => None,
    };
    DiagnosticUnitState {
        load_state: known_value(&pairs, "LoadState"),
        active_state: known_value(&pairs, "ActiveState"),
        sub_state: known_value(&pairs, "SubState"),
        unit_file_state,
    }
}

/// The state reported when `systemctl` could not be asked.
pub fn unavailable_unit_state() -> (r: DiagnosticUnitState)
    ensures
        unit_state_view(r) == ("unavailable"@, "unavailable"@, "unavailable"@, None::<Seq<char>>),
{
    DiagnosticUnitState {
        load_state: owned("unavailable"),
        active_state: owned("unavailable"),
        sub_state: owned("unavailable"),
        unit_file_state: None,
    }
}

} // verus!
