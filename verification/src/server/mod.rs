//! The Server: the web admin's back end, which talks to the Agent.

pub mod api_errors;
pub mod audit;
pub mod agent_client;
pub mod auth;
pub mod cli;
pub mod diagnostics;
pub mod doctor;
pub mod events;
pub mod layout;
pub mod metrics;
pub mod modules;
pub mod notifier;
pub mod proxy;
pub mod request_context;
pub mod security_headers;
pub mod terminal;
pub mod test_support;
pub mod update;
