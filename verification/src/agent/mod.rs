//! The Agent: the root-side process that performs the allow-listed actions.

pub mod api_errors;
pub mod backups;
pub mod config;
pub mod config_cli;
pub mod diagnostics;
pub mod events;
pub mod journal;
pub mod modules;
pub mod operations;
pub mod power;
pub mod request_context;
pub mod schedules;
pub mod security;
pub mod error;
pub mod services;
pub mod software;
pub mod software_manager;
pub mod ssh_keys;
pub mod storage;
pub mod system;
pub mod update;
pub mod admin_check;
