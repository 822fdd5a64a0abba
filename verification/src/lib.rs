//! Verified core of the Serylane desktop proxy manager: error classification,
//! release/update validation, failover decisions, profile inspection, program
//! launch plans, login-entry ownership and compact traffic rendering.
pub mod app_update;
pub mod codex;
pub mod commands;
pub mod config;
pub mod data;
pub mod digest;
pub mod error;
pub mod program_proxy;
pub mod sorted;
pub mod stability;
pub mod stability_state;
pub mod startup;
pub mod text;
pub mod toml_text;
pub mod traffic;
pub mod tray_icon;
pub mod update_check;
pub mod update_session;
pub mod version;
pub mod weblink;
