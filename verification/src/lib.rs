//! GPBeam: offload GoPro media to a local folder and mirror it to a cloud.

pub mod app_laws;
pub mod app_state;
pub mod backoff;
pub mod calendar;
pub mod calendar_laws;
pub mod capture;
pub mod cli;
pub mod cloud;
pub mod cloud_runtime;
pub mod commands;
pub mod config;
pub mod config_io;
pub mod copy;
pub mod credentials;
pub mod decision_laws;
pub mod detect;
pub mod diskguard;
pub mod error;
pub mod gopro;
pub mod hashing;
pub mod keyring_store;
pub mod ledger;
pub mod ledger_laws;
pub mod line_laws;
pub mod naming;
pub mod offload_laws;
pub mod orchestrator;
pub mod paths;
pub mod plan_laws;
pub mod progress;
pub mod run_laws;
pub mod scanner;
pub mod settings_laws;
pub mod text;
pub mod text_laws;
pub mod toml_tree;
pub mod transfer;
pub mod tray;
pub mod wired;
pub mod xml;
