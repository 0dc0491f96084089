//! Codex Vault: scanning, previewing and changing Codex session trees.

pub mod codex;
pub mod domain;
pub mod filter;
pub mod i18n;
pub mod options;
pub mod ordered;
pub mod outcome_laws;
pub mod outside;
pub mod path;
pub mod path_laws;
pub mod plan_laws;
pub mod query_laws;
pub mod record_laws;
pub mod request_laws;
pub mod service;
pub mod service_laws;
pub mod session_laws;
pub mod signature_laws;
pub mod storage;
pub mod text;
pub mod text_laws;
pub mod tree;
pub mod tree_laws;
pub mod ui;
