//! The Codex side: its threads, its task catalog, its leftover data, the
//! server's replies and the command line.

pub mod catalog;
pub mod catalog_laws;
pub mod cleanup_laws;
pub mod cli;
pub mod closure;
pub mod course;
pub mod course_laws;
pub mod disk;
pub mod draft;
pub mod guard_laws;
pub mod leftover_laws;
pub mod locate;
pub mod maintenance;
pub mod pins;
pub mod place_laws;
pub mod reply_laws;
pub mod rpc;
pub mod scan;
pub mod scan_laws;
pub mod settle;
pub mod settle_laws;
pub mod thread;
pub mod thread_laws;
