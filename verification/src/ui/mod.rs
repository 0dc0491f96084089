//! The interface: what each key does, and what each page shows.

pub mod key_laws;
pub mod laws;
pub mod measure;
pub mod measure_laws;
pub mod overview;
pub mod page;
pub mod review;
pub mod row_laws;
pub mod run;
pub mod scope;
pub mod scope_laws;
pub mod state;
pub mod table;
pub mod words;
