//! Recent-workspace history and its fuzzy-filtered selector for an editor launcher.
//!
//! The library keeps the records of previously opened workspaces, persists a bounded
//! and recency-ordered subset of them, projects them into a filterable table and runs
//! the decisions of the interactive selector. Terminal, file and process work is left
//! to the caller.

pub mod text;

pub mod ranking;

pub mod record;

pub mod history;

pub mod table;

pub mod selector;

pub mod launch;

pub mod uri;
