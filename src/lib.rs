//! Reconciles a declared set of record schemas against the schema documents already committed
//! to an append-only log, and decides, entity by entity and in dependency order, which
//! operations bring the committed state to the declared one.
pub mod current;
pub mod deploy;
pub mod diff;
pub mod executor;
pub mod graph;
pub mod init;
pub mod laws;
pub mod lock_file;
pub mod plan;
pub mod previous;
pub mod schema_file;
