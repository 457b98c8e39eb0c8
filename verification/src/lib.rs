//! A ledger of schema migrations for a local relational store, and the
//! runner that applies it.
//!
//! A ledger is an ordered list of versioned steps. A store remembers the
//! versions that it has applied. Applying the ledger executes every step
//! whose version the store has not applied, once, in ledger order, and stops
//! at the first step that the store refuses. The runner decides what is
//! executed next; executing it is left to whoever holds the store.

pub mod greeting;
pub mod ledger;
pub mod migrations;
pub mod plan;
pub mod record;
pub mod runner;
pub mod sql;
pub mod step;

pub use greeting::greet;
pub use ledger::validate;
pub use migrations::migrations;
pub use plan::pending_versions;
pub use record::AppliedVersionRecord;
pub use runner::Runner;
pub use step::{Direction, MigrationError, MigrationStep};
