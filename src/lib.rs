//! Tracks and applies an ordered set of embedded schema migrations.
//!
//! The library decides; the caller talks to the database. Every entry point
//! hands back what to execute next and takes the database's answer in return.
//! Modules, leaves first: `version` derives a migration's version from its
//! name, `migration` plans the transaction of one migration, `pending` finds
//! and orders what is left to apply, `engine` holds the set and its one-time
//! table setup and drives a run, and `locate` finds the migrations directory.
mod engine;
mod error;
mod locate;
mod migration;
mod pending;
mod version;

pub use engine::{
    lemma_run_pending_idempotent, versions_of, EmbeddedMigrations, RunPending, RunStep, SetupGuard, SETUP_TABLE_SQL,
};
pub use error::MigrationError;
pub use locate::{
    is_migration_directory, joined_path, migrations_candidate, parent_path, resolve_migrations_directory, search_for_migrations_directory,
    Resolution, SearchStep,
};
pub use migration::{
    changed_store, lemma_apply_then_revert, lemma_failed_apply_leaves_no_row, mig_version, store_after,
    BookkeepingChange, EmbeddedMigration, Transaction, Version,
};
pub use pending::{
    all_well_formed, applied_versions, compute_pending, first_with_version, pending_of, select_last,
    sorted_by_version, strictly_sorted_by_version, unique_versions, version_le, version_less, version_lt,
};
pub use version::{
    derive_version, lemma_version_ignores_rest, strip_dashes, underscore_index, version_from_string, version_of,
    well_formed_name,
};
