use vstd::prelude::*;

verus! {

/// The closed set of ways a migration operation can fail.
#[derive(Debug, Clone, Copy, PartialEq, Eq, Structural)]
pub enum MigrationError {
    /// A migration name holds no `_` after its version segment.
    InvalidMigrationName,
    /// A revert was asked of a migration that has no reverse script.
    NoReverseScript,
    /// Nothing is applied, or the last applied version is not in the set.
    NotFound,
    /// The bookkeeping table already holds the version (a concurrent apply).
    StoreConflict,
    /// Any other database failure: a script, the table setup, or a row change.
    ExecutionFailure,
}

} // verus!
