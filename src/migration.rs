use vstd::prelude::*;

use crate::error::MigrationError;
use crate::version::{version_from_string, version_of, well_formed_name};

verus! {

/// One embedded migration: its name, its forward script and its optional
/// reverse script. A migration without a reverse script cannot be reverted.
#[derive(Debug, Clone, Copy)]
pub struct EmbeddedMigration {
    pub up: &'static str,
    pub down: Option<&'static str>,
    pub name: &'static str,
}

/// One row of the bookkeeping table: an applied version.
#[derive(Debug)]
pub struct Version {
    pub version: String,
}

/// The version of a migration, as derived from its name.
pub open spec fn mig_version(m: EmbeddedMigration) -> Seq<char> {
    version_of(m.name@)
}

/// The change that a transaction makes to the bookkeeping table.
#[derive(Debug)]
pub enum BookkeepingChange {
    /// Insert a row for the version.
    Insert(String),
    /// Delete the row of the version.
    Delete(String),
}

/// One unit of work that runs inside a single database transaction: the
/// script, then the bookkeeping change, committed together or not at all.
#[derive(Debug)]
pub struct Transaction {
    pub script: &'static str,
    pub change: BookkeepingChange,
}

/// The applied versions after `change` commits on a table that held `store`.
pub open spec fn changed_store(store: Set<Seq<char>>, change: BookkeepingChange) -> Set<Seq<char>> {
    match change {
        BookkeepingChange::Insert(v) => store.insert(v@),
        BookkeepingChange::Delete(v) => store.remove(v@),
    }
}

/// The applied versions after a transaction ends: its change when it
/// committed, nothing at all when it failed at any point and rolled back.
pub open spec fn store_after(store: Set<Seq<char>>, tx: Transaction, committed: bool) -> Set<Seq<char>> {
    if committed {
        changed_store(store, tx.change)
    } else {
        store
    }
}

impl Version {
    /// A bookkeeping row for `version`.
    pub fn new(version: String) -> (r: Version)
        ensures
            r.version@ == version@,
    {
        Version { version }
    }
}

impl EmbeddedMigration {
    /// The canonical version of this migration.
    pub fn version(&self) -> (r: String)
        requires
            well_formed_name(self.name@),
        ensures
            r@ == mig_version(*self),
    {
        match version_from_string(self.name) {
            Some(v) => v,
            None => String::new(),
        }
    }

    /// The transaction that applies this migration: its forward script, then a
    /// bookkeeping row for its version.
    pub fn run(&self) -> (r: Transaction)
        requires
            well_formed_name(self.name@),
        ensures
            r.script@ == self.up@,
            r.change matches BookkeepingChange::Insert(v) && v@ == mig_version(*self),
    {
        Transaction { script: self.up, change: BookkeepingChange::Insert(self.version()) }
    }

    /// The transaction that reverts this migration: its reverse script, then the
    /// removal of its bookkeeping row. Refused when there is no reverse script.
    pub fn revert(&self) -> (r: Result<Transaction, MigrationError>)
        requires
            well_formed_name(self.name@),
        ensures
            self.down.is_none() <==> r == Err::<Transaction, MigrationError>(MigrationError::NoReverseScript),
            r matches Err(e) ==> e == MigrationError::NoReverseScript,
            r matches Ok(tx) ==> self.down == Some(tx.script) && (tx.change matches BookkeepingChange::Delete(v) && v@ == mig_version(*self)),
    {
        match self.down {
            Some(script) => Ok(Transaction { script, change: BookkeepingChange::Delete(self.version()) }),
            None => Err(MigrationError::NoReverseScript),
        }
    }
}

/// Applying a migration and then reverting it leaves the bookkeeping table as
/// it was, whenever the migration was not applied before.
pub proof fn lemma_apply_then_revert(store: Set<Seq<char>>, m: EmbeddedMigration, up: Transaction, down: Transaction)
    requires
        !store.contains(mig_version(m)),
        up.change matches BookkeepingChange::Insert(v) && v@ == mig_version(m),
        down.change matches BookkeepingChange::Delete(v) && v@ == mig_version(m),
    ensures
        store_after(store_after(store, up, true), down, true) == store,
{
    assert(store.insert(mig_version(m)).remove(mig_version(m)) =~= store);
}

/// A transaction that fails, at whatever point of its script, leaves no row for
/// its migration behind when there was none before.
pub proof fn lemma_failed_apply_leaves_no_row(store: Set<Seq<char>>, m: EmbeddedMigration, up: Transaction)
    requires
        !store.contains(mig_version(m)),
        up.change matches BookkeepingChange::Insert(v) && v@ == mig_version(m),
    ensures
        store_after(store, up, false) == store,
        !store_after(store, up, false).contains(mig_version(m)),
{
}

} // verus!
