use vstd::prelude::*;

use crate::error::MigrationError;
use crate::migration::{mig_version, BookkeepingChange, EmbeddedMigration, Transaction, Version};
use crate::pending::{
    all_well_formed, applied_versions, compute_pending, first_with_version, pending_of, select_last, sorted_by_version,
    strictly_sorted_by_version, unique_versions,
};
use crate::version::{derive_version, well_formed_name};

verus! {

broadcast use vstd::seq_lib::group_to_multiset_ensures;

/// The statement that creates the bookkeeping table when it is absent.
pub const SETUP_TABLE_SQL: &'static str = "CREATE TABLE IF NOT EXISTS __diesel_schema_migrations (version VARCHAR(50) PRIMARY KEY NOT NULL, run_on TIMESTAMP NOT NULL DEFAULT CURRENT_TIMESTAMP);";

/// Whether an engine has already tried to create its bookkeeping table. The
/// guard moves once, from `Unattempted` to `Attempted`, and never back: it
/// records the attempt, not its success.
#[derive(Debug, Clone, Copy, PartialEq, Eq, Structural)]
pub enum SetupGuard {
    Unattempted,
    Attempted,
}

impl SetupGuard {
    /// Marks the setup as attempted; true only for the call that moved the guard.
    pub fn attempt(&mut self) -> (first: bool)
        ensures
            first == (*old(self) == SetupGuard::Unattempted),
            *final(self) == SetupGuard::Attempted,
    {
        let first = *self == SetupGuard::Unattempted;
        *self = SetupGuard::Attempted;
        first
    }
}

/// The versions of a sequence of migrations.
pub open spec fn versions_of(s: Seq<EmbeddedMigration>) -> Set<Seq<char>> {
    s.map_values(|m: EmbeddedMigration| mig_version(m)).to_set()
}

/// What a run of pending migrations asks for next.
#[derive(Debug)]
pub enum RunStep {
    /// Execute this transaction, then report how it ended.
    Apply(Transaction),
    /// The run is over, with this result.
    Done(Result<(), MigrationError>),
}

/// One run of the pending migrations: they are applied one at a time, in
/// ascending order of version, and the run stops at the first failure.
pub struct RunPending {
    /// The pending migrations, sorted by version.
    pub pending: Vec<EmbeddedMigration>,
    /// How many of them have been committed.
    pub next: usize,
    /// The failure that ended the run, if any.
    pub failure: Option<MigrationError>,
    /// The bookkeeping rows: those found at the start and those committed since.
    pub applied: Vec<Version>,
    /// The migration set the run was planned from.
    pub set: Ghost<Seq<EmbeddedMigration>>,
    /// The applied versions found at the start.
    pub initial: Ghost<Set<Seq<char>>>,
}

impl RunPending {
    /// The run is consistent: the pending list is that of the set against the
    /// rows found at the start, and the rows now are those plus every commit.
    pub open spec fn wf(&self) -> bool {
        &&& self.next <= self.pending@.len()
        &&& all_well_formed(self.pending@)
        &&& all_well_formed(self.set@)
        &&& sorted_by_version(self.pending@)
        &&& self.pending@.to_multiset() == pending_of(self.set@, self.initial@).to_multiset()
        &&& applied_versions(self.applied@) == self.initial@.union(
            versions_of(self.pending@.take(self.next as int)),
        )
    }

    /// The run has ended: a migration failed or every one was committed.
    pub open spec fn finished(&self) -> bool {
        self.failure.is_some() || self.next == self.pending@.len()
    }

    /// The next thing to do: apply the next pending migration, or stop.
    pub fn next_step(&self) -> (r: RunStep)
        requires
            self.wf(),
        ensures
            self.failure matches Some(e) ==> r == RunStep::Done(Err(e)),
            self.failure is None && self.next == self.pending@.len() ==> r == RunStep::Done(Ok(())),
            self.failure is None && self.next < self.pending@.len() ==> (r matches RunStep::Apply(tx)
                && tx.script@ == self.pending@[self.next as int].up@
                && (tx.change matches BookkeepingChange::Insert(v) && v@ == mig_version(self.pending@[self.next as int]))),
    {
        match self.failure {
            Some(e) => RunStep::Done(Err(e)),
            None => {
                if self.next < self.pending.len() {
                    RunStep::Apply(self.pending[self.next].run())
                } else {
                    RunStep::Done(Ok(()))
                }
            },
        }
    }

    /// The migration whose failure ended the run, if one did.
    pub fn failed_migration(&self) -> (r: Option<EmbeddedMigration>)
        requires
            self.wf(),
        ensures
            self.failure is None ==> r is None,
            self.failure is Some && self.next < self.pending@.len() ==> r == Some(self.pending@[self.next as int]),
    {
        if self.failure.is_some() && self.next < self.pending.len() {
            Some(self.pending[self.next])
        } else {
            None
        }
    }

    /// Takes the outcome of the transaction that `next_step` asked for. On
    /// success its version joins the rows; on failure nothing was recorded, as
    /// the transaction rolled back, and the run stops with that error.
    pub fn record(&mut self, outcome: Result<(), MigrationError>)
        requires
            old(self).wf(),
            !old(self).finished(),
        ensures
            final(self).wf(),
            final(self).pending@ == old(self).pending@,
            final(self).set@ == old(self).set@,
            final(self).initial@ == old(self).initial@,
            outcome is Ok ==> final(self).next == old(self).next + 1 && final(self).failure is None
                && applied_versions(final(self).applied@) == applied_versions(old(self).applied@).insert(
                mig_version(old(self).pending@[old(self).next as int]),
            ),
            outcome matches Err(e) ==> final(self).next == old(self).next && final(self).failure == Some(e)
                && final(self).applied@ == old(self).applied@,
    {
        match outcome {
            Ok(()) => {
                let len = self.pending.len();
                assert(self.next < len);
                let m = self.pending[self.next];
                let v = m.version();
                let ghost old_applied = self.applied@;
                let ghost old_next = self.next as int;
                let n = self.next + 1;
                self.applied.push(Version { version: v });
                self.next = n;
                proof {
                    let vs = mig_version(m);
                    assert(applied_versions(self.applied@) =~= applied_versions(old_applied).insert(vs)) by {
                        assert forall|x: Seq<char>| applied_versions(old_applied).contains(x) implies applied_versions(
                            self.applied@,
                        ).contains(x) by {
                            let k = choose|k: int| 0 <= k < old_applied.len() && old_applied[k].version@ == x;
                            assert(self.applied@[k] == old_applied[k]);
                        }
                        assert(self.applied@[old_applied.len() as int].version@ == vs);
                    }
                    let p = self.pending@.take(old_next);
                    assert(self.pending@.take(self.next as int) =~= p.push(m));
                    assert(p.push(m).map_values(|m: EmbeddedMigration| mig_version(m)) =~= p.map_values(
                        |m: EmbeddedMigration| mig_version(m),
                    ).push(vs));
                    p.map_values(|m: EmbeddedMigration| mig_version(m)).lemma_push_to_set_commute(vs);
                    assert(versions_of(self.pending@.take(self.next as int)) == versions_of(p).insert(vs));
                    assert(applied_versions(self.applied@) =~= self.initial@.union(
                        versions_of(self.pending@.take(self.next as int)),
                    ));
                }
            },
            Err(e) => {
                self.failure = Some(e);
            },
        }
    }
}

/// Once a run has committed every pending migration, a second run against the
/// resulting rows finds nothing pending.
pub proof fn lemma_run_pending_idempotent(run: RunPending)
    requires
        run.wf(),
        run.failure is None,
        run.next == run.pending@.len(),
    ensures
        pending_of(run.set@, applied_versions(run.applied@)).len() == 0,
{
    let store = applied_versions(run.applied@);
    let set = run.set@;
    let pred = |m: EmbeddedMigration| !store.contains(mig_version(m));
    let ipred = |m: EmbeddedMigration| !run.initial@.contains(mig_version(m));
    assert(run.pending@.take(run.next as int) =~= run.pending@);
    if set.filter(pred).len() > 0 {
        let m = set.filter(pred)[0];
        set.lemma_filter_pred(pred, 0);
        set.lemma_filter_contains_rev(pred, m);
        let k = choose|k: int| 0 <= k < set.len() && set[k] == m;
        set.lemma_filter_contains(ipred, k);
        let f = set.filter(ipred);
        vstd::seq_lib::to_multiset_contains(f, m);
        vstd::seq_lib::to_multiset_contains(run.pending@, m);
        let j = choose|j: int| 0 <= j < run.pending@.len() && run.pending@[j] == m;
        let vs = run.pending@.map_values(|m: EmbeddedMigration| mig_version(m));
        assert(vs[j] == mig_version(m));
        assert(vs.to_set().contains(mig_version(m)));
    }
}

/// The migration engine: a fixed migration set and its one-time setup guard.
#[derive(Debug)]
pub struct EmbeddedMigrations {
    pub migrations: Vec<EmbeddedMigration>,
    pub setup_attempted: SetupGuard,
}

impl EmbeddedMigrations {
    /// An engine over `migrations` that has not yet tried to set up its table.
    pub fn new(migrations: Vec<EmbeddedMigration>) -> (r: EmbeddedMigrations)
        ensures
            r.migrations@ == migrations@,
            r.setup_attempted == SetupGuard::Unattempted,
    {
        EmbeddedMigrations { migrations, setup_attempted: SetupGuard::Unattempted }
    }

    /// An engine over `migrations`, refused when a name carries no version.
    pub fn checked_new(migrations: Vec<EmbeddedMigration>) -> (r: Result<EmbeddedMigrations, MigrationError>)
        ensures
            r.is_ok() == all_well_formed(migrations@),
            r matches Ok(e) ==> e.migrations@ == migrations@ && e.setup_attempted == SetupGuard::Unattempted,
            r matches Err(e) ==> e == MigrationError::InvalidMigrationName,
    {
        let mut i: usize = 0;
        while i < migrations.len()
            invariant
                0 <= i <= migrations@.len(),
                forall|k: int| 0 <= k < i ==> well_formed_name(#[trigger] migrations@[k].name@),
            decreases migrations@.len() - i,
        {
            if derive_version(migrations[i].name).is_err() {
                return Err(MigrationError::InvalidMigrationName);
            }
            i = i + 1;
        }
        Ok(EmbeddedMigrations::new(migrations))
    }

    /// The statement that creates the bookkeeping table; it may run any number
    /// of times.
    pub fn setup_migrations_table(&self) -> (r: &'static str)
        ensures
            r == SETUP_TABLE_SQL,
    {
        SETUP_TABLE_SQL
    }

    /// Moves the setup guard; true when the caller must now run the statement
    /// of `setup_migrations_table`, which happens on the first call only.
    pub fn ensure_migrations_table(&mut self) -> (create: bool)
        ensures
            create == (old(self).setup_attempted == SetupGuard::Unattempted),
            final(self).setup_attempted == SetupGuard::Attempted,
            final(self).migrations@ == old(self).migrations@,
    {
        self.setup_attempted.attempt()
    }

    /// The migrations not recorded in `applied`, sorted ascending by version.
    /// The rows are read once the table is ensured, so the guard has moved.
    pub fn pending_migrations(&mut self, applied: &[Version]) -> (r: Vec<EmbeddedMigration>)
        requires
            all_well_formed(old(self).migrations@),
        ensures
            final(self).setup_attempted == SetupGuard::Attempted,
            final(self).migrations@ == old(self).migrations@,
            r@.to_multiset() == pending_of(old(self).migrations@, applied_versions(applied@)).to_multiset(),
            sorted_by_version(r@),
            unique_versions(old(self).migrations@) ==> strictly_sorted_by_version(r@),
            forall|m: EmbeddedMigration| #[trigger] r@.contains(m) <==> (old(self).migrations@.contains(m)
                && !applied_versions(applied@).contains(mig_version(m))),
    {
        self.setup_attempted = SetupGuard::Attempted;
        compute_pending(self.migrations.as_slice(), applied)
    }

    /// Plans a run of the pending migrations against the rows in `applied`.
    /// The rows are read once the table is ensured, so the guard has moved.
    pub fn run_pending_migrations(&mut self, applied: &[Version]) -> (r: RunPending)
        requires
            all_well_formed(old(self).migrations@),
        ensures
            final(self).setup_attempted == SetupGuard::Attempted,
            final(self).migrations@ == old(self).migrations@,
            r.wf(),
            r.next == 0,
            r.failure is None,
            r.set@ == old(self).migrations@,
            r.initial@ == applied_versions(applied@),
    {
        self.setup_attempted = SetupGuard::Attempted;
        let pending = compute_pending(self.migrations.as_slice(), applied);
        let mut rows: Vec<Version> = Vec::new();
        let mut i: usize = 0;
        while i < applied.len()
            invariant
                0 <= i <= applied@.len(),
                rows@.len() == i,
                forall|k: int| 0 <= k < i ==> (#[trigger] rows@[k]).version@ == applied@[k].version@,
            decreases applied@.len() - i,
        {
            rows.push(Version { version: applied[i].version.clone() });
            i = i + 1;
        }
        let ghost initial = applied_versions(applied@);
        proof {
            assert forall|k: int| 0 <= k < pending@.len() implies well_formed_name(#[trigger] pending@[k].name@) by {
                let m = pending@[k];
                let f = pending_of(self.migrations@, initial);
                assert(pending@.contains(m));
                vstd::seq_lib::to_multiset_contains(pending@, m);
                vstd::seq_lib::to_multiset_contains(f, m);
                self.migrations@.lemma_filter_contains_rev(|m: EmbeddedMigration| !initial.contains(mig_version(m)), m);
                let j = choose|j: int| 0 <= j < self.migrations@.len() && self.migrations@[j] == m;
                assert(well_formed_name(self.migrations@[j].name@));
            }
            assert(pending@.take(0).map_values(|m: EmbeddedMigration| mig_version(m)).to_set() =~= Set::empty());
            assert forall|x: Seq<char>| applied_versions(rows@).contains(x) <==> applied_versions(applied@).contains(x) by {
                if applied_versions(rows@).contains(x) {
                    let k = choose|k: int| 0 <= k < rows@.len() && rows@[k].version@ == x;
                    assert(applied@[k].version@ == x);
                }
                if applied_versions(applied@).contains(x) {
                    let k = choose|k: int| 0 <= k < applied@.len() && applied@[k].version@ == x;
                    assert(rows@[k].version@ == x);
                }
            }
            assert(applied_versions(rows@) =~= applied_versions(applied@));
            assert(initial.union(versions_of(pending@.take(0))) =~= initial);
        }
        RunPending {
            pending,
            next: 0,
            failure: None,
            applied: rows,
            set: Ghost(self.migrations@),
            initial: Ghost(initial),
        }
    }

    /// Plans the revert of the last applied migration, given the rows newest
    /// first: `NotFound` when there is no row or no migration has the newest
    /// version, `NoReverseScript` when that migration cannot be reverted, and
    /// otherwise the transaction that reverts it. The rows are read once the
    /// table is ensured, so the guard has moved.
    pub fn revert_last_migration(&mut self, applied_desc: &[Version]) -> (r: Result<Transaction, MigrationError>)
        requires
            all_well_formed(old(self).migrations@),
        ensures
            final(self).setup_attempted == SetupGuard::Attempted,
            final(self).migrations@ == old(self).migrations@,
            r matches Err(e) ==> e == MigrationError::NotFound || e == MigrationError::NoReverseScript,
            (applied_desc@.len() > 0 && exists|i: int| #[trigger] first_with_version(old(self).migrations@, applied_desc@[0].version@, i)
                && old(self).migrations@[i].down is Some) ==> r is Ok,
            (r == Err::<Transaction, MigrationError>(MigrationError::NotFound)) <==> (applied_desc@.len() == 0
                || !exists|i: int| 0 <= i < old(self).migrations@.len() && mig_version(#[trigger] old(self).migrations@[i]) == applied_desc@[0].version@),
            (r == Err::<Transaction, MigrationError>(MigrationError::NoReverseScript)) <==> (applied_desc@.len() > 0
                && exists|i: int| #[trigger] first_with_version(old(self).migrations@, applied_desc@[0].version@, i)
                && old(self).migrations@[i].down is None),
            r matches Ok(tx) ==> (tx.change matches BookkeepingChange::Delete(v) && v@ == applied_desc@[0].version@)
                && exists|i: int| #[trigger] first_with_version(old(self).migrations@, applied_desc@[0].version@, i)
                && old(self).migrations@[i].down == Some(tx.script),
    {
        self.setup_attempted = SetupGuard::Attempted;
        match select_last(self.migrations.as_slice(), applied_desc) {
            Err(e) => Err(e),
            Ok(m) => {
                let ghost v = applied_desc@[0].version@;
                let ghost i = choose|i: int| first_with_version(self.migrations@, v, i) && self.migrations@[i] == m;
                proof {
                    assert(mig_version(self.migrations@[i]) == v);
                    assert forall|j: int| #[trigger] first_with_version(self.migrations@, v, j) implies j == i by {
                        if j < i {
                            assert(mig_version(self.migrations@[j]) != v);
                        } else if j > i {
                            assert(mig_version(self.migrations@[i]) != v);
                        }
                    }
                }
                m.revert()
            },
        }
    }
}

} // verus!
