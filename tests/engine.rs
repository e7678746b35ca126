use diesel_async_migrations::{
    is_migration_directory,
    compute_pending, derive_version, migrations_candidate, resolve_migrations_directory,
    search_for_migrations_directory, select_last, version_from_string, version_less, BookkeepingChange,
    EmbeddedMigration, EmbeddedMigrations, MigrationError, Resolution, RunStep, SearchStep, SetupGuard, Transaction,
    Version, SETUP_TABLE_SQL,
};

fn sample_set() -> Vec<EmbeddedMigration> {
    vec![
        EmbeddedMigration { up: "create table t;", down: Some("drop table t;"), name: "0001_create_t" },
        EmbeddedMigration { up: "alter table t add c;", down: Some("alter table t drop c;"), name: "0002_add_c" },
    ]
}

fn rows(vs: &[&str]) -> Vec<Version> {
    vs.iter().map(|v| Version::new(v.to_string())).collect()
}

fn names(ms: &[EmbeddedMigration]) -> Vec<&'static str> {
    ms.iter().map(|m| m.name).collect()
}

fn expect_apply(step: RunStep) -> Transaction {
    match step {
        RunStep::Apply(tx) => tx,
        RunStep::Done(r) => panic!("expected a transaction, got {:?}", r),
    }
}

fn inserted(tx: &Transaction) -> String {
    match &tx.change {
        BookkeepingChange::Insert(v) => v.clone(),
        BookkeepingChange::Delete(v) => panic!("expected an insert, got a delete of {}", v),
    }
}

#[test]
fn derive_version_strips_dashes_and_ignores_rest() {
    assert_eq!(derive_version("20240102030405_create_users"), Ok("20240102030405".to_string()));
    assert_eq!(derive_version("2024-01-02-030405_create_users"), Ok("20240102030405".to_string()));
    assert_eq!(derive_version("1-2_a-b_c-d"), Ok("12".to_string()));
    assert_eq!(derive_version("_nothing_before"), Ok(String::new()));
}

#[test]
fn derive_version_rejects_name_without_underscore() {
    assert_eq!(derive_version("20240102"), Err(MigrationError::InvalidMigrationName));
    assert_eq!(derive_version(""), Err(MigrationError::InvalidMigrationName));
}

#[test]
fn version_from_string_matches_derive_version() {
    assert_eq!(version_from_string("00-01_x"), Some("0001".to_string()));
    assert_eq!(version_from_string("0001"), None);
}

#[test]
fn migration_version_method() {
    let m = EmbeddedMigration { up: "select 1;", down: None, name: "2023-12-31_last" };
    assert_eq!(m.version(), "20231231");
}

#[test]
fn version_order_is_lexicographic() {
    assert!(version_less("0001", "0002"));
    assert!(!version_less("0002", "0001"));
    assert!(!version_less("0001", "0001"));
    assert!(version_less("10", "9"));
    assert!(version_less("001", "0010"));
    assert!(!version_less("0010", "001"));
    assert!(version_less("", "0"));
}

#[test]
fn pending_is_filtered_and_sorted() {
    let set = vec![
        EmbeddedMigration { up: "c;", down: None, name: "0003_c" },
        EmbeddedMigration { up: "a;", down: None, name: "0001_a" },
        EmbeddedMigration { up: "d;", down: None, name: "0004_d" },
        EmbeddedMigration { up: "b;", down: None, name: "0002_b" },
    ];
    let r = compute_pending(&set, &rows(&["0002", "0009"]));
    assert_eq!(names(&r), vec!["0001_a", "0003_c", "0004_d"]);
    let none = compute_pending(&set, &rows(&["0001", "0002", "0003", "0004"]));
    assert!(none.is_empty());
    let empty = compute_pending(&[], &rows(&["0001"]));
    assert!(empty.is_empty());
}

#[test]
fn pending_keeps_migrations_that_share_a_version() {
    let set = vec![
        EmbeddedMigration { up: "b;", down: None, name: "0002_b" },
        EmbeddedMigration { up: "x;", down: None, name: "0001_x" },
        EmbeddedMigration { up: "y;", down: None, name: "00-01_y" },
    ];
    let r = compute_pending(&set, &[]);
    assert_eq!(names(&r), vec!["0001_x", "00-01_y", "0002_b"]);
}

#[test]
fn pending_after_first_applied_is_second() {
    let mut engine = EmbeddedMigrations::new(sample_set());
    let r = engine.pending_migrations(&rows(&["0001"]));
    assert_eq!(names(&r), vec!["0002_add_c"]);
}

#[test]
fn setup_is_attempted_once() {
    let mut engine = EmbeddedMigrations::new(sample_set());
    assert_eq!(engine.setup_attempted, SetupGuard::Unattempted);
    assert!(engine.ensure_migrations_table());
    assert_eq!(engine.setup_attempted, SetupGuard::Attempted);
    assert!(!engine.ensure_migrations_table());
    assert!(!engine.ensure_migrations_table());
    assert_eq!(engine.setup_migrations_table(), SETUP_TABLE_SQL);
    assert!(SETUP_TABLE_SQL.contains("IF NOT EXISTS"));
}

#[test]
fn run_applies_in_order_then_revert_last_removes_newest() {
    let mut engine = EmbeddedMigrations::new(sample_set());
    let mut run = engine.run_pending_migrations(&[]);
    let first = expect_apply(run.next_step());
    assert_eq!(first.script, "create table t;");
    assert_eq!(inserted(&first), "0001");
    run.record(Ok(()));
    let second = expect_apply(run.next_step());
    assert_eq!(second.script, "alter table t add c;");
    assert_eq!(inserted(&second), "0002");
    run.record(Ok(()));
    assert!(matches!(run.next_step(), RunStep::Done(Ok(()))));
    assert!(run.failed_migration().is_none());
    let mut stored: Vec<String> = run.applied.iter().map(|v| v.version.clone()).collect();
    stored.sort();
    assert_eq!(stored, vec!["0001".to_string(), "0002".to_string()]);

    let tx = engine.revert_last_migration(&rows(&["0002", "0001"])).unwrap();
    assert_eq!(tx.script, "alter table t drop c;");
    assert!(matches!(&tx.change, BookkeepingChange::Delete(v) if v.as_str() == "0002"));
    let left = engine.pending_migrations(&rows(&["0001"]));
    assert_eq!(names(&left), vec!["0002_add_c"]);
}

#[test]
fn second_run_finds_nothing_pending() {
    let mut engine = EmbeddedMigrations::new(sample_set());
    let mut run = engine.run_pending_migrations(&[]);
    while let RunStep::Apply(_) = run.next_step() {
        run.record(Ok(()));
    }
    assert!(engine.pending_migrations(&run.applied).is_empty());
    let again = engine.run_pending_migrations(&run.applied);
    assert!(matches!(again.next_step(), RunStep::Done(Ok(()))));
}

#[test]
fn failed_apply_records_nothing_and_stops() {
    let mut engine = EmbeddedMigrations::new(sample_set());
    let mut run = engine.run_pending_migrations(&rows(&["0000"]));
    let _ = expect_apply(run.next_step());
    run.record(Err(MigrationError::ExecutionFailure));
    assert_eq!(run.next, 0);
    assert_eq!(run.failure, Some(MigrationError::ExecutionFailure));
    assert_eq!(run.applied.len(), 1);
    assert_eq!(run.applied[0].version, "0000");
    assert!(matches!(run.next_step(), RunStep::Done(Err(MigrationError::ExecutionFailure))));
    assert_eq!(run.failed_migration().map(|m| m.name), Some("0001_create_t"));
    let retry = engine.pending_migrations(&run.applied);
    assert_eq!(names(&retry), vec!["0001_create_t", "0002_add_c"]);
}

#[test]
fn store_conflict_stops_the_run() {
    let mut engine = EmbeddedMigrations::new(sample_set());
    let mut run = engine.run_pending_migrations(&[]);
    run.record(Ok(()));
    run.record(Err(MigrationError::StoreConflict));
    assert_eq!(run.next, 1);
    assert!(matches!(run.next_step(), RunStep::Done(Err(MigrationError::StoreConflict))));
}

#[test]
fn apply_then_revert_names_the_same_row() {
    let m = sample_set()[0];
    let up = m.run();
    let down = m.revert().unwrap();
    assert_eq!(up.script, "create table t;");
    assert_eq!(down.script, "drop table t;");
    assert!(matches!(&up.change, BookkeepingChange::Insert(v) if v.as_str() == "0001"));
    assert!(matches!(&down.change, BookkeepingChange::Delete(v) if v.as_str() == "0001"));
}

#[test]
fn revert_last_not_found_cases() {
    let mut engine = EmbeddedMigrations::new(sample_set());
    assert!(matches!(engine.revert_last_migration(&[]), Err(MigrationError::NotFound)));
    assert!(matches!(engine.revert_last_migration(&rows(&["0003", "0002"])), Err(MigrationError::NotFound)));
    assert!(matches!(select_last(&sample_set(), &[]), Err(MigrationError::NotFound)));
    let picked = select_last(&sample_set(), &rows(&["0001"])).unwrap();
    assert_eq!(picked.name, "0001_create_t");
}

#[test]
fn revert_of_irreversible_migration_is_refused() {
    let set = vec![EmbeddedMigration { up: "create table u;", down: None, name: "0001_u" }];
    let mut engine = EmbeddedMigrations::new(set);
    assert!(matches!(engine.revert_last_migration(&rows(&["0001"])), Err(MigrationError::NoReverseScript)));
    assert!(matches!(engine.migrations[0].revert(), Err(MigrationError::NoReverseScript)));
}

#[test]
fn search_steps_upward() {
    assert_eq!(migrations_candidate("/a/b"), "/a/b/migrations");
    assert_eq!(search_for_migrations_directory("/a/b", true), SearchStep::Found("/a/b/migrations".to_string()));
    assert_eq!(search_for_migrations_directory("/a/b", false), SearchStep::Ascend("/a".to_string()));
    assert_eq!(search_for_migrations_directory("/", false), SearchStep::Exhausted);
}

#[test]
fn resolve_given_or_search_from_src() {
    assert_eq!(
        resolve_migrations_directory("/work/app", Some("db/migrations")),
        Resolution::Given("/work/app/db/migrations".to_string())
    );
    assert_eq!(resolve_migrations_directory("/work/app", Some("/abs")), Resolution::Given("/abs".to_string()));
    assert_eq!(resolve_migrations_directory("/work/app", None), Resolution::SearchFrom("/work/app/src".to_string()));
}

#[test]
fn checked_new_refuses_unversioned_names() {
    let bad = vec![
        EmbeddedMigration { up: "a;", down: None, name: "0001_a" },
        EmbeddedMigration { up: "b;", down: None, name: "nounderscore" },
    ];
    assert!(matches!(EmbeddedMigrations::checked_new(bad), Err(MigrationError::InvalidMigrationName)));
    let good = EmbeddedMigrations::checked_new(sample_set()).unwrap();
    assert_eq!(good.migrations.len(), 2);
    assert_eq!(good.setup_attempted, SetupGuard::Unattempted);
}

#[test]
fn hidden_entries_and_files_are_not_migrations() {
    assert!(is_migration_directory("2024-01-01-000000_init", false));
    assert!(!is_migration_directory("2024-01-01-000000_init", true));
    assert!(!is_migration_directory(".keep", false));
    assert!(is_migration_directory("", false));
}

#[test]
fn every_entry_point_moves_the_guard() {
    let mut a = EmbeddedMigrations::new(sample_set());
    let _ = a.revert_last_migration(&[]);
    assert_eq!(a.setup_attempted, SetupGuard::Attempted);
    let mut b = EmbeddedMigrations::new(sample_set());
    let _ = b.pending_migrations(&[]);
    assert_eq!(b.setup_attempted, SetupGuard::Attempted);
    let mut c = EmbeddedMigrations::new(sample_set());
    let _ = c.run_pending_migrations(&[]);
    assert_eq!(c.setup_attempted, SetupGuard::Attempted);
}

#[test]
fn revert_last_with_reverse_script_succeeds() {
    let mut engine = EmbeddedMigrations::new(sample_set());
    let tx = engine.revert_last_migration(&rows(&["0001"])).unwrap();
    assert_eq!(tx.script, "drop table t;");
    assert!(matches!(&tx.change, BookkeepingChange::Delete(v) if v.as_str() == "0001"));
}
