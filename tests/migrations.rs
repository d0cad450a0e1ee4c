use node_migrations::bookkeeping::{recorded_from_count, run_on_timestamp, EARLIEST_TIMESTAMP, LATEST_TIMESTAMP};
use node_migrations::registry::Migrator;
use node_migrations::session::{lock_strategy, Action, Event, LockStrategy, Purpose, Session};
use node_migrations::status::{MigrationError, MigrationFailure, MigrationStatus};
use node_migrations::step::{AppliedSql, CodeStep, SqlStep, StepKind};
use node_migrations::version::Version;
use node_migrations::walk::{Route, LEGACY_IMPORT_NAME};

/// An in-memory database: its bookkeeping tables, those of a legacy source, and a log of
/// the writes in the order they happened.
#[derive(Default)]
struct Db {
    dirty: Option<Version>,
    sql: Vec<AppliedSql>,
    code: Vec<String>,
    legacy: Vec<String>,
    writes: Vec<String>,
    runs: Vec<String>,
    failing: Vec<String>,
}

impl Db {
    fn has(&self, route: Route, name: &str) -> bool {
        match route {
            Route::Main => self.code.iter().any(|n| n == name),
            Route::Legacy => self.legacy.iter().any(|n| n == name),
        }
    }

    fn rows(&self) -> usize {
        self.sql.len() + self.code.len() + self.legacy.len()
    }
}

type Reg = Migrator<(), ()>;

fn drive(reg: &Reg, db: &mut Db, purpose: Purpose, up_to: Version, lock: Option<LockStrategy>) -> Result<MigrationStatus, MigrationError> {
    let (mut session, mut action) = Session::start(reg, purpose, up_to, lock);
    loop {
        let event = match action {
            Action::Finish(r) => return r,
            Action::LoadHistory => {
                let mut listed = db.sql.clone();
                listed.sort_by_key(|r| r.version.0);
                Event::Loaded(db.dirty, listed)
            }
            Action::ApplySql(i) => {
                let s = &reg.sql_steps()[i];
                db.sql.push(AppliedSql { version: s.version, checksum: s.checksum.clone() });
                db.writes.push(format!("sql@{}", s.version.0));
                Event::Completed
            }
            Action::CheckCode(i, route) => Event::Checked(db.has(route, &reg.code_steps()[i].name)),
            Action::RunCode(i, route) => {
                let c = &reg.code_steps()[i];
                db.runs.push(c.name.clone());
                if let Some(p) = db.failing.iter().position(|n| *n == c.name) {
                    db.failing.remove(p);
                    Event::Failed
                } else {
                    match route {
                        Route::Main => db.code.push(c.name.clone()),
                        Route::Legacy => db.legacy.push(c.name.clone()),
                    }
                    db.writes.push(format!("code@{}", c.version.0));
                    Event::Completed
                }
            }
            Action::Lock(_) | Action::Unlock(_) => Event::Completed,
        };
        action = session.resume(reg, event);
    }
}

fn migrate(reg: &Reg, db: &mut Db) -> Result<MigrationStatus, MigrationError> {
    drive(reg, db, Purpose::Migrate, Version::highest(), Some(LockStrategy::AdvisoryLock))
}

fn migrate_up_to(reg: &Reg, db: &mut Db, v: i64) -> Result<MigrationStatus, MigrationError> {
    drive(reg, db, Purpose::Migrate, Version(v), Some(LockStrategy::ExclusivePragma))
}

fn status(reg: &Reg, db: &mut Db) -> Result<MigrationStatus, MigrationError> {
    drive(reg, db, Purpose::Status, Version::highest(), None)
}

fn sql_step(version: i64, description: &str) -> SqlStep {
    SqlStep {
        version: Version(version),
        description: description.to_string(),
        checksum: format!("sum-{}", version).into_bytes(),
        kind: StepKind::Simple,
    }
}

fn code_step(version: i64, name: &str) -> CodeStep<()> {
    CodeStep { version: Version(version), name: name.to_string(), operation: () }
}

fn registry(sql: Vec<SqlStep>, code: Vec<CodeStep<()>>) -> Reg {
    let mut reg: Reg = Migrator::new(sql).unwrap();
    reg.set_rust_migrations(code).unwrap();
    reg
}

fn scenario_registry() -> Reg {
    registry(
        vec![sql_step(200, "second"), sql_step(100, "first")],
        vec![code_step(200, "fill_second"), code_step(100, "fill_first")],
    )
}

fn up_to_date(r: Result<MigrationStatus, MigrationError>) -> i64 {
    match r {
        Ok(MigrationStatus::UpToDate(v)) => v.0,
        other => panic!("expected an up-to-date status, got {:?}", other),
    }
}

#[test]
fn fresh_database_applies_every_step_in_order() {
    let reg = scenario_registry();
    let mut db = Db::default();
    assert_eq!(up_to_date(migrate(&reg, &mut db)), 200);
    assert_eq!(db.writes, vec!["sql@100", "code@100", "sql@200", "code@200"]);
}

#[test]
fn rerun_with_identical_registry_changes_nothing() {
    let reg = scenario_registry();
    let mut db = Db::default();
    migrate(&reg, &mut db).unwrap();
    let rows = db.rows();
    assert_eq!(up_to_date(status(&reg, &mut db)), 200);
    assert_eq!(db.rows(), rows);
    assert_eq!(up_to_date(migrate(&reg, &mut db)), i64::MAX);
    assert_eq!(db.rows(), rows);
}

#[test]
fn added_sql_step_is_pending_then_applied_alone() {
    let reg = scenario_registry();
    let mut db = Db::default();
    migrate(&reg, &mut db).unwrap();
    let reg = registry(
        vec![sql_step(200, "second"), sql_step(100, "first"), sql_step(150, "between")],
        vec![code_step(200, "fill_second"), code_step(100, "fill_first")],
    );
    match status(&reg, &mut db) {
        Ok(MigrationStatus::Todo(last, next)) => {
            assert_eq!(last, Some(Version(200)));
            assert_eq!(next, Version(150));
        }
        other => panic!("expected a pending status, got {:?}", other),
    }
    db.writes.clear();
    db.runs.clear();
    assert_eq!(up_to_date(migrate(&reg, &mut db)), 200);
    assert_eq!(db.writes, vec!["sql@150"]);
    assert!(db.runs.is_empty());
}

#[test]
fn corrupted_checksum_is_a_hard_error() {
    let reg = scenario_registry();
    let mut db = Db::default();
    migrate(&reg, &mut db).unwrap();
    let rec = db.sql.iter_mut().find(|r| r.version.0 == 100).unwrap();
    rec.checksum = b"tampered".to_vec();
    match status(&reg, &mut db) {
        Err(MigrationError::ChecksumMismatch { version, description }) => {
            assert_eq!(version, Version(100));
            assert_eq!(description, "first");
        }
        other => panic!("expected a checksum error, got {:?}", other),
    }
    let rows = db.rows();
    db.writes.clear();
    assert!(matches!(migrate(&reg, &mut db), Err(MigrationError::ChecksumMismatch { .. })));
    assert!(db.writes.is_empty());
    assert_eq!(db.rows(), rows);
}

#[test]
fn failing_code_step_stays_unrecorded_until_it_succeeds() {
    let reg = registry(
        vec![sql_step(200, "second"), sql_step(100, "first")],
        vec![code_step(200, "fill_second"), code_step(100, "fill_first"), code_step(250, "flaky")],
    );
    let mut db = Db::default();
    db.failing.push("flaky".to_string());
    assert!(matches!(migrate(&reg, &mut db), Err(MigrationError::Interrupted)));
    assert!(!db.code.iter().any(|n| n == "flaky"));
    assert_eq!(up_to_date(migrate(&reg, &mut db)), 250);
    assert!(db.code.iter().any(|n| n == "flaky"));
    assert_eq!(db.runs.iter().filter(|n| *n == "flaky").count(), 2);
}

#[test]
fn legacy_import_already_recorded_in_source_is_skipped() {
    let mut reg = registry(
        vec![sql_step(100, "first")],
        vec![code_step(100, "fill_first"), code_step(300, LEGACY_IMPORT_NAME)],
    );
    reg.set_legacy_sqlite_database(Some(()));
    let mut db = Db::default();
    db.legacy.push(LEGACY_IMPORT_NAME.to_string());
    assert_eq!(up_to_date(migrate(&reg, &mut db)), 300);
    assert!(!db.runs.iter().any(|n| n == LEGACY_IMPORT_NAME));
    assert!(!db.code.iter().any(|n| n == LEGACY_IMPORT_NAME));
}

#[test]
fn legacy_import_runs_once_and_is_recorded_in_source() {
    let mut reg = registry(vec![], vec![code_step(300, LEGACY_IMPORT_NAME)]);
    reg.set_legacy_sqlite_database(Some(()));
    let mut db = Db::default();
    assert_eq!(up_to_date(migrate(&reg, &mut db)), 300);
    assert_eq!(db.legacy, vec![LEGACY_IMPORT_NAME.to_string()]);
    assert!(db.code.is_empty());
    assert_eq!(up_to_date(migrate(&reg, &mut db)), 300);
    assert_eq!(db.runs.len(), 1);
}

#[test]
fn legacy_import_without_source_is_passed_over() {
    let reg = registry(vec![], vec![code_step(300, LEGACY_IMPORT_NAME)]);
    let mut db = Db::default();
    assert_eq!(up_to_date(migrate(&reg, &mut db)), 300);
    assert!(db.runs.is_empty());
    assert_eq!(db.rows(), 0);
}

#[test]
fn fresh_migration_records_exactly_the_steps_up_to_the_target() {
    let mut down = sql_step(120, "undo");
    down.kind = StepKind::ReversibleDown;
    let reg = registry(
        vec![sql_step(100, "first"), down, sql_step(200, "second"), sql_step(300, "third")],
        vec![code_step(100, "a"), code_step(250, "b"), code_step(400, "c")],
    );
    let mut db = Db::default();
    assert_eq!(up_to_date(migrate_up_to(&reg, &mut db, 250)), 250);
    let mut versions: Vec<i64> = db.sql.iter().map(|r| r.version.0).collect();
    versions.sort();
    assert_eq!(versions, vec![100, 200]);
    assert!(db.sql.iter().all(|r| r.checksum == format!("sum-{}", r.version.0).into_bytes()));
    assert_eq!(db.code, vec!["a".to_string(), "b".to_string()]);
}

#[test]
fn second_migration_to_same_version_writes_nothing() {
    let reg = scenario_registry();
    let mut db = Db::default();
    up_to_date(migrate_up_to(&reg, &mut db, 150));
    let rows = db.rows();
    up_to_date(migrate_up_to(&reg, &mut db, 150));
    assert_eq!(db.rows(), rows);
    assert_eq!(db.writes, vec!["sql@100", "code@100"]);
}

#[test]
fn migrating_in_two_stages_matches_migrating_at_once() {
    let reg = scenario_registry();
    let mut staged = Db::default();
    migrate_up_to(&reg, &mut staged, 100).unwrap();
    migrate_up_to(&reg, &mut staged, 200).unwrap();
    let mut direct = Db::default();
    migrate_up_to(&reg, &mut direct, 200).unwrap();
    assert_eq!(staged.writes, direct.writes);
    assert_eq!(staged.code, direct.code);
    assert_eq!(staged.sql.len(), direct.sql.len());
}

#[test]
fn sql_step_is_applied_before_code_step_at_equal_version() {
    let reg = registry(vec![sql_step(7, "table")], vec![code_step(7, "rows")]);
    let mut db = Db::default();
    migrate(&reg, &mut db).unwrap();
    assert_eq!(db.writes, vec!["sql@7", "code@7"]);
}

#[test]
fn tampered_record_is_reported_by_applying_walk_as_failed() {
    let reg = scenario_registry();
    let mut db = Db::default();
    migrate_up_to(&reg, &mut db, 100).unwrap();
    // a new step comes first, so planning finds work before the tampered record
    let reg = registry(
        vec![sql_step(200, "second"), sql_step(100, "first"), sql_step(50, "early")],
        vec![code_step(200, "fill_second"), code_step(100, "fill_first")],
    );
    db.sql[0].checksum = b"changed".to_vec();
    match migrate(&reg, &mut db) {
        Ok(MigrationStatus::Failed(v, MigrationFailure::ChecksumMismatch { description, expected, actual })) => {
            assert_eq!(v, Version(100));
            assert_eq!(description, "first");
            assert_eq!(expected, b"sum-100".to_vec());
            assert_eq!(actual, b"changed".to_vec());
        }
        other => panic!("expected a failed status, got {:?}", other),
    }
    assert!(db.writes.contains(&"sql@50".to_string()));
}

#[test]
fn dirty_version_fails_status_and_migration() {
    let reg = scenario_registry();
    let mut db = Db::default();
    db.dirty = Some(Version(100));
    assert!(matches!(status(&reg, &mut db), Ok(MigrationStatus::Failed(Version(100), MigrationFailure::DirtyVersion))));
    assert!(matches!(
        migrate(&reg, &mut db),
        Err(MigrationError::PreviouslyFailed(Version(100), MigrationFailure::DirtyVersion))
    ));
    assert!(db.writes.is_empty());
}

#[test]
fn unknown_backend_cannot_be_locked() {
    let reg = scenario_registry();
    let mut db = Db::default();
    let r = drive(&reg, &mut db, Purpose::Migrate, Version::highest(), None);
    assert!(matches!(r, Err(MigrationError::LockUnavailable)));
    assert!(db.writes.is_empty());
}

#[test]
fn down_scripts_are_never_run() {
    let mut down = sql_step(100, "undo");
    down.kind = StepKind::ReversibleDown;
    let reg = registry(vec![down], vec![]);
    let mut db = Db::default();
    assert_eq!(up_to_date(status(&reg, &mut db)), 100);
    assert_eq!(up_to_date(migrate(&reg, &mut db)), i64::MAX);
    assert!(db.writes.is_empty());
    assert!(StepKind::ReversibleDown.is_down());
    assert!(!StepKind::ReversibleUp.is_down());
}

#[test]
fn empty_registry_is_up_to_date_at_lowest_version() {
    let reg = registry(vec![], vec![]);
    let mut db = Db::default();
    assert_eq!(up_to_date(status(&reg, &mut db)), 0);
}

#[test]
fn duplicate_sql_version_is_refused() {
    let r: Result<Reg, MigrationError> = Migrator::new(vec![sql_step(1, "a"), sql_step(2, "b"), sql_step(1, "c")]);
    assert!(matches!(r, Err(MigrationError::DuplicateVersion(Version(1)))));
}

#[test]
fn duplicate_code_version_is_refused_and_keeps_registry() {
    let mut reg = registry(vec![sql_step(1, "a")], vec![code_step(5, "x")]);
    let r = reg.set_rust_migrations(vec![code_step(3, "y"), code_step(3, "z")]);
    assert!(matches!(r, Err(MigrationError::DuplicateVersion(Version(3)))));
    assert_eq!(reg.code_steps().len(), 1);
    assert_eq!(reg.code_steps()[0].name, "x");
}

#[test]
fn same_version_in_both_families_is_allowed() {
    let reg = registry(vec![sql_step(1, "a")], vec![code_step(1, "x")]);
    assert_eq!(reg.sql_steps().len(), 1);
    assert!(!reg.has_legacy_source());
    assert!(reg.legacy_source().is_none());
}

#[test]
fn ordered_steps_filters_and_orders() {
    let reg = registry(
        vec![sql_step(300, "c"), sql_step(100, "a")],
        vec![code_step(100, "x"), code_step(200, "y")],
    );
    let plan = reg.ordered_steps(Version(200));
    let shown: Vec<(bool, i64)> = plan.iter().map(|s| (s.is_sql(), s.version().value())).collect();
    assert_eq!(shown, vec![(true, 100), (false, 100), (false, 200)]);
}

#[test]
fn run_on_timestamp_accepts_the_representable_range() {
    assert!(matches!(run_on_timestamp(1_700_000_000), Ok(1_700_000_000)));
    assert!(matches!(run_on_timestamp(LATEST_TIMESTAMP as u64), Ok(253_402_300_799)));
    assert!(matches!(run_on_timestamp(LATEST_TIMESTAMP as u64 + 1), Err(MigrationError::ClockError(253_402_300_800))));
    // a reading beyond i64::MAX wraps to a negative timestamp
    assert!(matches!(run_on_timestamp(u64::MAX), Ok(-1)));
    assert!(matches!(run_on_timestamp(1u64 << 63), Err(MigrationError::ClockError(_))));
    assert_eq!(EARLIEST_TIMESTAMP, -377_705_116_800);
}

#[test]
fn recorded_from_count_reads_the_count_row() {
    assert!(recorded_from_count(Some(1)));
    assert!(recorded_from_count(Some(3)));
    assert!(!recorded_from_count(Some(0)));
    assert!(!recorded_from_count(None));
}

#[test]
fn lock_strategy_follows_backend_name() {
    assert_eq!(lock_strategy(&"SQLite".to_string()), Some(LockStrategy::ExclusivePragma));
    assert_eq!(lock_strategy(&"PostgreSQL".to_string()), Some(LockStrategy::AdvisoryLock));
    assert_eq!(lock_strategy(&"MySQL".to_string()), None);
}

#[test]
fn version_bounds() {
    assert_eq!(Version::lowest(), Version(0));
    assert_eq!(Version::highest(), Version(i64::MAX));
    assert_eq!(Version(42).value(), 42);
}
