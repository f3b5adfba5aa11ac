use chm::catalog::{build_catalog, MigrationUnit};
use chm::cli::SetupArgs;
use chm::errors::{CLIError, ExecError, MigrationError, StoreError};
use chm::executor::{apply_unit_plan, revert_unit_plan, StoreAction};
use chm::ledger::{most_recently_applied, MigrationRow};
use chm::orchestrate::{plan_run, plan_revert};
use chm::reconcile::{applied_not_in_catalog, ensure_migrations_sync, pending_units};

fn unit(version: &str, name: &str) -> MigrationUnit {
    MigrationUnit { version: version.to_string(), name: name.to_string() }
}

fn row(version: &str, ran_at: u32) -> MigrationRow {
    MigrationRow { version: version.to_string(), ran_at }
}

#[test]
fn pending_is_the_unapplied_part_of_the_catalog_in_order() {
    let catalog = vec![
        unit("2024-01-01-000000", "one"),
        unit("2024-01-02-000000", "two"),
        unit("2024-01-03-000000", "three"),
    ];
    let ledger = vec![row("2024-01-02-000000", 10)];
    let pending = pending_units(&catalog, &ledger);
    let versions: Vec<&str> = pending.iter().map(|u| u.version.as_str()).collect();
    assert_eq!(versions, vec!["2024-01-01-000000", "2024-01-03-000000"]);
}

#[test]
fn catalog_load_sorts_whatever_order_the_scan_returned() {
    let entries = vec![
        "2024-01-03-000000_three".to_string(),
        "2024-01-01-000000_one".to_string(),
        "2024-01-02-000000_two".to_string(),
    ];
    let scrambled = vec![entries[1].clone(), entries[2].clone(), entries[0].clone()];
    let a = build_catalog(&entries).unwrap();
    let b = build_catalog(&scrambled).unwrap();
    let va: Vec<&str> = a.iter().map(|u| u.version.as_str()).collect();
    let vb: Vec<&str> = b.iter().map(|u| u.version.as_str()).collect();
    assert_eq!(va, vec!["2024-01-01-000000", "2024-01-02-000000", "2024-01-03-000000"]);
    assert_eq!(va, vb);
}

#[test]
fn catalog_load_rejects_a_malformed_entry() {
    let entries = vec!["2024-01-01-000000_ok".to_string(), "junk".to_string()];
    let e = build_catalog(&entries).unwrap_err();
    assert!(matches!(e, MigrationError::BadInput { entry } if entry == "junk"));
}

#[test]
fn sync_check_reports_the_drifted_rows() {
    let catalog = vec![unit("2024-01-01-000000", "one")];
    let ledger = vec![row("2024-01-01-000000", 1), row("2020-05-05-050505", 2)];
    let drifted = applied_not_in_catalog(&catalog, &ledger);
    assert_eq!(drifted.len(), 1);
    assert_eq!(drifted[0].version, "2020-05-05-050505");
    let e = ensure_migrations_sync(&catalog, &ledger).unwrap_err();
    assert!(matches!(e, MigrationError::Drift { records } if records.len() == 1));
}

#[test]
fn run_refuses_drift_before_planning_anything() {
    let catalog: Vec<MigrationUnit> = Vec::new();
    let ledger = vec![row("2024-01-01-000000", 1)];
    let e = plan_run(&catalog, &ledger).unwrap_err();
    assert!(matches!(e, MigrationError::Drift { records } if records.len() == 1));
    let e = plan_revert(&catalog, &ledger).unwrap_err();
    assert!(matches!(e, MigrationError::Drift { .. }));
}

#[test]
fn one_unit_runs_reverts_and_then_nothing_is_left_to_revert() {
    let catalog = vec![unit("2024-01-01-000000", "v1")];
    let mut ledger: Vec<MigrationRow> = Vec::new();

    let pending = plan_run(&catalog, &ledger).unwrap();
    assert_eq!(pending.len(), 1);
    let plan = apply_unit_plan(&pending[0], "CREATE TABLE t (x Int32) ENGINE=Memory;", 42);
    assert_eq!(plan.len(), 2);
    match &plan[0] {
        StoreAction::Execute { statement } => {
            assert_eq!(statement, "CREATE TABLE t (x Int32) ENGINE=Memory");
        },
        _ => panic!("the first action must execute the statement"),
    }
    match &plan[1] {
        StoreAction::Insert { row } => {
            assert_eq!(row.version, "2024-01-01-000000");
            assert_eq!(row.ran_at, 42);
            ledger.push(MigrationRow { version: row.version.clone(), ran_at: row.ran_at });
        },
        _ => panic!("the last action must record the unit"),
    }
    assert_eq!(ledger.len(), 1);

    let target = plan_revert(&catalog, &ledger).unwrap();
    assert_eq!(target.version, "2024-01-01-000000");
    let plan = revert_unit_plan(&target, "DROP TABLE t;");
    assert_eq!(plan.len(), 2);
    match &plan[0] {
        StoreAction::Execute { statement } => assert_eq!(statement, "DROP TABLE t"),
        _ => panic!("the first action must execute the statement"),
    }
    match &plan[1] {
        StoreAction::Delete { version } => {
            assert_eq!(version, "2024-01-01-000000");
            ledger.retain(|r| &r.version != version);
        },
        _ => panic!("the last action must delete the row"),
    }
    assert_eq!(ledger.len(), 0);

    let e = plan_revert(&catalog, &ledger).unwrap_err();
    assert!(matches!(e, MigrationError::NothingToRevert));
}

#[test]
fn a_second_run_has_nothing_left_to_apply() {
    let catalog = vec![unit("2024-01-01-000000", "one"), unit("2024-01-02-000000", "two")];
    let mut ledger: Vec<MigrationRow> = Vec::new();
    let pending = plan_run(&catalog, &ledger).unwrap();
    assert_eq!(pending.len(), 2);
    for (k, u) in pending.iter().enumerate() {
        ledger.push(MigrationRow { version: u.version.clone(), ran_at: k as u32 });
    }
    let pending = plan_run(&catalog, &ledger).unwrap();
    assert_eq!(pending.len(), 0);
}

#[test]
fn run_applies_in_ascending_version_order() {
    let entries = vec![
        "2024-01-02-000000_b".to_string(),
        "2024-01-03-000000_c".to_string(),
        "2024-01-01-000000_a".to_string(),
    ];
    let catalog = build_catalog(&entries).unwrap();
    let ledger: Vec<MigrationRow> = Vec::new();
    let pending = plan_run(&catalog, &ledger).unwrap();
    let versions: Vec<&str> = pending.iter().map(|u| u.version.as_str()).collect();
    assert_eq!(versions, vec!["2024-01-01-000000", "2024-01-02-000000", "2024-01-03-000000"]);
}

#[test]
fn the_most_recent_row_wins_by_time_then_version() {
    let ledger = vec![
        row("2024-01-03-000000", 5),
        row("2024-01-01-000000", 9),
        row("2024-01-02-000000", 7),
    ];
    assert_eq!(most_recently_applied(&ledger).unwrap(), "2024-01-01-000000");
    let tied = vec![row("2024-01-01-000000", 5), row("2024-01-02-000000", 5)];
    assert_eq!(most_recently_applied(&tied).unwrap(), "2024-01-02-000000");
    let empty: Vec<MigrationRow> = Vec::new();
    assert!(most_recently_applied(&empty).is_none());
}

#[test]
fn revert_targets_only_the_most_recent_unit() {
    let catalog = vec![unit("2024-01-01-000000", "one"), unit("2024-01-02-000000", "two")];
    let ledger = vec![row("2024-01-01-000000", 1), row("2024-01-02-000000", 2)];
    let target = plan_revert(&catalog, &ledger).unwrap();
    assert_eq!(target.version, "2024-01-02-000000");
    assert_eq!(target.name, "two");
}

#[test]
fn revert_follows_application_time_not_version_order() {
    let catalog = vec![unit("2024-01-01-000000", "one"), unit("2024-01-02-000000", "two")];
    let ledger = vec![row("2024-01-01-000000", 9), row("2024-01-02-000000", 3)];
    let target = plan_revert(&catalog, &ledger).unwrap();
    assert_eq!(target.version, "2024-01-01-000000");
    assert_eq!(target.name, "one");
}

#[test]
fn failures_are_classified_by_the_failing_action() {
    let version = "2024-01-01-000000".to_string();
    let execute = StoreAction::Execute { statement: "CREATE TABLE t".to_string() };
    let e = execute.failure(&version, StoreError { message: "boom".to_string() });
    assert!(matches!(e, ExecError::Apply { version: v, cause } if v == version && cause.message == "boom"));
    let insert = StoreAction::Insert { row: row("2024-01-01-000000", 1) };
    let e = insert.failure(&version, StoreError { message: "boom".to_string() });
    assert!(matches!(e, ExecError::LedgerWriteFailed { version: v, cause } if v == version && cause.message == "boom"));
}

#[test]
fn boundary_messages_match_the_failure() {
    let e = MigrationError::Drift { records: vec![row("2024-01-01-000000", 1)] };
    assert!(matches!(
        e.to_cli_error(),
        CLIError::BadArgs(m)
            if m == "Your local migrations and the database migrations are out of sync!"
    ));
    let e = MigrationError::NothingToRevert;
    assert!(matches!(e.to_cli_error(), CLIError::InternalError(m) if m == "No migrations to revert"));
    let e = MigrationError::BadInput { entry: "junk".to_string() };
    assert!(matches!(e.to_cli_error(), CLIError::BadArgs(m) if m == "Invalid migration entry: junk"));
    let e = ExecError::Apply {
        version: "2024-01-01-000000".to_string(),
        cause: StoreError { message: "syntax".to_string() },
    };
    assert!(matches!(e.to_cli_error(), CLIError::DBError(m) if m == "migration failed: syntax"));
    let e = ExecError::LedgerWriteFailed {
        version: "2024-01-01-000000".to_string(),
        cause: StoreError { message: "late".to_string() },
    };
    assert!(matches!(
        e.to_cli_error(),
        CLIError::DBError(m) if m == "ledger write failed after successful migration: late"
    ));
}

#[test]
fn the_url_is_required_and_the_rest_is_optional() {
    let args = SetupArgs {
        url: Some("http://localhost:8123".to_string()),
        user: None,
        password: None,
        database: None,
    };
    assert_eq!(args.require_url().unwrap().as_str(), "http://localhost:8123");
    let args = SetupArgs { url: None, user: None, password: None, database: None };
    assert!(matches!(args.require_url().unwrap_err(), CLIError::BadArgs(m) if m == "Missing URL"));
}

#[test]
fn a_multi_statement_body_plans_every_statement_before_the_record() {
    let u = unit("2024-01-01-000000", "two_tables");
    let plan = apply_unit_plan(&u, "CREATE TABLE a (x Int32) ENGINE=Memory;CREATE TABLE b (y Int32) ENGINE=Memory;", 7);
    assert_eq!(plan.len(), 3);
    assert!(matches!(&plan[0], StoreAction::Execute { statement } if statement == "CREATE TABLE a (x Int32) ENGINE=Memory"));
    assert!(matches!(&plan[1], StoreAction::Execute { statement } if statement == "CREATE TABLE b (y Int32) ENGINE=Memory"));
    assert!(matches!(&plan[2], StoreAction::Insert { row } if row.version == "2024-01-01-000000" && row.ran_at == 7));
}

#[test]
fn an_empty_body_still_records_the_unit() {
    let u = unit("2024-01-01-000000", "noop");
    let plan = apply_unit_plan(&u, "", 3);
    assert_eq!(plan.len(), 1);
    assert!(matches!(&plan[0], StoreAction::Insert { row } if row.version == "2024-01-01-000000"));
}
