use surrealdb_migration_engine::errors::MigrationsError;
use surrealdb_migration_engine::ledger::{Migration, Timestamp};
use surrealdb_migration_engine::plan::{incremental_plan, Plan};
use surrealdb_migration_engine::reconcile::pending_migrations;
use surrealdb_migration_engine::script::{get_sql_files, RawFile, ScriptSet};

fn set_of(names: &[&str]) -> ScriptSet {
    let files: Vec<RawFile> = names
        .iter()
        .map(|name| RawFile {
            name: name.to_string(),
            data: Some(format!("-- {}", name).into_bytes()),
        })
        .collect();
    get_sql_files(&files).unwrap()
}

fn record(number: u32, file_name: &str) -> Migration {
    Migration { file_name: file_name.to_string(), number, date_ran: None }
}

fn names(pending: &[surrealdb_migration_engine::script::SqlFile]) -> Vec<String> {
    pending.iter().map(|f| f.file_name.clone()).collect()
}

#[test]
fn everything_is_pending_with_an_empty_ledger() {
    let set = set_of(&["1_a", "2_b", "3_c"]);
    let pending = pending_migrations(&set, &Vec::new()).unwrap();
    assert_eq!(names(&pending), vec!["1_a", "2_b", "3_c"]);
}

#[test]
fn applied_scripts_are_not_pending() {
    let set = set_of(&["1_a", "2_b", "3_c", "4_d"]);
    let applied = vec![record(1, "1_a"), record(2, "2_b")];
    let pending = pending_migrations(&set, &applied).unwrap();
    assert_eq!(names(&pending), vec!["3_c", "4_d"]);
    assert_eq!(pending[0].number, 3);
    assert_eq!(pending[0].sql, "-- 3_c");
    assert_eq!(pending[1].number, 4);
    assert_eq!(pending[1].sql, "-- 4_d");
}

#[test]
fn order_of_the_ledger_does_not_matter() {
    let set = set_of(&["1_a", "2_b", "3_c", "4_d"]);
    let applied = vec![record(4, "4_d"), record(1, "1_a"), record(3, "3_c")];
    let pending = pending_migrations(&set, &applied).unwrap();
    assert_eq!(names(&pending), vec!["2_b"]);
}

#[test]
fn nothing_is_pending_when_the_ledger_names_all() {
    let set = set_of(&["1_a", "2_b"]);
    let applied = vec![record(2, "2_b"), record(1, "1_a")];
    let pending = pending_migrations(&set, &applied).unwrap();
    assert!(pending.is_empty());
}

#[test]
fn record_of_a_script_under_another_name_is_a_mismatch() {
    let set = set_of(&["0001_make_users"]);
    let applied = vec![record(1, "0001_create_users")];
    assert!(matches!(
        pending_migrations(&set, &applied),
        Err(MigrationsError::MigrationFileDbMismatch { .. })
    ));
}

#[test]
fn record_without_a_script_has_vanished() {
    let set = set_of(&["0001_a", "0002_b"]);
    let applied = vec![record(3, "0003_x")];
    assert!(matches!(
        pending_migrations(&set, &applied),
        Err(MigrationsError::MigrationFileInDbNotLongerExists { .. })
    ));
    let applied = vec![record(0, "0000_x")];
    assert!(matches!(
        pending_migrations(&set, &applied),
        Err(MigrationsError::MigrationFileInDbNotLongerExists { .. })
    ));
    let applied = vec![record(u32::MAX, "x")];
    assert!(matches!(
        pending_migrations(&set, &applied),
        Err(MigrationsError::MigrationFileInDbNotLongerExists { .. })
    ));
}

#[test]
fn a_record_held_twice_is_no_drift() {
    let set = set_of(&["0001_a"]);
    let applied = vec![record(1, "0001_a"), record(1, "0001_a")];
    assert!(pending_migrations(&set, &applied).unwrap().is_empty());
    let set = set_of(&["1_a", "2_b", "3_c"]);
    let applied = vec![record(2, "2_b"), record(1, "1_a"), record(2, "2_b"), record(2, "2_b")];
    let pending = pending_migrations(&set, &applied).unwrap();
    assert_eq!(names(&pending), vec!["3_c"]);
}

#[test]
fn a_second_record_under_another_name_is_a_mismatch() {
    let set = set_of(&["1_a", "2_b"]);
    let applied = vec![record(1, "1_a"), record(1, "other")];
    assert!(matches!(
        pending_migrations(&set, &applied),
        Err(MigrationsError::MigrationFileDbMismatch { .. })
    ));
}

#[test]
fn a_mismatch_is_found_wherever_its_record_stands() {
    let set = set_of(&["1_a", "2_b", "3_c"]);
    let ledgers = vec![
        vec![record(2, "wrong"), record(1, "1_a"), record(1, "1_a")],
        vec![record(1, "1_a"), record(2, "wrong"), record(1, "1_a")],
        vec![record(1, "1_a"), record(1, "1_a"), record(2, "wrong")],
        vec![record(3, "3_c"), record(1, "1_a"), record(3, "3_c"), record(2, "wrong")],
    ];
    for applied in ledgers {
        match pending_migrations(&set, &applied) {
            Err(MigrationsError::MigrationFileDbMismatch { number, recorded, file_name }) => {
                assert_eq!(number, 2);
                assert_eq!(recorded, "wrong");
                assert_eq!(file_name, "2_b");
            },
            other => panic!("unexpected {:?}", other),
        }
    }
}

#[test]
fn first_record_that_fails_names_the_error() {
    let set = set_of(&["1_a", "2_b"]);
    let applied = vec![record(1, "1_a"), record(2, "renamed"), record(9, "9_gone")];
    assert!(matches!(
        pending_migrations(&set, &applied),
        Err(MigrationsError::MigrationFileDbMismatch { .. })
    ));
    let applied = vec![record(9, "9_gone"), record(2, "renamed")];
    assert!(matches!(
        pending_migrations(&set, &applied),
        Err(MigrationsError::MigrationFileInDbNotLongerExists { .. })
    ));
}

#[test]
fn any_record_against_an_empty_set_has_vanished() {
    let set = set_of(&[]);
    assert!(pending_migrations(&set, &Vec::new()).unwrap().is_empty());
    assert!(matches!(
        pending_migrations(&set, &vec![record(1, "1_a")]),
        Err(MigrationsError::MigrationFileInDbNotLongerExists { .. })
    ));
}

#[test]
fn reconciling_again_after_applying_leaves_nothing() {
    let set = set_of(&["1_a", "2_b", "3_c", "4_d"]);
    let mut ledger = vec![record(2, "2_b")];
    let pending = pending_migrations(&set, &ledger).unwrap();
    assert_eq!(names(&pending), vec!["1_a", "3_c", "4_d"]);
    let now = Timestamp { secs: 1_700_000_000, nanos: 5 };
    match incremental_plan(&pending, now) {
        Plan::Incremental { records, .. } => ledger.extend(records),
        other => panic!("unexpected plan {:?}", other),
    }
    assert_eq!(ledger.len(), 4);
    let pending = pending_migrations(&set, &ledger).unwrap();
    assert!(pending.is_empty());
    assert!(matches!(incremental_plan(&pending, now), Plan::Nothing));
}

#[test]
fn mismatch_tells_both_names() {
    let set = set_of(&["0001_a", "0002_make_users"]);
    let applied = vec![record(1, "0001_a"), record(2, "0002_create_users")];
    match pending_migrations(&set, &applied) {
        Err(MigrationsError::MigrationFileDbMismatch { number, recorded, file_name }) => {
            assert_eq!(number, 2);
            assert_eq!(recorded, "0002_create_users");
            assert_eq!(file_name, "0002_make_users");
        },
        other => panic!("unexpected {:?}", other),
    }
}

#[test]
fn vanished_tells_the_record() {
    let set = set_of(&["0001_a", "0002_b"]);
    let applied = vec![record(2, "0002_b"), record(3, "0003_x"), record(4, "0004_y")];
    match pending_migrations(&set, &applied) {
        Err(MigrationsError::MigrationFileInDbNotLongerExists { number, recorded }) => {
            assert_eq!(number, 3);
            assert_eq!(recorded, "0003_x");
        },
        other => panic!("unexpected {:?}", other),
    }
    let applied = vec![record(1, "0001_a"), record(0, "0000_zero")];
    match pending_migrations(&set, &applied) {
        Err(MigrationsError::MigrationFileInDbNotLongerExists { number, recorded }) => {
            assert_eq!(number, 0);
            assert_eq!(recorded, "0000_zero");
        },
        other => panic!("unexpected {:?}", other),
    }
}
