use surrealdb_migration_engine::engine::{
    create_migration_table_and_schema_if_not_exists, next_action, plan_new_migrations,
    run_any_new_migrations, Action, Event,
};
use surrealdb_migration_engine::errors::MigrationsError;
use surrealdb_migration_engine::ledger::{InfoEntry, InfoValue, Migration, Timestamp};
use surrealdb_migration_engine::plan::Plan;
use surrealdb_migration_engine::script::RawFile;
use surrealdb_migration_engine::transaction::DEFINE_LEDGER;

fn raw(name: &str, text: &str) -> RawFile {
    RawFile { name: name.to_string(), data: Some(text.as_bytes().to_vec()) }
}

fn description(tables: &[&str]) -> Vec<InfoValue> {
    let tables = tables
        .iter()
        .map(|t| InfoEntry { key: t.to_string(), value: InfoValue::Other })
        .collect();
    vec![InfoValue::Object(vec![InfoEntry {
        key: "tables".to_string(),
        value: InfoValue::Object(tables),
    }])]
}

fn record(number: u32, file_name: &str) -> Migration {
    Migration { file_name: file_name.to_string(), number, date_ran: None }
}

fn schema() -> Vec<RawFile> {
    vec![raw("0001_init", "DEFINE TABLE user SCHEMAFULL;")]
}

fn migrations() -> Vec<RawFile> {
    vec![
        raw("0001_create_users", "DEFINE TABLE user;"),
        raw("0002_add_email", "DEFINE FIELD email ON TABLE user TYPE string;"),
    ]
}

#[test]
fn a_run_starts_by_reading_the_description() {
    assert!(matches!(
        next_action(Event::Started, &schema(), &migrations()),
        Ok(Action::ReadDescription)
    ));
}

#[test]
fn bootstrap_scenario() {
    let action = next_action(Event::Described(description(&[])), &schema(), &migrations());
    let transaction = match action {
        Ok(Action::Apply(transaction)) => transaction,
        other => panic!("unexpected {:?}", other),
    };
    assert_eq!(
        transaction.statements,
        vec![
            "BEGIN TRANSACTION;",
            "DEFINE TABLE user SCHEMAFULL;",
            DEFINE_LEDGER,
            "INSERT INTO migrations $migration0;",
            "INSERT INTO migrations $migration1;",
            "COMMIT TRANSACTION;",
        ]
    );
    for statement in &transaction.statements {
        assert!(!statement.contains("DEFINE FIELD email"));
        assert_ne!(statement, "DEFINE TABLE user;");
    }
    assert_eq!(transaction.bindings.len(), 2);
    assert_eq!(transaction.bindings[0].name, "migration0");
    assert_eq!(transaction.bindings[0].record.number, 1);
    assert_eq!(transaction.bindings[0].record.file_name, "0001_create_users");
    assert_eq!(transaction.bindings[0].record.date_ran, None);
    assert_eq!(transaction.bindings[1].name, "migration1");
    assert_eq!(transaction.bindings[1].record.number, 2);
    assert_eq!(transaction.bindings[1].record.file_name, "0002_add_email");
    assert_eq!(transaction.bindings[1].record.date_ran, None);
    assert!(matches!(next_action(Event::Applied, &schema(), &migrations()), Ok(Action::Finish)));
}

#[test]
fn incremental_scenario() {
    let described = next_action(
        Event::Described(description(&["user", "migrations"])),
        &schema(),
        &migrations(),
    );
    assert!(matches!(described, Ok(Action::ReadLedger)));
    let ledger = vec![record(1, "0001_create_users")];
    let action = next_action(Event::LedgerRead(ledger), &schema(), &migrations());
    let transaction = match action {
        Ok(Action::Apply(transaction)) => transaction,
        other => panic!("unexpected {:?}", other),
    };
    assert_eq!(
        transaction.statements,
        vec![
            "BEGIN TRANSACTION;",
            "DEFINE FIELD email ON TABLE user TYPE string;",
            "INSERT INTO migrations $migration0;",
            "COMMIT TRANSACTION;",
        ]
    );
    assert_eq!(transaction.bindings.len(), 1);
    assert_eq!(transaction.bindings[0].name, "migration0");
    assert_eq!(transaction.bindings[0].record.number, 2);
    assert_eq!(transaction.bindings[0].record.file_name, "0002_add_email");
    let date_ran = transaction.bindings[0].record.date_ran.unwrap();
    assert!(date_ran.secs > 1_600_000_000);
    assert!(date_ran.nanos < 2_000_000_000);
}

#[test]
fn second_run_is_a_no_op() {
    let mut ledger = vec![record(1, "0001_create_users")];
    match next_action(Event::LedgerRead(vec![record(1, "0001_create_users")]), &schema(), &migrations()) {
        Ok(Action::Apply(transaction)) => {
            for binding in transaction.bindings {
                ledger.push(binding.record);
            }
        },
        other => panic!("unexpected {:?}", other),
    }
    assert_eq!(ledger.len(), 2);
    assert!(matches!(
        next_action(Event::LedgerRead(ledger), &schema(), &migrations()),
        Ok(Action::Finish)
    ));
}

#[test]
fn second_run_after_bootstrap_is_a_no_op() {
    let mut ledger = Vec::new();
    match next_action(Event::Described(description(&[])), &schema(), &migrations()) {
        Ok(Action::Apply(transaction)) => {
            for binding in transaction.bindings {
                ledger.push(binding.record);
            }
        },
        other => panic!("unexpected {:?}", other),
    }
    assert!(matches!(
        next_action(Event::LedgerRead(ledger), &schema(), &migrations()),
        Ok(Action::Finish)
    ));
}

#[test]
fn drift_scenario() {
    let current = vec![raw("0001_make_users", "DEFINE TABLE user;")];
    let ledger = vec![record(1, "0001_create_users")];
    assert!(matches!(
        next_action(Event::LedgerRead(ledger), &schema(), &current),
        Err(MigrationsError::MigrationFileDbMismatch { .. })
    ));
}

#[test]
fn vanished_file_scenario() {
    let ledger = vec![record(3, "0003_x")];
    assert!(matches!(
        next_action(Event::LedgerRead(ledger), &schema(), &migrations()),
        Err(MigrationsError::MigrationFileInDbNotLongerExists { .. })
    ));
}

#[test]
fn malformed_name_scenario() {
    let broken = vec![raw("init.sql", "DEFINE TABLE user;")];
    assert!(matches!(
        next_action(Event::Described(description(&[])), &broken, &migrations()),
        Err(MigrationsError::FileNameMalformed { .. })
    ));
    assert!(matches!(
        next_action(Event::Described(description(&[])), &schema(), &broken),
        Err(MigrationsError::FileNameMalformed { .. })
    ));
    assert!(matches!(
        next_action(Event::LedgerRead(Vec::new()), &schema(), &broken),
        Err(MigrationsError::FileNameMalformed { .. })
    ));
}

#[test]
fn schema_scripts_are_not_loaded_once_the_ledger_exists() {
    let broken = vec![raw("init.sql", "")];
    assert!(matches!(
        next_action(Event::Described(description(&["migrations"])), &broken, &broken),
        Ok(Action::ReadLedger)
    ));
    assert!(matches!(
        next_action(Event::LedgerRead(vec![record(1, "0001_create_users"), record(2, "0002_add_email")]), &broken, &migrations()),
        Ok(Action::Finish)
    ));
}

#[test]
fn schema_is_loaded_before_the_migrations() {
    let gap = vec![raw("2_b", "")];
    let broken = vec![raw("init.sql", "")];
    assert!(matches!(
        next_action(Event::Described(description(&[])), &gap, &broken),
        Err(MigrationsError::FileNumbering { .. })
    ));
    assert!(matches!(
        next_action(Event::Described(description(&[])), &broken, &gap),
        Err(MigrationsError::FileNameMalformed { .. })
    ));
}

#[test]
fn description_of_the_wrong_shape_stops_the_run() {
    assert!(matches!(
        next_action(Event::Described(Vec::new()), &schema(), &migrations()),
        Err(MigrationsError::InfoForDbHasNoData)
    ));
    assert!(matches!(
        next_action(Event::Described(vec![InfoValue::Other]), &schema(), &migrations()),
        Err(MigrationsError::InfoForDbNotAnObject)
    ));
    assert!(matches!(
        next_action(Event::Described(vec![InfoValue::Object(Vec::new())]), &schema(), &migrations()),
        Err(MigrationsError::InfoForDbDoesNotContainTables)
    ));
    let rows = vec![InfoValue::Object(vec![InfoEntry {
        key: "tables".to_string(),
        value: InfoValue::Other,
    }])];
    assert!(matches!(
        next_action(Event::Described(rows), &schema(), &migrations()),
        Err(MigrationsError::InfoForDbTablesNotAnObject)
    ));
}

#[test]
fn failure_of_the_database_ends_the_run() {
    let failure = surrealdb::Error::Api(surrealdb::error::Api::Query("no such table".to_string()));
    match next_action(Event::Failed(failure), &schema(), &migrations()) {
        Err(MigrationsError::Surrealdb(inner)) => assert_eq!(inner.to_string(), "no such table"),
        other => panic!("unexpected {:?}", other),
    }
}

#[test]
fn nothing_is_created_where_the_ledger_exists() {
    let res = create_migration_table_and_schema_if_not_exists(
        &description(&["migrations"]),
        &schema(),
        &migrations(),
    );
    assert!(matches!(res, Ok(None)));
}

#[test]
fn creation_plans_the_whole_schema() {
    let two = vec![raw("2_b", "B;"), raw("1_a", "A;")];
    let res = create_migration_table_and_schema_if_not_exists(&description(&["user"]), &two, &migrations());
    match res {
        Ok(Some(Plan::Bootstrap { schema_sql, records })) => {
            assert_eq!(schema_sql, "A;\nB;");
            assert_eq!(records.len(), 2);
            assert_eq!(records[0].file_name, "0001_create_users");
            assert_eq!(records[1].file_name, "0002_add_email");
            assert!(records.iter().all(|r| r.date_ran.is_none()));
        },
        other => panic!("unexpected {:?}", other),
    }
}

#[test]
fn new_migrations_are_dated_with_the_time_given() {
    let now = Timestamp { secs: 1_234_567_890, nanos: 123_456_789 };
    let res = plan_new_migrations(&Vec::new(), &migrations(), now);
    match res {
        Ok(Plan::Incremental { migrations_sql, records }) => {
            assert_eq!(
                migrations_sql,
                "DEFINE TABLE user;\nDEFINE FIELD email ON TABLE user TYPE string;"
            );
            assert_eq!(records.len(), 2);
            assert_eq!(records[0].number, 1);
            assert_eq!(records[1].number, 2);
            assert!(records.iter().all(|r| r.date_ran == Some(now)));
        },
        other => panic!("unexpected {:?}", other),
    }
}

#[test]
fn new_migrations_share_one_date() {
    match run_any_new_migrations(&Vec::new(), &migrations()) {
        Ok(Plan::Incremental { records, .. }) => {
            assert_eq!(records.len(), 2);
            assert!(records[0].date_ran.is_some());
            assert_eq!(records[0].date_ran, records[1].date_ran);
        },
        other => panic!("unexpected {:?}", other),
    }
    let all = vec![record(1, "0001_create_users"), record(2, "0002_add_email")];
    assert!(matches!(run_any_new_migrations(&all, &migrations()), Ok(Plan::Nothing)));
}

#[test]
fn a_ledger_that_holds_a_record_twice_leaves_nothing_to_do() {
    let files = vec![raw("0001_a", "A")];
    let ledger = vec![record(1, "0001_a"), record(1, "0001_a")];
    assert!(matches!(run_any_new_migrations(&ledger, &files), Ok(Plan::Nothing)));
    let ledger = vec![record(1, "0001_a"), record(1, "0001_a")];
    assert!(matches!(next_action(Event::LedgerRead(ledger), &schema(), &files), Ok(Action::Finish)));
}

#[test]
fn a_mismatch_after_a_repeated_record_is_still_a_mismatch() {
    let ledger = vec![
        record(1, "0001_create_users"),
        record(1, "0001_create_users"),
        record(2, "0002_add_mail"),
    ];
    assert!(matches!(
        run_any_new_migrations(&ledger, &migrations()),
        Err(MigrationsError::MigrationFileDbMismatch { .. })
    ));
}
