use surrealdb_migration_engine::errors::MigrationsError;
use surrealdb_migration_engine::ledger::{ledger_exists, lookup, InfoEntry, InfoValue};

fn object(entries: Vec<(&str, InfoValue)>) -> InfoValue {
    InfoValue::Object(
        entries
            .into_iter()
            .map(|(key, value)| InfoEntry { key: key.to_string(), value })
            .collect(),
    )
}

fn description(tables: Vec<&str>) -> InfoValue {
    object(vec![
        ("analyzers", object(vec![])),
        ("functions", object(vec![])),
        ("tables", object(tables.into_iter().map(|t| (t, InfoValue::Other)).collect())),
        ("users", object(vec![])),
    ])
}

#[test]
fn ledger_is_found_among_the_tables() {
    let rows = vec![description(vec!["user", "migrations", "post"])];
    assert!(matches!(ledger_exists(&rows), Ok(true)));
}

#[test]
fn ledger_is_missing_from_other_tables() {
    let rows = vec![description(vec!["user", "post"])];
    assert!(matches!(ledger_exists(&rows), Ok(false)));
    let rows = vec![description(vec![])];
    assert!(matches!(ledger_exists(&rows), Ok(false)));
}

#[test]
fn table_names_are_compared_exactly() {
    let rows = vec![description(vec!["Migrations", "migration", "migrations2", " migrations"])];
    assert!(matches!(ledger_exists(&rows), Ok(false)));
}

#[test]
fn a_key_migrations_outside_tables_is_no_ledger() {
    let rows = vec![object(vec![("migrations", InfoValue::Other), ("tables", object(vec![]))])];
    assert!(matches!(ledger_exists(&rows), Ok(false)));
}

#[test]
fn only_the_first_row_counts() {
    let rows = vec![description(vec![]), description(vec!["migrations"])];
    assert!(matches!(ledger_exists(&rows), Ok(false)));
    let rows = vec![description(vec!["migrations"]), InfoValue::Other];
    assert!(matches!(ledger_exists(&rows), Ok(true)));
}

#[test]
fn no_row_is_no_data() {
    let rows: Vec<InfoValue> = Vec::new();
    assert!(matches!(ledger_exists(&rows), Err(MigrationsError::InfoForDbHasNoData)));
}

#[test]
fn a_row_that_is_no_object() {
    let rows = vec![InfoValue::Other];
    assert!(matches!(ledger_exists(&rows), Err(MigrationsError::InfoForDbNotAnObject)));
}

#[test]
fn a_row_without_tables() {
    let rows = vec![object(vec![("analyzers", object(vec![]))])];
    assert!(matches!(ledger_exists(&rows), Err(MigrationsError::InfoForDbDoesNotContainTables)));
    let rows = vec![object(vec![])];
    assert!(matches!(ledger_exists(&rows), Err(MigrationsError::InfoForDbDoesNotContainTables)));
}

#[test]
fn tables_that_are_no_object() {
    let rows = vec![object(vec![("tables", InfoValue::Other)])];
    assert!(matches!(ledger_exists(&rows), Err(MigrationsError::InfoForDbTablesNotAnObject)));
}

#[test]
fn lookup_takes_the_first_entry_of_a_key() {
    let entries = vec![
        InfoEntry { key: "a".to_string(), value: InfoValue::Other },
        InfoEntry { key: "b".to_string(), value: object(vec![]) },
        InfoEntry { key: "b".to_string(), value: InfoValue::Other },
    ];
    assert!(matches!(lookup(&entries, "a"), Some(InfoValue::Other)));
    assert!(matches!(lookup(&entries, "b"), Some(InfoValue::Object(_))));
    assert!(lookup(&entries, "c").is_none());
    assert!(lookup(&entries, "").is_none());
}
