use vstd::prelude::*;

verus! {

/// The error a database call of the `surrealdb` client ends with. The library
/// never looks inside one: it carries the value from the caller that made the
/// database call to the caller that is told of the failure.
#[verifier::external_type_specification]
#[verifier::external_body]
pub struct ExDatabaseError(surrealdb::Error);

/// Everything that can stop a migration run. None of these is recovered from:
/// each one ends the run before anything further is sent to the database.
/// Each names the script or the record that is at fault.
#[derive(Debug)]
pub enum MigrationsError {
    /// The script `file_name`, which the collection lists, could not be
    /// fetched from it.
    CannotLoadFile { file_name: String },
    /// The scripts of a set are not numbered 1, 2, 3, ... without gap or
    /// repeat: in the order of the numbers, the script `file_name` with the
    /// number `found` stands where the number `expected` is due.
    FileNumbering { expected: u64, found: u32, file_name: String },
    /// The name `file_name` does not begin with a number that fits 32 bits.
    FileNameMalformed { file_name: String },
    /// The ledger holds a record of the number `number` under the file name
    /// `recorded`, but the script of that number is called `file_name` today.
    MigrationFileDbMismatch { number: u32, recorded: String, file_name: String },
    /// The ledger holds a record of the number `number`, under the file name
    /// `recorded`, but the scripts of today hold none of that number.
    MigrationFileInDbNotLongerExists { number: u32, recorded: String },
    /// The database description has a `tables` entry that is not an object.
    InfoForDbTablesNotAnObject,
    /// The database description has no `tables` entry.
    InfoForDbDoesNotContainTables,
    /// The database description is not an object.
    InfoForDbNotAnObject,
    /// The database answered the request for its description with no row.
    InfoForDbHasNoData,
    /// The database refused or failed a request.
    Surrealdb(surrealdb::Error),
}

} // verus!
