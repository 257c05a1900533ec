use crate::errors::MigrationsError;
use vstd::prelude::*;

verus! {

/// A point in time: whole seconds since 1970-01-01 00:00:00 UTC, and the
/// nanoseconds since that second began.
#[derive(Debug, Clone, Copy, PartialEq, Eq, Structural)]
pub struct Timestamp {
    pub secs: i64,
    pub nanos: u32,
}

/// One record of the ledger: a migration that counts as applied. `date_ran` is
/// the time at which its script ran, and `None` for a migration that was
/// entered when the ledger was made, without running its script.
#[derive(Debug)]
pub struct Migration {
    pub file_name: String,
    pub number: u32,
    pub date_ran: Option<Timestamp>,
}

/// What a [`Migration`] holds, as mathematical values.
pub struct MigrationView {
    pub file_name: Seq<char>,
    pub number: u32,
    pub date_ran: Option<Timestamp>,
}

impl View for Migration {
    type V = MigrationView;

    open spec fn view(&self) -> MigrationView {
        MigrationView { file_name: self.file_name@, number: self.number, date_ran: self.date_ran }
    }
}

impl Clone for Migration {
    fn clone(&self) -> (copy: Migration)
        ensures
            copy@ == self@,
    {
        Migration {
            file_name: self.file_name.clone(),
            number: self.number,
            date_ran: self.date_ran,
        }
    }
}

/// The views of the records, in the same order.
pub open spec fn record_views(records: Seq<Migration>) -> Seq<MigrationView> {
    Seq::new(records.len(), |i: int| records[i]@)
}

/// A value of the description that the database gives of itself, as far as
/// the shape of that description matters here: an object with its entries in
/// the order in which they were handed over, or anything else.
#[derive(Debug)]
pub enum InfoValue {
    Object(Vec<InfoEntry>),
    Other,
}

/// One entry of an object: a key and the value under it.
#[derive(Debug)]
pub struct InfoEntry {
    pub key: String,
    pub value: InfoValue,
}

/// `at` is the first place of `entries` that holds `key`.
pub open spec fn is_first_with_key(entries: Seq<InfoEntry>, key: Seq<char>, at: int) -> bool {
    &&& 0 <= at < entries.len()
    &&& entries[at].key@ == key
    &&& forall|j: int| 0 <= j < at ==> (#[trigger] entries[j]).key@ != key
}

/// The value under `key`: that of the first entry that holds the key.
pub open spec fn member(entries: Seq<InfoEntry>, key: Seq<char>) -> Option<InfoValue> {
    if exists|at: int| is_first_with_key(entries, key, at) {
        Some(entries[choose|at: int| is_first_with_key(entries, key, at)].value)
    } else {
        None
    }
}

/// Looks `key` up among the entries of an object.
pub fn lookup<'a>(entries: &'a Vec<InfoEntry>, key: &str) -> (found: Option<&'a InfoValue>)
    ensures
        match found {
            Some(value) => member(entries@, key@) == Some(*value),
            None => member(entries@, key@) is None,
        },
{
    let wanted: String = key.to_owned();
    let mut i: usize = 0;
    while i < entries.len()
        invariant
            0 <= i <= entries.len(),
            wanted@ == key@,
            forall|j: int| 0 <= j < i ==> (#[trigger] entries[j]).key@ != key@,
        decreases entries.len() - i,
    {
        if entries[i].key == wanted {
            proof {
                assert(is_first_with_key(entries@, key@, i as int));
                let at = choose|at: int| is_first_with_key(entries@, key@, at);
                assert(at == i) by {
                    if at < i {
                        assert(entries[at].key@ != key@);
                    }
                }
            }
            return Some(&entries[i].value);
        }
        i = i + 1;
    }
    proof {
        if exists|at: int| is_first_with_key(entries@, key@, at) {
            let at = choose|at: int| is_first_with_key(entries@, key@, at);
            assert(entries[at].key@ != key@);
        }
    }
    None
}

/// The rows with which the database described itself have the shape that is
/// looked for: the first row is an object, and under its key `tables` stands
/// an object.
pub open spec fn is_well_described(rows: Seq<InfoValue>) -> bool {
    &&& rows.len() > 0
    &&& rows[0] matches InfoValue::Object(top)
    &&& member(top@, "tables"@) matches Some(InfoValue::Object(_))
}

/// The database's description of itself shows the ledger: the object under
/// `tables` has an entry `migrations`.
pub open spec fn shows_ledger(rows: Seq<InfoValue>) -> bool {
    &&& rows.len() > 0
    &&& rows[0] matches InfoValue::Object(top)
    &&& member(top@, "tables"@) matches Some(InfoValue::Object(tables))
    &&& member(tables@, "migrations"@) is Some
}

/// `error` is what is wrong with the shape of the description: there is no
/// row; the first row is no object; it has no entry `tables`; or what stands
/// under `tables` is no object.
pub open spec fn is_description_failure(rows: Seq<InfoValue>, error: MigrationsError) -> bool {
    match error {
        MigrationsError::InfoForDbHasNoData => rows.len() == 0,
        MigrationsError::InfoForDbNotAnObject => rows.len() > 0 && rows[0] is Other,
        MigrationsError::InfoForDbDoesNotContainTables => {
            &&& rows.len() > 0
            &&& rows[0] matches InfoValue::Object(top)
            &&& member(top@, "tables"@) is None
        },
        MigrationsError::InfoForDbTablesNotAnObject => {
            &&& rows.len() > 0
            &&& rows[0] matches InfoValue::Object(top)
            &&& member(top@, "tables"@) == Some(InfoValue::Other)
        },
        _ => false,
    }
}

/// Says whether the ledger, the table `migrations`, exists, going by the rows
/// with which the database answered the request for its description. Only the
/// first row counts. It has to be an object whose entry `tables` is an object;
/// the ledger exists where that object has an entry `migrations`.
pub fn ledger_exists(rows: &Vec<InfoValue>) -> (res: Result<bool, MigrationsError>)
    ensures
        match res {
            Ok(exists) => is_well_described(rows@) && exists == shows_ledger(rows@),
            Err(error) => is_description_failure(rows@, error),
        },
{
    if rows.len() == 0 {
        return Err(MigrationsError::InfoForDbHasNoData);
    }
    let top = match &rows[0] {
        InfoValue::Object(top) => top,
        InfoValue::Other => {
            return Err(MigrationsError::InfoForDbNotAnObject);
        },
    };
    let tables = match lookup(top, "tables") {
        None => {
            return Err(MigrationsError::InfoForDbDoesNotContainTables);
        },
        Some(InfoValue::Other) => {
            return Err(MigrationsError::InfoForDbTablesNotAnObject);
        },
        Some(InfoValue::Object(tables)) => tables,
    };
    Ok(lookup(tables, "migrations").is_some())
}

} // verus!
