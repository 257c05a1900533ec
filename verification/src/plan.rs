use crate::ledger::{record_views, Migration, MigrationView, Timestamp};
use crate::script::{file_views, ScriptSet, SqlFile, SqlFileView};
use vstd::prelude::*;

verus! {

/// The texts one after the other, with a line feed between each two.
pub open spec fn joined(bodies: Seq<Seq<char>>) -> Seq<char>
    decreases bodies.len(),
{
    if bodies.len() == 0 {
        Seq::empty()
    } else if bodies.len() == 1 {
        bodies[0]
    } else {
        joined(bodies.drop_last()) + seq!['\n'] + bodies.last()
    }
}

/// The texts of the scripts, in the scripts' order.
pub open spec fn bodies_of(files: Seq<SqlFileView>) -> Seq<Seq<char>> {
    Seq::new(files.len(), |i: int| files[i].sql)
}

/// The record that enters a script into the ledger.
pub open spec fn record_for(file: SqlFileView, date_ran: Option<Timestamp>) -> MigrationView {
    MigrationView { file_name: file.file_name, number: file.number, date_ran }
}

/// One record for each script, in the scripts' order, all with one date.
pub open spec fn records_for(
    files: Seq<SqlFileView>,
    date_ran: Option<Timestamp>,
) -> Seq<MigrationView> {
    Seq::new(files.len(), |i: int| record_for(files[i], date_ran))
}

/// Joins the texts of the scripts into one text, a line feed between each two.
pub fn join_bodies(files: &Vec<SqlFile>) -> (sql: String)
    ensures
        sql@ == joined(bodies_of(file_views(files@))),
{
    let ghost bodies = bodies_of(file_views(files@));
    let mut sql = String::new();
    let mut i: usize = 0;
    while i < files.len()
        invariant
            0 <= i <= files.len(),
            bodies == bodies_of(file_views(files@)),
            sql@ == joined(bodies.take(i as int)),
        decreases files.len() - i,
    {
        proof {
            reveal_strlit("\n");
            assert(bodies.take(i as int + 1).drop_last() =~= bodies.take(i as int));
            assert(bodies.take(i as int + 1).last() == files[i as int].sql@);
            assert("\n"@ =~= seq!['\n']);
        }
        if i > 0 {
            sql.append("\n");
        }
        sql.append(files[i].sql.as_str());
        proof {
            if i == 0 {
                assert(sql@ =~= files[i as int].sql@);
            }
        }
        i = i + 1;
    }
    proof {
        assert(bodies.take(files.len() as int) =~= bodies);
    }
    sql
}

/// Makes the ledger records of the scripts, all with the date given.
pub fn records_of(files: &Vec<SqlFile>, date_ran: Option<Timestamp>) -> (records: Vec<Migration>)
    ensures
        record_views(records@) == records_for(file_views(files@), date_ran),
{
    let mut records: Vec<Migration> = Vec::new();
    let mut i: usize = 0;
    while i < files.len()
        invariant
            0 <= i <= files.len(),
            records.len() == i,
            forall|k: int|
                0 <= k < i ==> (#[trigger] records[k])@ == record_for(files[k]@, date_ran),
        decreases files.len() - i,
    {
        records.push(
            Migration { file_name: files[i].file_name.clone(), number: files[i].number, date_ran },
        );
        i = i + 1;
    }
    proof {
        assert(record_views(records@) =~= records_for(file_views(files@), date_ran));
    }
    records
}

/// What is to be done to the database in one all-or-nothing step.
#[derive(Debug)]
pub enum Plan {
    /// Nothing: the ledger names every script.
    Nothing,
    /// There is no ledger yet. Run the schema, make the ledger, and enter every
    /// migration in it without running any.
    Bootstrap { schema_sql: String, records: Vec<Migration> },
    /// Run the migrations that the ledger does not name yet, and enter them.
    Incremental { migrations_sql: String, records: Vec<Migration> },
}

/// What a [`Plan`] holds, as mathematical values.
pub enum PlanView {
    Nothing,
    Bootstrap { schema_sql: Seq<char>, records: Seq<MigrationView> },
    Incremental { migrations_sql: Seq<char>, records: Seq<MigrationView> },
}

impl View for Plan {
    type V = PlanView;

    open spec fn view(&self) -> PlanView {
        match self {
            Plan::Nothing => PlanView::Nothing,
            Plan::Bootstrap { schema_sql, records } => PlanView::Bootstrap {
                schema_sql: schema_sql@,
                records: record_views(records@),
            },
            Plan::Incremental { migrations_sql, records } => PlanView::Incremental {
                migrations_sql: migrations_sql@,
                records: record_views(records@),
            },
        }
    }
}

/// The plan for a database without a ledger: the texts of all schema scripts,
/// joined in the order of their numbers, and a record without a date for each
/// migration script. No migration script is run.
pub open spec fn bootstrap_of(schema: Seq<SqlFileView>, migrations: Seq<SqlFileView>) -> PlanView {
    PlanView::Bootstrap {
        schema_sql: joined(bodies_of(schema)),
        records: records_for(migrations, None),
    }
}

/// The plan for the scripts that are pending at the time `now`: nothing where
/// none is pending, else their texts, joined in the order of their numbers,
/// and a record dated `now` for each.
pub open spec fn incremental_of(pending: Seq<SqlFileView>, now: Timestamp) -> PlanView {
    if pending.len() == 0 {
        PlanView::Nothing
    } else {
        PlanView::Incremental {
            migrations_sql: joined(bodies_of(pending)),
            records: records_for(pending, Some(now)),
        }
    }
}

/// Plans the first run against a database that has no ledger.
pub fn bootstrap_plan(schema: &ScriptSet, migrations: &ScriptSet) -> (plan: Plan)
    ensures
        plan@ == bootstrap_of(schema@, migrations@),
{
    let schema_sql = join_bodies(schema.files());
    let records = records_of(migrations.files(), None);
    Plan::Bootstrap { schema_sql, records }
}

/// Plans the run of the pending scripts at the time `now`.
pub fn incremental_plan(pending: &Vec<SqlFile>, now: Timestamp) -> (plan: Plan)
    ensures
        plan@ == incremental_of(file_views(pending@), now),
{
    if pending.len() == 0 {
        Plan::Nothing
    } else {
        let migrations_sql = join_bodies(pending);
        let records = records_of(pending, Some(now));
        Plan::Incremental { migrations_sql, records }
    }
}

} // verus!
