use crate::errors::MigrationsError;
use crate::ledger::{
    is_description_failure, is_well_described, ledger_exists, record_views, shows_ledger,
    InfoValue, Migration, MigrationView, Timestamp,
};
use crate::plan::{
    bodies_of, bootstrap_of, bootstrap_plan, incremental_of, incremental_plan, joined,
    record_for, records_for, Plan, PlanView,
};
use crate::reconcile::{
    is_applied, is_drift, ledger_agrees, lemma_all_pending_without_ledger,
    lemma_nothing_pending_after_apply, lemma_pending_in_order, pending_migrations,
    pending_scripts,
};
use crate::script::{
    get_sql_files, is_load_failure, is_loadable, numbered_from_one, plain_names_read,
    script_set_of, RawFile, SqlFileView,
};
use crate::transaction::{
    binding_name, insert_statements, transaction_for, transaction_of, BindingView, Transaction,
    BEGIN, COMMIT, DEFINE_LEDGER,
};
use vstd::prelude::*;

verus! {

/// Reads the clock through `chrono::Utc::now` and hands the time on as the
/// seconds and nanoseconds that `DateTime::timestamp` and
/// `DateTime::timestamp_subsec_nanos` give. Nothing is promised of the
/// result: two calls differ. `Utc::now` panics where the system clock stands
/// before 1970.
#[verifier::external_body]
fn current_time() -> (now: Timestamp) {
    let now = chrono::Utc::now();
    Timestamp { secs: now.timestamp(), nanos: now.timestamp_subsec_nanos() }
}

/// `error` is what stops the first run: a description of the wrong shape; or,
/// with no ledger shown, the schema scripts failing to load; or, with those
/// loaded, the migration scripts failing to load.
pub open spec fn is_bootstrap_failure(
    rows: Seq<InfoValue>,
    schema_files: Seq<RawFile>,
    migration_files: Seq<RawFile>,
    error: MigrationsError,
) -> bool {
    ||| is_description_failure(rows, error)
    ||| is_well_described(rows) && !shows_ledger(rows) && is_load_failure(schema_files, error)
    ||| is_well_described(rows) && !shows_ledger(rows) && is_loadable(schema_files)
        && is_load_failure(migration_files, error)
}

/// `error` is what stops a later run: the migration scripts failing to load,
/// or, with those loaded, the ledger disagreeing with them.
pub open spec fn is_incremental_failure(
    applied: Seq<Migration>,
    migration_files: Seq<RawFile>,
    error: MigrationsError,
) -> bool {
    ||| is_load_failure(migration_files, error)
    ||| is_loadable(migration_files) && is_drift(
        script_set_of(migration_files),
        record_views(applied),
        error,
    )
}

/// Decides, from the database's description of itself, whether the ledger and
/// the schema have to be made, and plans that. With a ledger in place nothing
/// is planned, and no script is even loaded. Without one, both sets of scripts
/// are loaded, the schema first, and the plan is to run the whole schema, make
/// the ledger, and record every migration as done without running it.
pub fn create_migration_table_and_schema_if_not_exists(
    rows: &Vec<InfoValue>,
    schema_files: &Vec<RawFile>,
    migration_files: &Vec<RawFile>,
) -> (res: Result<Option<Plan>, MigrationsError>)
    ensures
        match res {
            Ok(None) => is_well_described(rows@) && shows_ledger(rows@),
            Ok(Some(plan)) => {
                &&& is_well_described(rows@)
                &&& !shows_ledger(rows@)
                &&& is_loadable(schema_files@)
                &&& is_loadable(migration_files@)
                &&& plan@ == bootstrap_of(
                    script_set_of(schema_files@),
                    script_set_of(migration_files@),
                )
            },
            Err(error) => is_bootstrap_failure(rows@, schema_files@, migration_files@, error),
        },
        is_well_described(rows@) && !shows_ledger(rows@) ==> plain_names_read(schema_files@),
        is_well_described(rows@) && !shows_ledger(rows@) && is_loadable(schema_files@)
            ==> plain_names_read(migration_files@),
{
    let exists = match ledger_exists(rows) {
        Ok(exists) => exists,
        Err(error) => {
            return Err(error);
        },
    };
    if exists {
        return Ok(None);
    }
    let schema = match get_sql_files(schema_files) {
        Ok(schema) => schema,
        Err(error) => {
            return Err(error);
        },
    };
    let migrations = match get_sql_files(migration_files) {
        Ok(migrations) => migrations,
        Err(error) => {
            return Err(error);
        },
    };
    Ok(Some(bootstrap_plan(&schema, &migrations)))
}

/// Plans the run of the migrations that the ledger does not name yet, to be
/// dated `now`. The scripts are loaded, the ledger is held against them, and
/// what is left over is planned in the order of the numbers; nothing is
/// planned where nothing is left over.
pub fn plan_new_migrations(
    applied: &Vec<Migration>,
    migration_files: &Vec<RawFile>,
    now: Timestamp,
) -> (res: Result<Plan, MigrationsError>)
    ensures
        match res {
            Ok(plan) => {
                &&& is_loadable(migration_files@)
                &&& ledger_agrees(script_set_of(migration_files@), record_views(applied@))
                &&& plan@ == incremental_of(
                    pending_scripts(script_set_of(migration_files@), record_views(applied@)),
                    now,
                )
            },
            Err(error) => is_incremental_failure(applied@, migration_files@, error),
        },
        plain_names_read(migration_files@),
{
    let migrations = match get_sql_files(migration_files) {
        Ok(migrations) => migrations,
        Err(error) => {
            return Err(error);
        },
    };
    let pending = match pending_migrations(&migrations, applied) {
        Ok(pending) => pending,
        Err(error) => {
            return Err(error);
        },
    };
    Ok(incremental_plan(&pending, now))
}

/// Plans the run of the migrations that the ledger does not name yet, dated
/// with the time at which the plan is made.
pub fn run_any_new_migrations(applied: &Vec<Migration>, migration_files: &Vec<RawFile>) -> (res:
    Result<Plan, MigrationsError>)
    ensures
        match res {
            Ok(plan) => {
                &&& is_loadable(migration_files@)
                &&& ledger_agrees(script_set_of(migration_files@), record_views(applied@))
                &&& exists|now: Timestamp|
                    plan@ == #[trigger] incremental_of(
                        pending_scripts(script_set_of(migration_files@), record_views(applied@)),
                        now,
                    )
            },
            Err(error) => is_incremental_failure(applied@, migration_files@, error),
        },
        plain_names_read(migration_files@),
{
    plan_new_migrations(applied, migration_files, current_time())
}

/// What has just happened in a run: it started, or the database answered, or
/// it failed.
#[derive(Debug)]
pub enum Event {
    /// The run begins.
    Started,
    /// The database described itself with these rows.
    Described(Vec<InfoValue>),
    /// The database handed over the records of the ledger.
    LedgerRead(Vec<Migration>),
    /// The database committed the transaction.
    Applied,
    /// The database refused or failed the last request.
    Failed(surrealdb::Error),
}

/// What is to happen next in a run.
#[derive(Debug)]
pub enum Action {
    /// Ask the database to describe itself.
    ReadDescription,
    /// Ask the database for all records of the ledger.
    ReadLedger,
    /// Have the database run the transaction, all of it or nothing.
    Apply(Transaction),
    /// Stop: the database is up to date.
    Finish,
}

/// Decides what a run does next.
///
/// A run starts by asking for the database's description. Where that shows no
/// ledger, the run applies the bootstrap transaction and is over after it,
/// without looking at the migrations again. Where it shows one, the run asks
/// for the ledger, and then either has nothing to do or applies the pending
/// migrations. Any failure, of the database or of what is decided here, ends
/// the run with its error, and nothing more is sent.
pub fn next_action(event: Event, schema_files: &Vec<RawFile>, migration_files: &Vec<RawFile>) -> (res:
    Result<Action, MigrationsError>)
    ensures
        match event {
            Event::Started => res matches Ok(Action::ReadDescription),
            Event::Described(rows) => match res {
                Ok(Action::ReadLedger) => is_well_described(rows@) && shows_ledger(rows@),
                Ok(Action::Apply(transaction)) => {
                    &&& is_well_described(rows@)
                    &&& !shows_ledger(rows@)
                    &&& is_loadable(schema_files@)
                    &&& is_loadable(migration_files@)
                    &&& Some(transaction@) == transaction_for(
                        bootstrap_of(script_set_of(schema_files@), script_set_of(migration_files@)),
                    )
                },
                Ok(_) => false,
                Err(error) => is_bootstrap_failure(rows@, schema_files@, migration_files@, error),
            },
            Event::LedgerRead(applied) => match res {
                Ok(Action::Finish) => {
                    &&& is_loadable(migration_files@)
                    &&& ledger_agrees(script_set_of(migration_files@), record_views(applied@))
                    &&& pending_scripts(
                        script_set_of(migration_files@),
                        record_views(applied@),
                    ).len() == 0
                },
                Ok(Action::Apply(transaction)) => {
                    &&& is_loadable(migration_files@)
                    &&& ledger_agrees(script_set_of(migration_files@), record_views(applied@))
                    &&& pending_scripts(
                        script_set_of(migration_files@),
                        record_views(applied@),
                    ).len() > 0
                    &&& exists|now: Timestamp|
                        Some(transaction@) == transaction_for(
                            #[trigger] incremental_of(
                                pending_scripts(
                                    script_set_of(migration_files@),
                                    record_views(applied@),
                                ),
                                now,
                            ),
                        )
                },
                Ok(_) => false,
                Err(error) => is_incremental_failure(applied@, migration_files@, error),
            },
            Event::Applied => res matches Ok(Action::Finish),
            Event::Failed(failure) => res matches Err(MigrationsError::Surrealdb(inner)) && inner
                == failure,
        },
        match event {
            Event::Described(rows) => {
                &&& is_well_described(rows@) && !shows_ledger(rows@) ==> plain_names_read(
                    schema_files@,
                )
                &&& is_well_described(rows@) && !shows_ledger(rows@) && is_loadable(schema_files@)
                    ==> plain_names_read(migration_files@)
            },
            Event::LedgerRead(_) => plain_names_read(migration_files@),
            _ => true,
        },
{
    match event {
        Event::Started => Ok(Action::ReadDescription),
        Event::Described(rows) => {
            match create_migration_table_and_schema_if_not_exists(
                &rows,
                schema_files,
                migration_files,
            ) {
                Err(error) => Err(error),
                Ok(None) => Ok(Action::ReadLedger),
                Ok(Some(plan)) => match transaction_of(&plan) {
                    Some(transaction) => Ok(Action::Apply(transaction)),
                    None => Ok(Action::Finish),
                },
            }
        },
        Event::LedgerRead(applied) => {
            match run_any_new_migrations(&applied, migration_files) {
                Err(error) => Err(error),
                Ok(plan) => match transaction_of(&plan) {
                    Some(transaction) => Ok(Action::Apply(transaction)),
                    None => Ok(Action::Finish),
                },
            }
        },
        Event::Applied => Ok(Action::Finish),
        Event::Failed(failure) => Err(MigrationsError::Surrealdb(failure)),
    }
}

/// The plan of a run, given what the database holds: `None` for a database
/// without a ledger, else the records of its ledger.
pub open spec fn plan_for(
    ledger: Option<Seq<MigrationView>>,
    schema: Seq<SqlFileView>,
    migrations: Seq<SqlFileView>,
    now: Timestamp,
) -> PlanView {
    match ledger {
        None => bootstrap_of(schema, migrations),
        Some(applied) => incremental_of(pending_scripts(migrations, applied), now),
    }
}

/// The ledger after a plan has been carried out: the records of the plan are
/// added to it, in their order, and nothing else about it changes.
pub open spec fn ledger_after(
    ledger: Option<Seq<MigrationView>>,
    plan: PlanView,
) -> Option<Seq<MigrationView>> {
    match plan {
        PlanView::Nothing => ledger,
        PlanView::Bootstrap { records, .. } => Some(records),
        PlanView::Incremental { records, .. } => match ledger {
            Some(applied) => Some(applied + records),
            None => Some(records),
        },
    }
}

/// A run straight after a run has nothing to do. Whatever the first run
/// found, no ledger or a ledger that agrees with the migration scripts, the
/// database has a ledger after it that agrees with the scripts, and the plan
/// of a second run with the same scripts is to do nothing.
pub proof fn lemma_second_run_does_nothing(
    ledger: Option<Seq<MigrationView>>,
    schema: Seq<SqlFileView>,
    migrations: Seq<SqlFileView>,
    now: Timestamp,
    later: Timestamp,
)
    requires
        numbered_from_one(migrations),
        ledger matches Some(applied) ==> ledger_agrees(migrations, applied),
    ensures
        ledger_after(ledger, plan_for(ledger, schema, migrations, now)) matches Some(applied)
            && ledger_agrees(migrations, applied),
        plan_for(
            ledger_after(ledger, plan_for(ledger, schema, migrations, now)),
            schema,
            migrations,
            later,
        ) == PlanView::Nothing,
{
    match ledger {
        None => {
            let none = Seq::<MigrationView>::empty();
            lemma_all_pending_without_ledger(migrations);
            lemma_nothing_pending_after_apply(migrations, none, None);
            assert(none + records_for(migrations, None) =~= records_for(migrations, None));
        },
        Some(applied) => {
            lemma_nothing_pending_after_apply(migrations, applied, Some(now));
        },
    }
}

/// What a run against a database with a ledger sends, where the ledger agrees
/// with the scripts and some script is pending. It is one transaction: the
/// texts of the pending scripts, joined in the order of their numbers, then
/// one insertion for each pending script, in the same order, and nothing
/// else between the opening and the commit. Each insertion is bound to the
/// record of its script, dated with the time of the run. A script whose
/// number the ledger carries is neither run nor recorded again, and every
/// other script of the set is run and recorded, once. Afterwards the ledger
/// holds what it held and the new records behind it.
pub proof fn lemma_incremental_run(
    applied: Seq<MigrationView>,
    schema: Seq<SqlFileView>,
    migrations: Seq<SqlFileView>,
    now: Timestamp,
)
    requires
        numbered_from_one(migrations),
        ledger_agrees(migrations, applied),
        pending_scripts(migrations, applied).len() > 0,
    ensures
        ({
            let pending = pending_scripts(migrations, applied);
            let plan = plan_for(Some(applied), schema, migrations, now);
            &&& transaction_for(plan) matches Some(sent)
            &&& sent.statements == seq![BEGIN@, joined(bodies_of(pending))] + insert_statements(
                pending.len(),
            ) + seq![COMMIT@]
            &&& sent.bindings.len() == pending.len()
            &&& forall|k: int|
                0 <= k < pending.len() ==> #[trigger] sent.bindings[k] == (BindingView {
                    name: binding_name(k as nat),
                    record: record_for(pending[k], Some(now)),
                })
            &&& forall|k: int|
                0 <= k < pending.len() ==> !is_applied(
                    applied,
                    (#[trigger] sent.bindings[k]).record.number as int,
                )
            &&& forall|k1: int, k2: int|
                0 <= k1 < k2 < pending.len() ==> (#[trigger] sent.bindings[k1]).record.number < (
                #[trigger] sent.bindings[k2]).record.number
            &&& forall|i: int|
                0 <= i < migrations.len() && !is_applied(
                    applied,
                    (#[trigger] migrations[i]).number as int,
                ) ==> pending.contains(migrations[i])
            &&& ledger_after(Some(applied), plan) == Some(
                applied + records_for(pending, Some(now)),
            )
        }),
{
    lemma_pending_in_order(migrations, applied);
    let pending = pending_scripts(migrations, applied);
    let plan = plan_for(Some(applied), schema, migrations, now);
    let sent = transaction_for(plan)->Some_0;
    assert forall|k: int| 0 <= k < pending.len() implies !is_applied(
        applied,
        (#[trigger] sent.bindings[k]).record.number as int,
    ) by {
        assert(sent.bindings[k].record == record_for(pending[k], Some(now)));
    }
    assert forall|k1: int, k2: int| 0 <= k1 < k2 < pending.len() implies (
    #[trigger] sent.bindings[k1]).record.number < (#[trigger] sent.bindings[k2]).record.number by {
        assert(sent.bindings[k1].record == record_for(pending[k1], Some(now)));
        assert(sent.bindings[k2].record == record_for(pending[k2], Some(now)));
    }
}

/// What a run against a database without a ledger sends. It is one
/// transaction: the texts of all schema scripts, joined in the order of their
/// numbers, then the definition of the ledger, then one insertion for each
/// migration script, in the order of the numbers, and nothing else between
/// the opening and the commit: no migration script is run. Each insertion is
/// bound to the record of its script, without a date. Afterwards the ledger
/// holds these records.
pub proof fn lemma_bootstrap_run(
    schema: Seq<SqlFileView>,
    migrations: Seq<SqlFileView>,
    now: Timestamp,
)
    ensures
        ({
            let plan = plan_for(None, schema, migrations, now);
            &&& transaction_for(plan) matches Some(sent)
            &&& sent.statements == seq![BEGIN@, joined(bodies_of(schema)), DEFINE_LEDGER@]
                + insert_statements(migrations.len()) + seq![COMMIT@]
            &&& sent.bindings.len() == migrations.len()
            &&& forall|k: int|
                0 <= k < migrations.len() ==> #[trigger] sent.bindings[k] == (BindingView {
                    name: binding_name(k as nat),
                    record: record_for(migrations[k], None),
                })
            &&& ledger_after(None, plan) == Some(records_for(migrations, None))
        }),
{
}

} // verus!
