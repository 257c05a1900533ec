use crate::decimal::{decimal_text, format_decimal, lemma_decimal_round_trip};
use crate::ledger::{record_views, Migration, MigrationView};
use crate::plan::{Plan, PlanView};
use vstd::prelude::*;

verus! {

/// The statement that opens a transaction.
pub const BEGIN: &'static str = "BEGIN TRANSACTION;";

/// The statement that commits a transaction.
pub const COMMIT: &'static str = "COMMIT TRANSACTION;";

/// The statements that make the ledger: the table `migrations` with its three
/// fields, the file name, the number, and the date of the run, which may be
/// absent.
pub const DEFINE_LEDGER: &'static str =
    "DEFINE TABLE migrations SCHEMAFULL;\nDEFINE FIELD fileName ON TABLE migrations TYPE string;\nDEFINE FIELD number ON TABLE migrations TYPE int;\nDEFINE FIELD dateRan ON TABLE migrations TYPE option<datetime>;";

/// A record of the ledger under the name by which a statement refers to it.
#[derive(Debug)]
pub struct Binding {
    pub name: String,
    pub record: Migration,
}

/// The statements of one transaction, in the order in which they run, and the
/// records that the statements refer to by name.
#[derive(Debug)]
pub struct Transaction {
    pub statements: Vec<String>,
    pub bindings: Vec<Binding>,
}

/// What a [`Binding`] holds, as mathematical values.
pub struct BindingView {
    pub name: Seq<char>,
    pub record: MigrationView,
}

/// What a [`Transaction`] holds, as mathematical values.
pub struct TransactionView {
    pub statements: Seq<Seq<char>>,
    pub bindings: Seq<BindingView>,
}

impl View for Binding {
    type V = BindingView;

    open spec fn view(&self) -> BindingView {
        BindingView { name: self.name@, record: self.record@ }
    }
}

/// The texts of the statements, in the same order.
pub open spec fn statement_views(statements: Seq<String>) -> Seq<Seq<char>> {
    Seq::new(statements.len(), |i: int| statements[i]@)
}

/// The views of the bindings, in the same order.
pub open spec fn binding_views(bindings: Seq<Binding>) -> Seq<BindingView> {
    Seq::new(bindings.len(), |i: int| bindings[i]@)
}

impl View for Transaction {
    type V = TransactionView;

    open spec fn view(&self) -> TransactionView {
        TransactionView {
            statements: statement_views(self.statements@),
            bindings: binding_views(self.bindings@),
        }
    }
}

/// The name under which the record at place `index` is bound.
pub open spec fn binding_name(index: nat) -> Seq<char> {
    "migration"@ + decimal_text(index)
}

/// The statement that enters the record at place `index` into the ledger.
pub open spec fn insert_statement(index: nat) -> Seq<char> {
    "INSERT INTO migrations $"@ + binding_name(index) + ";"@
}

/// One statement for each of `count` records, in the records' order.
pub open spec fn insert_statements(count: nat) -> Seq<Seq<char>> {
    Seq::new(count, |i: int| insert_statement(i as nat))
}

/// Each record under the name of its place.
pub open spec fn bindings_for(records: Seq<MigrationView>) -> Seq<BindingView> {
    Seq::new(records.len(), |i: int| BindingView { name: binding_name(i as nat), record: records[i] })
}

/// The transaction that carries a plan out. At bootstrap: the schema, then
/// the definition of the ledger, then one insertion for each record.
/// Otherwise: the pending migrations, then one insertion for each record. A
/// plan to do nothing has no transaction.
pub open spec fn transaction_for(plan: PlanView) -> Option<TransactionView> {
    match plan {
        PlanView::Nothing => None,
        PlanView::Bootstrap { schema_sql, records } => Some(
            TransactionView {
                statements: seq![BEGIN@, schema_sql, DEFINE_LEDGER@] + insert_statements(
                    records.len(),
                ) + seq![COMMIT@],
                bindings: bindings_for(records),
            },
        ),
        PlanView::Incremental { migrations_sql, records } => Some(
            TransactionView {
                statements: seq![BEGIN@, migrations_sql] + insert_statements(records.len())
                    + seq![COMMIT@],
                bindings: bindings_for(records),
            },
        ),
    }
}

/// Records at different places are bound under different names, so that each
/// insertion refers to one record and to no other.
pub proof fn lemma_binding_names_differ(i: nat, j: nat)
    requires
        i != j,
    ensures
        binding_name(i) != binding_name(j),
        insert_statement(i) != insert_statement(j),
{
    let head = "migration"@;
    let lead = "INSERT INTO migrations $"@;
    lemma_decimal_round_trip(i);
    lemma_decimal_round_trip(j);
    if binding_name(i) == binding_name(j) {
        assert(binding_name(i).subrange(head.len() as int, binding_name(i).len() as int)
            =~= decimal_text(i));
        assert(binding_name(j).subrange(head.len() as int, binding_name(j).len() as int)
            =~= decimal_text(j));
    }
    if insert_statement(i) == insert_statement(j) {
        let a = insert_statement(i);
        let b = insert_statement(j);
        assert(a.subrange(lead.len() as int, a.len() - ";"@.len()) =~= binding_name(i));
        assert(b.subrange(lead.len() as int, b.len() - ";"@.len()) =~= binding_name(j));
    }
}

/// Appends to `statements` the insertion of each record, and returns the
/// records bound under the names that the insertions use.
fn bind_records(statements: &mut Vec<String>, records: &Vec<Migration>) -> (bindings: Vec<Binding>)
    ensures
        statement_views(final(statements)@) == statement_views(old(statements)@)
            + insert_statements(records.len() as nat),
        binding_views(bindings@) == bindings_for(record_views(records@)),
{
    let ghost head = statement_views(statements@);
    let mut bindings: Vec<Binding> = Vec::new();
    let mut i: usize = 0;
    while i < records.len()
        invariant
            0 <= i <= records.len(),
            bindings.len() == i,
            statement_views(statements@) == head + insert_statements(i as nat),
            forall|k: int|
                0 <= k < i ==> (#[trigger] bindings[k])@ == (BindingView {
                    name: binding_name(k as nat),
                    record: records[k]@,
                }),
        decreases records.len() - i,
    {
        let ghost before = statements@;
        let digits = format_decimal(i);
        let mut name = "migration".to_owned();
        name.append(digits.as_str());
        let mut statement = "INSERT INTO migrations $".to_owned();
        statement.append(name.as_str());
        statement.append(";");
        statements.push(statement);
        bindings.push(Binding { name, record: records[i].clone() });
        proof {
            assert(statement_views(statements@) =~= statement_views(before).push(
                insert_statement(i as nat),
            ));
            assert(insert_statements(i as nat + 1) =~= insert_statements(i as nat).push(
                insert_statement(i as nat),
            ));
            assert(statement_views(statements@) =~= head + insert_statements(i as nat + 1));
        }
        i = i + 1;
    }
    proof {
        assert(binding_views(bindings@) =~= bindings_for(record_views(records@)));
    }
    bindings
}

/// Writes out the transaction that carries `plan` out, if there is anything
/// to do.
pub fn transaction_of(plan: &Plan) -> (transaction: Option<Transaction>)
    ensures
        match transaction {
            Some(t) => transaction_for(plan@) == Some(t@),
            None => transaction_for(plan@) is None,
        },
{
    match plan {
        Plan::Nothing => None,
        Plan::Bootstrap { schema_sql, records } => {
            let mut statements: Vec<String> = Vec::new();
            statements.push(BEGIN.to_owned());
            statements.push(schema_sql.clone());
            statements.push(DEFINE_LEDGER.to_owned());
            assert(statement_views(statements@) =~= seq![BEGIN@, schema_sql@, DEFINE_LEDGER@]);
            let bindings = bind_records(&mut statements, records);
            let ghost body = statements@;
            statements.push(COMMIT.to_owned());
            assert(statement_views(statements@) =~= statement_views(body) + seq![COMMIT@]);
            Some(Transaction { statements, bindings })
        },
        Plan::Incremental { migrations_sql, records } => {
            let mut statements: Vec<String> = Vec::new();
            statements.push(BEGIN.to_owned());
            statements.push(migrations_sql.clone());
            assert(statement_views(statements@) =~= seq![BEGIN@, migrations_sql@]);
            let bindings = bind_records(&mut statements, records);
            let ghost body = statements@;
            statements.push(COMMIT.to_owned());
            assert(statement_views(statements@) =~= statement_views(body) + seq![COMMIT@]);
            Some(Transaction { statements, bindings })
        },
    }
}

} // verus!
