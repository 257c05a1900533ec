use crate::errors::MigrationsError;
use crate::ledger::{record_views, Migration, MigrationView, Timestamp};
use crate::plan::records_for;
use crate::script::{file_views, numbered_from_one, ScriptSet, SqlFile, SqlFileView};
use vstd::prelude::*;

verus! {

/// One of the first `upto` records of the ledger carries `number`.
pub open spec fn applied_before(applied: Seq<MigrationView>, upto: int, number: int) -> bool {
    exists|i: int| 0 <= i < upto && i < applied.len() && (#[trigger] applied[i]).number == number
}

/// Some record of the ledger carries `number`.
pub open spec fn is_applied(applied: Seq<MigrationView>, number: int) -> bool {
    applied_before(applied, applied.len() as int, number)
}

/// Record `j` of the ledger finds no script: the set has no script of its
/// number.
pub open spec fn is_vanished(files: Seq<SqlFileView>, applied: Seq<MigrationView>, j: int) -> bool {
    applied[j].number < 1 || applied[j].number > files.len()
}

/// Record `j` of the ledger finds its script under another name.
pub open spec fn is_mismatched(
    files: Seq<SqlFileView>,
    applied: Seq<MigrationView>,
    j: int,
) -> bool {
    &&& !is_vanished(files, applied, j)
    &&& files[applied[j].number - 1].file_name != applied[j].file_name
}

/// Record `j` of the ledger finds its script, under the name it recorded.
pub open spec fn is_accounted(files: Seq<SqlFileView>, applied: Seq<MigrationView>, j: int) -> bool {
    &&& !is_vanished(files, applied, j)
    &&& files[applied[j].number - 1].file_name == applied[j].file_name
}

/// Each of the first `upto` records of the ledger finds its script.
pub open spec fn accounted_before(
    files: Seq<SqlFileView>,
    applied: Seq<MigrationView>,
    upto: int,
) -> bool {
    forall|j: int| 0 <= j < upto ==> #[trigger] is_accounted(files, applied, j)
}

/// The ledger agrees with the set: every record finds its script.
pub open spec fn ledger_agrees(files: Seq<SqlFileView>, applied: Seq<MigrationView>) -> bool {
    accounted_before(files, applied, applied.len() as int)
}

/// The test that a script passes when no record of the ledger carries its
/// number.
pub open spec fn not_applied(applied: Seq<MigrationView>) -> spec_fn(SqlFileView) -> bool {
    |file: SqlFileView| !is_applied(applied, file.number as int)
}

/// The scripts that no record of the ledger carries the number of, in the
/// order of the set.
pub open spec fn pending_scripts(
    files: Seq<SqlFileView>,
    applied: Seq<MigrationView>,
) -> Seq<SqlFileView> {
    files.filter(not_applied(applied))
}

/// `error` is what is wrong between the ledger and the set: the first record
/// that does not find its script, under the name it recorded, decides, and
/// the error tells the record's number and file name and, where the script is
/// there under another name, that name.
pub open spec fn is_drift(
    files: Seq<SqlFileView>,
    applied: Seq<MigrationView>,
    error: MigrationsError,
) -> bool {
    match error {
        MigrationsError::MigrationFileInDbNotLongerExists { number, recorded } => exists|j: int|
            {
                &&& 0 <= j < applied.len()
                &&& #[trigger] is_vanished(files, applied, j)
                &&& accounted_before(files, applied, j)
                &&& number == applied[j].number
                &&& recorded@ == applied[j].file_name
            },
        MigrationsError::MigrationFileDbMismatch { number, recorded, file_name } => exists|j: int|
            {
                &&& 0 <= j < applied.len()
                &&& #[trigger] is_mismatched(files, applied, j)
                &&& accounted_before(files, applied, j)
                &&& number == applied[j].number
                &&& recorded@ == applied[j].file_name
                &&& file_name@ == files[number - 1].file_name
            },
        _ => false,
    }
}

/// Holds the ledger against the script set and returns the scripts that have
/// not been applied, in the order of their numbers.
///
/// The records are taken in the order given, and each is looked up in the
/// whole set by its number. A record is refused where the set has no script
/// of its number (the script is gone), and else where the script of its
/// number has another name (the number was used again). The first record that
/// is refused names the error, and then nothing is returned. A record that
/// the ledger holds more than once is held against the same script each time.
pub fn pending_migrations(set: &ScriptSet, applied: &Vec<Migration>) -> (res: Result<
    Vec<SqlFile>,
    MigrationsError,
>)
    ensures
        match res {
            Ok(pending) => {
                &&& ledger_agrees(set@, record_views(applied@))
                &&& file_views(pending@) == pending_scripts(set@, record_views(applied@))
            },
            Err(error) => is_drift(set@, record_views(applied@), error),
        },
{
    let files = set.files();
    let n = files.len();
    let ghost scripts = set@;
    let ghost records = record_views(applied@);
    let mut taken: Vec<bool> = Vec::new();
    while taken.len() < n
        invariant
            taken.len() <= n,
            forall|k: int| 0 <= k < taken.len() ==> !#[trigger] taken[k],
        decreases n - taken.len(),
    {
        taken.push(false);
    }
    let mut j: usize = 0;
    while j < applied.len()
        invariant
            0 <= j <= applied.len(),
            n == files.len(),
            taken.len() == n,
            scripts == set@,
            scripts == file_views(files@),
            numbered_from_one(scripts),
            records == record_views(applied@),
            forall|k: int| 0 <= k < n ==> #[trigger] taken[k] == applied_before(records, j as int, k + 1),
            accounted_before(scripts, records, j as int),
        decreases applied.len() - j,
    {
        let record = &applied[j];
        assert(records[j as int] == record@);
        if record.number < 1 || record.number as usize > n {
            assert(is_vanished(scripts, records, j as int));
            return Err(
                MigrationsError::MigrationFileInDbNotLongerExists {
                    number: record.number,
                    recorded: record.file_name.clone(),
                },
            );
        }
        let slot: usize = (record.number - 1) as usize;
        assert(scripts[slot as int] == files[slot as int]@);
        if !(files[slot].file_name == record.file_name) {
            assert(is_mismatched(scripts, records, j as int));
            return Err(
                MigrationsError::MigrationFileDbMismatch {
                    number: record.number,
                    recorded: record.file_name.clone(),
                    file_name: files[slot].file_name.clone(),
                },
            );
        }
        taken.set(slot, true);
        proof {
            assert(is_accounted(scripts, records, j as int));
            assert forall|k: int| 0 <= k < n implies #[trigger] taken[k] == applied_before(
                records,
                j as int + 1,
                k + 1,
            ) by {
                if applied_before(records, j as int, k + 1) {
                    let i = choose|i: int|
                        0 <= i < j && i < records.len() && (#[trigger] records[i]).number == k + 1;
                    assert(records[i].number == k + 1);
                }
                if k == slot {
                    assert(records[j as int].number == k + 1);
                }
                if applied_before(records, j as int + 1, k + 1) && k != slot {
                    let i = choose|i: int|
                        0 <= i < j + 1 && i < records.len() && (#[trigger] records[i]).number == k
                            + 1;
                    assert(i < j);
                }
            }
        }
        j = j + 1;
    }
    let mut pending: Vec<SqlFile> = Vec::new();
    let mut i: usize = 0;
    while i < n
        invariant
            0 <= i <= n,
            n == files.len(),
            taken.len() == n,
            scripts == file_views(files@),
            numbered_from_one(scripts),
            forall|k: int| 0 <= k < n ==> #[trigger] taken[k] == is_applied(records, k + 1),
            file_views(pending@) == scripts.take(i as int).filter(not_applied(records)),
        decreases n - i,
    {
        let ghost before = file_views(pending@);
        proof {
            scripts.take(i as int).lemma_filter_push(scripts[i as int], not_applied(records));
            assert(scripts.take(i as int).push(scripts[i as int]) =~= scripts.take(i as int + 1));
            assert(scripts[i as int].number == i + 1);
        }
        if !taken[i] {
            pending.push(files[i].clone());
            assert(file_views(pending@) =~= before.push(scripts[i as int]));
        }
        i = i + 1;
    }
    proof {
        assert(scripts.take(n as int) =~= scripts);
    }
    Ok(pending)
}

/// What is kept of a numbered set by a test stays in the order of the
/// numbers, and each script kept is the script of its number and passes the
/// test.
proof fn lemma_kept_scripts(files: Seq<SqlFileView>, test: spec_fn(SqlFileView) -> bool)
    requires
        numbered_from_one(files),
    ensures
        forall|k: int|
            0 <= k < files.filter(test).len() ==> {
                let kept = #[trigger] files.filter(test)[k];
                1 <= kept.number <= files.len() && files[kept.number - 1] == kept && test(kept)
            },
        forall|k1: int, k2: int|
            0 <= k1 < k2 < files.filter(test).len() ==> (#[trigger] files.filter(test)[k1]).number
                < (#[trigger] files.filter(test)[k2]).number,
    decreases files.len(),
{
    reveal(Seq::filter);
    if files.len() > 0 {
        let shorter = files.drop_last();
        lemma_kept_scripts(shorter, test);
        let kept = files.filter(test);
        let before = shorter.filter(test);
        assert forall|k: int| 0 <= k < kept.len() implies {
            let script = #[trigger] kept[k];
            1 <= script.number <= files.len() && files[script.number - 1] == script && test(script)
        } by {
            if k < before.len() {
                assert(kept[k] == before[k]);
                assert(shorter[before[k].number - 1] == before[k]);
            }
        }
        assert forall|k1: int, k2: int| 0 <= k1 < k2 < kept.len() implies (#[trigger] kept[k1]).number
            < (#[trigger] kept[k2]).number by {
            assert(kept[k1] == before[k1]);
            if k2 < before.len() {
                assert(kept[k2] == before[k2]);
            }
        }
    }
}

/// The pending scripts are the scripts of the set whose numbers the ledger
/// does not carry, each once and in ascending order of the numbers.
pub proof fn lemma_pending_in_order(files: Seq<SqlFileView>, applied: Seq<MigrationView>)
    requires
        numbered_from_one(files),
    ensures
        forall|k: int|
            0 <= k < pending_scripts(files, applied).len() ==> {
                let script = #[trigger] pending_scripts(files, applied)[k];
                &&& 1 <= script.number <= files.len()
                &&& files[script.number - 1] == script
                &&& !is_applied(applied, script.number as int)
            },
        forall|k1: int, k2: int|
            0 <= k1 < k2 < pending_scripts(files, applied).len() ==> (#[trigger] pending_scripts(
                files,
                applied,
            )[k1]).number < (#[trigger] pending_scripts(files, applied)[k2]).number,
        forall|i: int|
            0 <= i < files.len() && !is_applied(applied, (#[trigger] files[i]).number as int)
                ==> pending_scripts(files, applied).contains(files[i]),
{
    lemma_kept_scripts(files, not_applied(applied));
    assert forall|i: int|
        0 <= i < files.len() && !is_applied(
            applied,
            (#[trigger] files[i]).number as int,
        ) implies pending_scripts(files, applied).contains(files[i]) by {
        files.lemma_filter_contains(not_applied(applied), i);
    }
}

/// With an empty ledger every script of the set is pending.
pub proof fn lemma_all_pending_without_ledger(files: Seq<SqlFileView>)
    ensures
        pending_scripts(files, Seq::empty()) == files,
    decreases files.len(),
{
    reveal(Seq::filter);
    let none = Seq::<MigrationView>::empty();
    if files.len() > 0 {
        lemma_all_pending_without_ledger(files.drop_last());
        assert(!is_applied(none, files.last().number as int));
        assert(files.drop_last().push(files.last()) =~= files);
    }
}

/// Entering the pending scripts into the ledger leaves nothing pending: where
/// the ledger agrees with the set, the ledger with one more record for each
/// pending script, in their order, still agrees with it, and then names every
/// script.
pub proof fn lemma_nothing_pending_after_apply(
    files: Seq<SqlFileView>,
    applied: Seq<MigrationView>,
    date_ran: Option<Timestamp>,
)
    requires
        numbered_from_one(files),
        ledger_agrees(files, applied),
    ensures
        ledger_agrees(files, applied + records_for(pending_scripts(files, applied), date_ran)),
        pending_scripts(
            files,
            applied + records_for(pending_scripts(files, applied), date_ran),
        ).len() == 0,
{
    let pending = pending_scripts(files, applied);
    let added = records_for(pending, date_ran);
    let after = applied + added;
    let m = applied.len() as int;
    lemma_kept_scripts(files, not_applied(applied));
    assert forall|j: int| 0 <= j < after.len() implies #[trigger] is_accounted(files, after, j) by {
        if j < m {
            assert(is_accounted(files, applied, j));
            assert(after[j] == applied[j]);
        } else {
            let script = pending[j - m];
            assert(after[j] == added[j - m]);
            assert(files[script.number - 1] == script);
        }
    }
    let left = pending_scripts(files, after);
    if left.len() > 0 {
        lemma_kept_scripts(files, not_applied(after));
        let script = left[0];
        assert(files[script.number - 1] == script);
        assert(not_applied(after)(script));
        if is_applied(applied, script.number as int) {
            let i = choose|i: int|
                0 <= i < applied.len() && (#[trigger] applied[i]).number == script.number;
            assert(after[i].number == script.number);
        } else {
            files.lemma_filter_contains(not_applied(applied), script.number - 1);
            assert(pending.contains(script));
            let k = choose|k: int| 0 <= k < pending.len() && pending[k] == script;
            assert(after[m + k] == added[k]);
            assert(after[m + k].number == script.number);
        }
    }
}

} // verus!
