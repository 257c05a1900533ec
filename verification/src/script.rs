use crate::decimal::{all_digits, is_digit, parse_u32, parse_u32_spec};
use crate::errors::MigrationsError;
use vstd::prelude::*;
use vstd::utf8::{decode_utf8, is_ascii_chars, valid_utf8};

verus! {

/// One entry of a collection of scripts as the caller found it: the name under
/// which the collection lists it, and its bytes, or `None` where the
/// collection lists the name but hands out nothing for it.
#[derive(Debug)]
pub struct RawFile {
    pub name: String,
    pub data: Option<Vec<u8>>,
}

/// A script whose name has been read: the number at the start of the name, the
/// name, and the script's text where its bytes could be fetched.
#[derive(Debug)]
pub struct NumberedFile {
    pub number: u32,
    pub name: String,
    pub body: Option<String>,
}

/// A script that is ready to run.
#[derive(Debug)]
pub struct SqlFile {
    pub file_name: String,
    pub number: u32,
    pub sql: String,
}

/// What a [`SqlFile`] holds, as mathematical values.
pub struct SqlFileView {
    pub file_name: Seq<char>,
    pub number: u32,
    pub sql: Seq<char>,
}

impl View for SqlFile {
    type V = SqlFileView;

    open spec fn view(&self) -> SqlFileView {
        SqlFileView { file_name: self.file_name@, number: self.number, sql: self.sql@ }
    }
}

impl Clone for SqlFile {
    fn clone(&self) -> (copy: SqlFile)
        ensures
            copy@ == self@,
    {
        SqlFile { file_name: self.file_name.clone(), number: self.number, sql: self.sql.clone() }
    }
}

/// The views of the scripts of `files`, in the same order.
pub open spec fn file_views(files: Seq<SqlFile>) -> Seq<SqlFileView> {
    Seq::new(files.len(), |i: int| files[i]@)
}

/// The text that the pattern `^\d+` of the `regex` crate matches in `name`:
/// the longest run of decimal digits at the very start of `name`, where a
/// decimal digit is any character of Unicode's class `Nd`, not only `0` to
/// `9`. It is `None` where `name` does not start with such a character.
pub uninterp spec fn leading_digit_run(name: Seq<char>) -> Option<Seq<char>>;

/// What `String::from_utf8_lossy` makes of `bytes`: the text that `bytes`
/// encode in UTF-8, with U+FFFD in place of each part that is no valid
/// encoding.
pub uninterp spec fn utf8_lossy(bytes: Seq<u8>) -> Seq<char>;

/// Runs `regex::Regex` with the pattern `^\d+` on `name` and returns the text
/// of the whole match, as `Captures::get(0)` gives it. Nothing is proved of
/// the search. The contract gives its result the name [`leading_digit_run`],
/// so that the same name always has the same run, and adds what the crate's
/// documentation says of the pattern: `^` ties the match to the start of the
/// name and `+` asks for at least one character, so a run is a beginning of
/// the name and not empty; `+` takes as many characters as match; and among
/// the ASCII characters `\d` matches `0` to `9` and no other, so in a name of
/// ASCII characters alone the run is the longest beginning made of these.
#[verifier::external_body]
fn match_leading_digits(name: &str) -> (run: Option<String>)
    ensures
        run matches Some(text) ==> leading_digit_run(name@) == Some(text@),
        run is None ==> leading_digit_run(name@) is None,
        run matches Some(text) ==> 0 < text@.len() <= name@.len() && text@ == name@.take(
            text@.len() as int,
        ),
        is_ascii_chars(name@) ==> match run {
            Some(text) => all_digits(text@) && (text@.len() < name@.len() ==> !is_digit(
                name@[text@.len() as int],
            )),
            None => name@.len() == 0 || !is_digit(name@[0]),
        },
{
    let pattern = regex::Regex::new(r"^\d+").unwrap();
    let found = pattern.captures(name)?.get(0)?;
    Some(found.as_str().to_string())
}

/// Calls `String::from_utf8_lossy` on `bytes`. The contract names the result
/// [`utf8_lossy`] and adds what the function's documentation promises of
/// bytes that are valid UTF-8: they come back as the text they encode, with
/// nothing replaced.
#[verifier::external_body]
fn decode_lossy(bytes: &Vec<u8>) -> (text: String)
    ensures
        text@ == utf8_lossy(bytes@),
        valid_utf8(bytes@) ==> text@ == decode_utf8(bytes@),
{
    String::from_utf8_lossy(bytes.as_slice()).into_owned()
}

/// The number that a script's name gives it: the digits at the start of the
/// name, read in base ten. A name has no number where it starts with no
/// digit, where a digit of its leading run is none of `0` to `9`, or where
/// the run denotes more than 32 bits hold.
pub open spec fn file_number(name: Seq<char>) -> Option<u32> {
    match leading_digit_run(name) {
        Some(run) => parse_u32_spec(run),
        None => None,
    }
}

/// The longest beginning of `name` that is made of the digits `0` to `9`.
pub open spec fn plain_digit_run(name: Seq<char>) -> Seq<char>
    decreases name.len(),
{
    if name.len() > 0 && is_digit(name[0]) {
        seq![name[0]] + plain_digit_run(name.drop_first())
    } else {
        Seq::empty()
    }
}

/// The number that the digits `0` to `9` at the start of `name` denote. This
/// is the number of every name that is made of ASCII characters alone.
pub open spec fn plain_number(name: Seq<char>) -> Option<u32> {
    parse_u32_spec(plain_digit_run(name))
}

/// A beginning of `name` that is made of digits, and after which no digit
/// follows, is the longest such beginning.
pub proof fn lemma_plain_digit_run(name: Seq<char>, k: int)
    requires
        0 <= k <= name.len(),
        all_digits(name.take(k)),
        k < name.len() ==> !is_digit(name[k]),
    ensures
        plain_digit_run(name) == name.take(k),
    decreases k,
{
    if k == 0 {
        assert(name.take(0) =~= Seq::<char>::empty());
    } else {
        let rest = name.drop_first();
        assert(name.take(k)[0] == name[0]);
        assert forall|i: int| 0 <= i < k - 1 implies is_digit(#[trigger] rest.take(k - 1)[i]) by {
            assert(name.take(k)[i + 1] == rest[i]);
        }
        lemma_plain_digit_run(rest, k - 1);
        assert(seq![name[0]] + rest.take(k - 1) =~= name.take(k));
    }
}

/// The number of the script called `name`, given the digits that were found
/// at the start of the name, if any.
pub fn read_number(name: &str, digits: Option<String>) -> (number: Result<u32, MigrationsError>)
    ensures
        match number {
            Ok(n) => digits matches Some(text) && parse_u32_spec(text@) == Some(n),
            Err(MigrationsError::FileNameMalformed { file_name }) => {
                &&& file_name@ == name@
                &&& digits matches Some(text) ==> parse_u32_spec(text@) is None
            },
            Err(_) => false,
        },
{
    match digits {
        Some(text) => match parse_u32(text.as_str()) {
            Some(n) => Ok(n),
            None => Err(MigrationsError::FileNameMalformed { file_name: name.to_owned() }),
        },
        None => Err(MigrationsError::FileNameMalformed { file_name: name.to_owned() }),
    }
}

/// Reads the number of the script called `name`. For a name of ASCII
/// characters alone this is the number that the digits `0` to `9` at its
/// start denote.
pub fn script_number(name: &str) -> (number: Result<u32, MigrationsError>)
    ensures
        match number {
            Ok(n) => file_number(name@) == Some(n),
            Err(MigrationsError::FileNameMalformed { file_name }) => {
                &&& file_name@ == name@
                &&& file_number(name@) is None
            },
            Err(_) => false,
        },
        is_ascii_chars(name@) ==> file_number(name@) == plain_number(name@),
{
    let digits = match_leading_digits(name);
    proof {
        if is_ascii_chars(name@) {
            if digits is Some {
                lemma_plain_digit_run(name@, digits->Some_0@.len() as int);
            } else {
                lemma_plain_digit_run(name@, 0);
                assert(name@.take(0) =~= Seq::<char>::empty());
            }
        }
    }
    read_number(name, digits)
}

/// `to` holds the entries of `from` in ascending order of their numbers, and
/// entries with one number in the order they had in `from`: `to[j]` is the
/// entry that stood at `from[perm[j]]`, and `perm` leaves out no place of
/// `from`.
pub open spec fn sorted_by_number(
    perm: Seq<int>,
    from: Seq<NumberedFile>,
    to: Seq<NumberedFile>,
) -> bool {
    &&& perm.len() == from.len()
    &&& to.len() == from.len()
    &&& forall|j: int|
        0 <= j < to.len() ==> 0 <= #[trigger] perm[j] < from.len() && to[j] == from[perm[j]]
    &&& forall|i: int| 0 <= i < from.len() ==> #[trigger] perm.contains(i)
    &&& forall|j1: int, j2: int|
        0 <= j1 < j2 < to.len() ==> (#[trigger] to[j1]).number < (#[trigger] to[j2]).number || (
        to[j1].number == to[j2].number && perm[j1] < perm[j2])
}

/// Sorts the entries by number, ascending. Entries with the same number keep
/// the order in which they came.
pub fn sort_by_number(entries: Vec<NumberedFile>) -> (sorted: Vec<NumberedFile>)
    ensures
        exists|perm: Seq<int>| sorted_by_number(perm, entries@, sorted@),
{
    let ghost from = entries@;
    let mut rest = entries;
    let mut sorted: Vec<NumberedFile> = Vec::new();
    let ghost mut perm: Seq<int> = Seq::empty();
    while rest.len() > 0
        invariant
            rest@ == from.take(rest.len() as int),
            rest.len() <= from.len(),
            perm.len() == sorted.len(),
            sorted.len() == from.len() - rest.len(),
            forall|j: int|
                0 <= j < sorted.len() ==> rest.len() <= #[trigger] perm[j] < from.len()
                    && sorted[j] == from[perm[j]],
            forall|i: int| rest.len() <= i < from.len() ==> #[trigger] perm.contains(i),
            forall|j1: int, j2: int|
                0 <= j1 < j2 < sorted.len() ==> (#[trigger] sorted[j1]).number < (
                #[trigger] sorted[j2]).number || (sorted[j1].number == sorted[j2].number
                    && perm[j1] < perm[j2]),
        decreases rest.len(),
    {
        let ghost old_perm = perm;
        let ghost old_sorted = sorted@;
        let entry = rest.pop().unwrap();
        let ghost m: int = rest.len() as int;
        assert(entry == from[m]);
        let mut at: usize = 0;
        while at < sorted.len() && sorted[at].number < entry.number
            invariant
                0 <= at <= sorted.len(),
                forall|j: int| 0 <= j < at ==> (#[trigger] sorted[j]).number < entry.number,
            decreases sorted.len() - at,
        {
            at = at + 1;
        }
        sorted.insert(at, entry);
        proof {
            perm = old_perm.insert(at as int, m);
            assert(rest@ =~= from.take(m));
            assert forall|j: int| 0 <= j < sorted.len() implies m <= #[trigger] perm[j]
                < from.len() && sorted[j] == from[perm[j]] by {
                if j < at {
                    assert(perm[j] == old_perm[j]);
                } else if j > at {
                    assert(perm[j] == old_perm[j - 1]);
                }
            }
            assert forall|i: int| m <= i < from.len() implies #[trigger] perm.contains(i) by {
                if i == m {
                    assert(perm[at as int] == m);
                } else {
                    assert(old_perm.contains(i));
                    let j0 = choose|j: int| 0 <= j < old_perm.len() && old_perm[j] == i;
                    if j0 < at {
                        assert(perm[j0] == i);
                    } else {
                        assert(perm[j0 + 1] == i);
                    }
                }
            }
            assert forall|j1: int, j2: int| 0 <= j1 < j2 < sorted.len() implies (
            #[trigger] sorted[j1]).number < (#[trigger] sorted[j2]).number || (sorted[j1].number
                == sorted[j2].number && perm[j1] < perm[j2]) by {
                let k1 = if j1 < at { j1 } else { j1 - 1 };
                let k2 = if j2 < at { j2 } else { j2 - 1 };
                if j1 != at && j2 != at {
                    assert(perm[j1] == old_perm[k1] && perm[j2] == old_perm[k2]);
                    assert(sorted[j1] == old_sorted[k1] && sorted[j2] == old_sorted[k2]);
                } else if j1 == at {
                    assert(perm[j2] == old_perm[k2]);
                    assert(sorted[j2] == old_sorted[k2]);
                    if k2 > at {
                        assert(old_sorted[at as int].number < old_sorted[k2].number || (
                        old_sorted[at as int].number == old_sorted[k2].number && old_perm[at as int]
                            < old_perm[k2]));
                    }
                } else {
                    assert(sorted[j1] == old_sorted[j1]);
                }
            }
        }
    }
    proof {
        assert(sorted_by_number(perm, from, sorted@));
    }
    sorted
}

/// The numbers of the entries, in the entries' order.
pub open spec fn numbers_of(entries: Seq<NumberedFile>) -> Seq<u32> {
    Seq::new(entries.len(), |i: int| entries[i].number)
}

/// The number `k` occurs among the numbers given.
pub open spec fn has_number(numbers: Seq<u32>, k: int) -> bool {
    exists|i: int| 0 <= i < numbers.len() && #[trigger] numbers[i] == k
}

/// Each of the numbers 1, 2, ..., n occurs among the n numbers given. The
/// numbers then are these in some order: none is left out, and so none can
/// occur twice.
pub open spec fn is_contiguous_from_one(numbers: Seq<u32>) -> bool {
    forall|k: int| 1 <= k <= numbers.len() ==> #[trigger] has_number(numbers, k)
}

/// No number is smaller than one before it.
pub open spec fn is_ascending(numbers: Seq<u32>) -> bool {
    forall|j1: int, j2: int|
        0 <= j1 < j2 < numbers.len() ==> #[trigger] numbers[j1] <= #[trigger] numbers[j2]
}

/// The text of every entry is there.
pub open spec fn all_loaded(entries: Seq<NumberedFile>) -> bool {
    forall|i: int| 0 <= i < entries.len() ==> (#[trigger] entries[i]).body is Some
}

/// The script that an entry with a text stands for.
pub open spec fn script_of(entry: NumberedFile) -> SqlFileView {
    SqlFileView { file_name: entry.name@, number: entry.number, sql: entry.body.unwrap()@ }
}

/// The scripts are numbered 1, 2, 3, ... in the order in which they stand.
pub open spec fn numbered_from_one(files: Seq<SqlFileView>) -> bool {
    forall|i: int| 0 <= i < files.len() ==> (#[trigger] files[i]).number == i + 1
}

/// In an ascending row that holds each of 1, ..., n, a number of at least `k`
/// has at least `k - 1` places before it.
proof fn lemma_rank_lower(numbers: Seq<u32>, k: int, j: int)
    requires
        is_ascending(numbers),
        is_contiguous_from_one(numbers),
        1 <= k <= numbers.len() + 1,
        0 <= j < numbers.len(),
        numbers[j] >= k,
    ensures
        j >= k - 1,
    decreases k,
{
    if k > 1 {
        assert(has_number(numbers, k - 1));
        let p = choose|p: int| 0 <= p < numbers.len() && numbers[p] == k - 1;
        lemma_rank_lower(numbers, k - 1, p);
    }
}

/// In an ascending row that holds each of 1, ..., n, a number of at most `k`
/// stands at one of the first `k` places.
proof fn lemma_rank_upper(numbers: Seq<u32>, k: int, j: int)
    requires
        is_ascending(numbers),
        is_contiguous_from_one(numbers),
        0 <= k <= numbers.len(),
        0 <= j < numbers.len(),
        numbers[j] <= k,
    ensures
        j <= k - 1,
    decreases numbers.len() - k,
{
    if k < numbers.len() {
        assert(has_number(numbers, k + 1));
        let p = choose|p: int| 0 <= p < numbers.len() && numbers[p] == k + 1;
        lemma_rank_upper(numbers, k + 1, p);
    }
}

/// An ascending row that holds each of 1, ..., n holds them in this order.
pub proof fn lemma_ascending_contiguous(numbers: Seq<u32>)
    requires
        is_ascending(numbers),
        is_contiguous_from_one(numbers),
    ensures
        forall|j: int| 0 <= j < numbers.len() ==> #[trigger] numbers[j] == j + 1,
{
    assert forall|j: int| 0 <= j < numbers.len() implies #[trigger] numbers[j] == j + 1 by {
        let v = numbers[j] as int;
        if v > numbers.len() {
            lemma_rank_lower(numbers, numbers.len() as int + 1, j);
        } else {
            lemma_rank_upper(numbers, v, j);
            if v >= 1 {
                lemma_rank_lower(numbers, v, j);
            }
        }
    }
}

/// Numbers that leave out none of 1, ..., n hold nothing else and nothing
/// twice: each of the n numbers is one of 1, ..., n, and no two are the same.
pub proof fn lemma_contiguous_without_repeat(numbers: Seq<u32>)
    requires
        is_contiguous_from_one(numbers),
    ensures
        forall|i: int| 0 <= i < numbers.len() ==> 1 <= #[trigger] numbers[i] <= numbers.len(),
        forall|i: int, j: int|
            0 <= i < j < numbers.len() ==> #[trigger] numbers[i] != #[trigger] numbers[j],
    decreases numbers.len(),
{
    let n = numbers.len() as int;
    if n > 0 {
        assert(has_number(numbers, n));
        let p = choose|p: int| 0 <= p < n && numbers[p] == n;
        let rest = numbers.remove(p);
        assert forall|k: int| 1 <= k <= rest.len() implies #[trigger] has_number(rest, k) by {
            assert(has_number(numbers, k));
            let i = choose|i: int| 0 <= i < n && numbers[i] == k;
            if i < p {
                assert(rest[i] == k);
            } else {
                assert(rest[i - 1] == k);
            }
        }
        lemma_contiguous_without_repeat(rest);
        assert forall|i: int| 0 <= i < n implies 1 <= #[trigger] numbers[i] <= n by {
            if i < p {
                assert(rest[i] == numbers[i]);
            } else if i > p {
                assert(rest[i - 1] == numbers[i]);
            }
        }
        assert forall|i: int, j: int| 0 <= i < j < n implies #[trigger] numbers[i]
            != #[trigger] numbers[j] by {
            let a = if i < p { i } else { i - 1 };
            let b = if j < p { j } else { j - 1 };
            if i != p {
                assert(rest[a] == numbers[i]);
            }
            if j != p {
                assert(rest[b] == numbers[j]);
            }
        }
    }
}

/// The scripts of one collection: numbered 1, 2, 3, ... without gap or
/// repeat, and held in that order.
#[derive(Debug)]
pub struct ScriptSet {
    files: Vec<SqlFile>,
}

impl View for ScriptSet {
    type V = Seq<SqlFileView>;

    closed spec fn view(&self) -> Seq<SqlFileView> {
        file_views(self.files@)
    }
}

impl ScriptSet {
    #[verifier::type_invariant]
    spec fn well_numbered(self) -> bool {
        numbered_from_one(file_views(self.files@))
    }

    /// The scripts, in the order of their numbers.
    pub fn files(&self) -> (files: &Vec<SqlFile>)
        ensures
            file_views(files@) == self@,
            numbered_from_one(self@),
            self@.len() <= u32::MAX,
    {
        proof {
            use_type_invariant(self);
            if self.files@.len() > 0 {
                let last = self.files@.len() - 1;
                assert(file_views(self.files@)[last].number == last + 1);
            }
        }
        &self.files
    }

    /// How many scripts the set holds.
    pub fn len(&self) -> (n: usize)
        ensures
            n == self@.len(),
    {
        self.files.len()
    }
}

/// The names of the entries, in the entries' order.
pub open spec fn names_of(entries: Seq<NumberedFile>) -> Seq<Seq<char>> {
    Seq::new(entries.len(), |i: int| entries[i].name@)
}

/// For each entry, in the entries' order, whether its text is there.
pub open spec fn loaded_of(entries: Seq<NumberedFile>) -> Seq<bool> {
    Seq::new(entries.len(), |i: int| entries[i].body is Some)
}

/// `perm` lists the places of `numbers` in the order in which a stable sort
/// leaves them: every place once, the places of smaller numbers first, and
/// the places of one number in ascending order.
pub open spec fn is_stable_order(perm: Seq<int>, numbers: Seq<u32>) -> bool {
    &&& perm.len() == numbers.len()
    &&& forall|j: int| 0 <= j < perm.len() ==> 0 <= #[trigger] perm[j] < numbers.len()
    &&& forall|i: int| 0 <= i < numbers.len() ==> #[trigger] perm.contains(i)
    &&& forall|j1: int, j2: int|
        0 <= j1 < j2 < perm.len() ==> numbers[#[trigger] perm[j1]] < numbers[#[trigger] perm[j2]]
            || (numbers[perm[j1]] == numbers[perm[j2]] && perm[j1] < perm[j2])
}

/// With the numbers taken in the order `perm`, the one at place `j` is the
/// first that is not its place counted from one.
pub open spec fn is_first_misnumbered(numbers: Seq<u32>, perm: Seq<int>, j: int) -> bool {
    &&& is_stable_order(perm, numbers)
    &&& 0 <= j < perm.len()
    &&& forall|k: int| 0 <= k < j ==> numbers[#[trigger] perm[k]] == k + 1
    &&& numbers[perm[j]] != j + 1
}

/// Place `i` is that of the smallest number among the places where nothing
/// is present.
pub open spec fn is_first_absent(numbers: Seq<u32>, present: Seq<bool>, i: int) -> bool {
    &&& 0 <= i < present.len()
    &&& !present[i]
    &&& forall|k: int| 0 <= k < present.len() && !#[trigger] present[k] ==> numbers[i] <= numbers[k]
}

/// `error` is what putting scripts in order fails with, given their numbers
/// and names and whether their texts are present. The numbering comes first:
/// where the numbers are not 1, ..., n, the error names the first script, in
/// the order of the numbers, that stands where another number is due. With the
/// numbering in order, the error names the script of the smallest number whose
/// text is absent.
pub open spec fn is_ordering_failure(
    numbers: Seq<u32>,
    names: Seq<Seq<char>>,
    present: Seq<bool>,
    error: MigrationsError,
) -> bool {
    match error {
        MigrationsError::FileNumbering { expected, found, file_name } => {
            &&& !is_contiguous_from_one(numbers)
            &&& exists|perm: Seq<int>, j: int| #[trigger]
                is_first_misnumbered(numbers, perm, j) && expected == j + 1 && found
                    == numbers[perm[j]] && file_name@ == names[perm[j]]
        },
        MigrationsError::CannotLoadFile { file_name } => {
            &&& is_contiguous_from_one(numbers)
            &&& exists|i: int| #[trigger]
                is_first_absent(numbers, present, i) && file_name@ == names[i]
        },
        _ => false,
    }
}

/// A sorted row of entries was sorted in a stable order of the numbers.
proof fn lemma_sorted_in_stable_order(
    perm: Seq<int>,
    from: Seq<NumberedFile>,
    to: Seq<NumberedFile>,
)
    requires
        sorted_by_number(perm, from, to),
    ensures
        is_stable_order(perm, numbers_of(from)),
{
    let numbers = numbers_of(from);
    assert forall|j1: int, j2: int| 0 <= j1 < j2 < perm.len() implies numbers[#[trigger] perm[j1]]
        < numbers[#[trigger] perm[j2]] || (numbers[perm[j1]] == numbers[perm[j2]] && perm[j1]
        < perm[j2]) by {
        assert(to[j1] == from[perm[j1]]);
        assert(to[j2] == from[perm[j2]]);
    }
}

/// Puts the entries in the order of their numbers and makes a script set of
/// them. The numbers have to be 1, 2, ..., n in some order, else the numbering
/// is refused; after that, an entry without text is refused. Each entry ends
/// at the place that its number names.
pub fn order_and_validate(entries: Vec<NumberedFile>) -> (res: Result<ScriptSet, MigrationsError>)
    ensures
        match res {
            Ok(set) => {
                &&& is_contiguous_from_one(numbers_of(entries@))
                &&& all_loaded(entries@)
                &&& set@.len() == entries.len()
                &&& numbered_from_one(set@)
                &&& forall|i: int|
                    0 <= i < entries.len() ==> 1 <= (#[trigger] entries[i]).number <= entries.len()
                        && set@[entries[i].number - 1] == script_of(entries[i])
            },
            Err(error) => is_ordering_failure(
                numbers_of(entries@),
                names_of(entries@),
                loaded_of(entries@),
                error,
            ),
        },
{
    let ghost from = entries@;
    let ghost numbers = numbers_of(from);
    let mut sorted = sort_by_number(entries);
    let ghost perm = choose|perm: Seq<int>| sorted_by_number(perm, from, sorted@);
    let ghost ordered = sorted@;
    proof {
        lemma_sorted_in_stable_order(perm, from, ordered);
    }
    let n = sorted.len();
    let mut j: usize = 0;
    while j < n
        invariant
            from == entries@,
            numbers == numbers_of(from),
            n == sorted.len(),
            sorted@ == ordered,
            0 <= j <= n,
            sorted_by_number(perm, from, ordered),
            is_stable_order(perm, numbers),
            forall|k: int| 0 <= k < j ==> (#[trigger] ordered[k]).number == k + 1,
        decreases n - j,
    {
        if sorted[j].number as u64 != j as u64 + 1 {
            proof {
                assert(ordered[j as int].number != j + 1);
                assert forall|k: int| 0 <= k < j implies numbers[#[trigger] perm[k]] == k + 1 by {
                    assert(ordered[k] == from[perm[k]]);
                }
                assert(ordered[j as int] == from[perm[j as int]]);
                assert(is_first_misnumbered(numbers, perm, j as int));
                if is_contiguous_from_one(numbers) {
                    let row = numbers_of(ordered);
                    assert forall|k: int| 1 <= k <= row.len() implies #[trigger] has_number(
                        row,
                        k,
                    ) by {
                        assert(has_number(numbers, k));
                        let i = choose|i: int| 0 <= i < from.len() && numbers[i] == k;
                        assert(perm.contains(i));
                        let at = choose|at: int| 0 <= at < perm.len() && perm[at] == i;
                        assert(row[at] == k);
                    }
                    assert forall|j1: int, j2: int| 0 <= j1 < j2 < row.len() implies #[trigger] row[j1]
                        <= #[trigger] row[j2] by {
                        assert(ordered[j1].number <= ordered[j2].number);
                    }
                    lemma_ascending_contiguous(row);
                    assert(row[j as int] == j + 1);
                }
            }
            return Err(
                MigrationsError::FileNumbering {
                    expected: j as u64 + 1,
                    found: sorted[j].number,
                    file_name: sorted[j].name.clone(),
                },
            );
        }
        j = j + 1;
    }
    proof {
        assert forall|k: int| 1 <= k <= from.len() implies #[trigger] has_number(numbers, k) by {
            assert(ordered[k - 1].number == k);
            assert(numbers[perm[k - 1]] == k);
        }
    }
    let mut j: usize = 0;
    while j < n
        invariant
            from == entries@,
            numbers == numbers_of(from),
            n == sorted.len(),
            sorted@ == ordered,
            0 <= j <= n,
            sorted_by_number(perm, from, ordered),
            is_contiguous_from_one(numbers),
            forall|k: int| 0 <= k < ordered.len() ==> (#[trigger] ordered[k]).number == k + 1,
            forall|k: int| 0 <= k < j ==> (#[trigger] ordered[k]).body is Some,
        decreases n - j,
    {
        if sorted[j].body.is_none() {
            proof {
                let i = perm[j as int];
                let present = loaded_of(from);
                assert(ordered[j as int] == from[i]);
                assert forall|k: int| 0 <= k < present.len() && !#[trigger] present[k] implies numbers[i]
                    <= numbers[k] by {
                    assert(perm.contains(k));
                    let at = choose|at: int| 0 <= at < perm.len() && perm[at] == k;
                    assert(ordered[at] == from[k]);
                    assert(ordered[at].number == at + 1);
                }
                assert(is_first_absent(numbers, present, i));
                assert(names_of(from)[i] == from[i].name@);
            }
            return Err(MigrationsError::CannotLoadFile { file_name: sorted[j].name.clone() });
        }
        j = j + 1;
    }
    let mut files: Vec<SqlFile> = Vec::new();
    while sorted.len() > 0
        invariant
            from == entries@,
            sorted@ == ordered.take(sorted.len() as int),
            sorted.len() <= ordered.len(),
            files.len() == ordered.len() - sorted.len(),
            sorted_by_number(perm, from, ordered),
            forall|k: int| 0 <= k < ordered.len() ==> (#[trigger] ordered[k]).number == k + 1,
            forall|k: int| 0 <= k < ordered.len() ==> (#[trigger] ordered[k]).body is Some,
            forall|k: int|
                sorted.len() <= k < ordered.len() ==> files[k - sorted.len()]@ == script_of(
                    #[trigger] ordered[k],
                ),
        decreases sorted.len(),
    {
        let ghost before = files@;
        let entry = sorted.pop().unwrap();
        let ghost m = sorted.len() as int;
        assert(entry == ordered[m]);
        let body = entry.body.unwrap();
        files.insert(0, SqlFile { file_name: entry.name, number: entry.number, sql: body });
        proof {
            assert(sorted@ =~= ordered.take(m));
            assert forall|k: int| m <= k < ordered.len() implies files[k - m]@ == script_of(
                #[trigger] ordered[k],
            ) by {
                if k > m {
                    assert(files[k - m] == before[k - (m + 1)]);
                }
            }
        }
    }
    proof {
        let views = file_views(files@);
        assert forall|i: int| 0 <= i < views.len() implies (#[trigger] views[i]).number == i + 1 by {
            assert(files[i]@ == script_of(ordered[i]));
        }
        assert forall|i: int| 0 <= i < from.len() implies (#[trigger] from[i]).body is Some && 1
            <= from[i].number <= from.len() && views[from[i].number - 1] == script_of(from[i]) by {
            assert(perm.contains(i));
            let at = choose|at: int| 0 <= at < perm.len() && perm[at] == i;
            assert(ordered[at] == from[i]);
            assert(ordered[at].number == at + 1);
            assert(files[at]@ == script_of(ordered[at]));
        }
    }
    Ok(ScriptSet { files })
}

/// Every name carries a number.
pub open spec fn all_numbered(files: Seq<RawFile>) -> bool {
    forall|i: int| 0 <= i < files.len() ==> file_number((#[trigger] files[i]).name@) is Some
}

/// The bytes of every file are there.
pub open spec fn all_present(files: Seq<RawFile>) -> bool {
    forall|i: int| 0 <= i < files.len() ==> (#[trigger] files[i]).data is Some
}

/// The numbers that the names of the files carry, in the files' order.
pub open spec fn file_numbers(files: Seq<RawFile>) -> Seq<u32> {
    Seq::new(files.len(), |i: int| file_number(files[i].name@).unwrap())
}

/// The names of the files, in the files' order.
pub open spec fn file_names(files: Seq<RawFile>) -> Seq<Seq<char>> {
    Seq::new(files.len(), |i: int| files[i].name@)
}

/// For each file, in the files' order, whether its bytes are there.
pub open spec fn files_present(files: Seq<RawFile>) -> Seq<bool> {
    Seq::new(files.len(), |i: int| files[i].data is Some)
}

/// The script that a file with a numbered name and with bytes stands for.
pub open spec fn loaded_script(file: RawFile) -> SqlFileView {
    SqlFileView {
        file_name: file.name@,
        number: file_number(file.name@).unwrap(),
        sql: utf8_lossy(file.data.unwrap()@),
    }
}

/// `entry` is what reading the name and decoding the bytes of `file` gives.
pub open spec fn is_reading_of(entry: NumberedFile, file: RawFile) -> bool {
    &&& file_number(file.name@) == Some(entry.number)
    &&& entry.name@ == file.name@
    &&& match file.data {
        Some(bytes) => entry.body matches Some(text) && text@ == utf8_lossy(bytes@),
        None => entry.body is None,
    }
}

/// Every file before place `i` has a name that carries a number.
pub open spec fn numbered_before(files: Seq<RawFile>, i: int) -> bool {
    forall|k: int| 0 <= k < i ==> file_number((#[trigger] files[k]).name@) is Some
}

/// File `i` is the first whose name carries no number.
pub open spec fn is_first_unnumbered(files: Seq<RawFile>, i: int) -> bool {
    &&& 0 <= i < files.len()
    &&& file_number(files[i].name@) is None
    &&& numbered_before(files, i)
}

/// The names that loading looks at, which are all names up to the first that
/// carries no number, have the numbers one expects of them where they are
/// made of ASCII characters alone: the number that the digits `0` to `9` at
/// the start of the name denote.
pub open spec fn plain_names_read(files: Seq<RawFile>) -> bool {
    forall|i: int|
        0 <= i < files.len() && numbered_before(files, i) && is_ascii_chars(
            (#[trigger] files[i]).name@,
        ) ==> file_number(files[i].name@) == plain_number(files[i].name@)
}

/// Reads the number off each file's name and decodes each file's bytes as
/// UTF-8, with U+FFFD for what is no valid UTF-8. The first name without a
/// number ends the work and is named in the error.
pub fn number_files(files: &Vec<RawFile>) -> (res: Result<Vec<NumberedFile>, MigrationsError>)
    ensures
        match res {
            Ok(entries) => {
                &&& entries.len() == files.len()
                &&& forall|i: int|
                    0 <= i < files.len() ==> is_reading_of(#[trigger] entries[i], files[i])
            },
            Err(MigrationsError::FileNameMalformed { file_name }) => exists|i: int| #[trigger]
                is_first_unnumbered(files@, i) && file_name@ == files[i].name@,
            Err(_) => false,
        },
        plain_names_read(files@),
{
    let mut entries: Vec<NumberedFile> = Vec::new();
    let mut i: usize = 0;
    while i < files.len()
        invariant
            0 <= i <= files.len(),
            entries.len() == i,
            forall|k: int| 0 <= k < i ==> is_reading_of(#[trigger] entries[k], files[k]),
            forall|k: int|
                0 <= k < i && is_ascii_chars((#[trigger] files[k]).name@) ==> file_number(
                    files[k].name@,
                ) == plain_number(files[k].name@),
        decreases files.len() - i,
    {
        let file = &files[i];
        let number = match script_number(file.name.as_str()) {
            Ok(number) => number,
            Err(error) => {
                proof {
                    assert forall|k: int| 0 <= k < i implies file_number(
                        (#[trigger] files[k]).name@,
                    ) is Some by {
                        assert(is_reading_of(entries[k], files[k]));
                    }
                    assert(is_first_unnumbered(files@, i as int));
                    assert forall|p: int|
                        0 <= p < files.len() && numbered_before(files@, p) && is_ascii_chars(
                            (#[trigger] files[p]).name@,
                        ) implies file_number(files[p].name@) == plain_number(files[p].name@) by {
                        if p > i {
                            assert(file_number(files[i as int].name@) is Some);
                        }
                    }
                }
                return Err(error);
            },
        };
        let body = match &file.data {
            Some(bytes) => Some(decode_lossy(bytes)),
            None => None,
        };
        entries.push(NumberedFile { number, name: file.name.clone(), body });
        i = i + 1;
    }
    Ok(entries)
}

/// The three conditions under which a collection of files makes a script
/// set: every name carries a number, the numbers are 1, 2, ..., n in some
/// order, and the bytes of every file are there.
pub open spec fn is_loadable(files: Seq<RawFile>) -> bool {
    &&& all_numbered(files)
    &&& is_contiguous_from_one(file_numbers(files))
    &&& all_present(files)
}

/// A place of `files` whose name carries `number`.
pub open spec fn place_of(files: Seq<RawFile>, number: int) -> int {
    choose|i: int|
        0 <= i < files.len() && file_number((#[trigger] files[i]).name@) is Some && file_number(
            files[i].name@,
        ).unwrap() == number
}

/// The script set of a loadable collection: at place `k`, counted from zero,
/// stands the script of the file whose name carries `k + 1`.
pub open spec fn script_set_of(files: Seq<RawFile>) -> Seq<SqlFileView> {
    Seq::new(files.len(), |k: int| loaded_script(files[place_of(files, k + 1)]))
}

/// `error` is what loading `files` fails with. The first of the three
/// conditions that does not hold decides: the first file whose name carries
/// no number; else what is wrong with the order of the numbers; else the
/// script of the smallest number whose bytes are absent.
pub open spec fn is_load_failure(files: Seq<RawFile>, error: MigrationsError) -> bool {
    match error {
        MigrationsError::FileNameMalformed { file_name } => exists|i: int| #[trigger]
            is_first_unnumbered(files, i) && file_name@ == files[i].name@,
        _ => all_numbered(files) && is_ordering_failure(
            file_numbers(files),
            file_names(files),
            files_present(files),
            error,
        ),
    }
}

/// Makes the script set of a collection of files. Each name must start with a
/// number; the numbers must be 1, 2, ..., n in some order; and the bytes of
/// every file must be there. The scripts come out in the order of their
/// numbers, each with its name unchanged and its bytes decoded as UTF-8, with
/// U+FFFD for what is no valid UTF-8. Nothing comes out where one of the three
/// conditions fails, and the first that fails, in the order given here, names
/// the error.
pub fn get_sql_files(files: &Vec<RawFile>) -> (res: Result<ScriptSet, MigrationsError>)
    ensures
        match res {
            Ok(set) => {
                &&& is_loadable(files@)
                &&& set@ == script_set_of(files@)
                &&& numbered_from_one(set@)
                &&& forall|i: int|
                    0 <= i < files.len() ==> 1 <= file_number((#[trigger] files[i]).name@).unwrap()
                        <= files.len() && set@[file_number(files[i].name@).unwrap() - 1]
                        == loaded_script(files[i])
            },
            Err(error) => is_load_failure(files@, error),
        },
        plain_names_read(files@),
{
    let entries = match number_files(files) {
        Ok(entries) => entries,
        Err(error) => {
            return Err(error);
        },
    };
    proof {
        assert forall|i: int| 0 <= i < files.len() implies file_number(
            (#[trigger] files[i]).name@,
        ) is Some by {
            assert(is_reading_of(entries[i], files[i]));
        }
        assert(numbers_of(entries@) =~= file_numbers(files@)) by {
            assert forall|i: int| 0 <= i < files.len() implies numbers_of(entries@)[i]
                == file_numbers(files@)[i] by {
                assert(is_reading_of(entries[i], files[i]));
            }
        }
        assert(names_of(entries@) =~= file_names(files@)) by {
            assert forall|i: int| 0 <= i < files.len() implies names_of(entries@)[i] == file_names(
                files@,
            )[i] by {
                assert(is_reading_of(entries[i], files[i]));
            }
        }
        assert(loaded_of(entries@) =~= files_present(files@)) by {
            assert forall|i: int| 0 <= i < files.len() implies loaded_of(entries@)[i]
                == files_present(files@)[i] by {
                assert(is_reading_of(entries[i], files[i]));
            }
        }
        if all_loaded(entries@) {
            assert forall|i: int| 0 <= i < files.len() implies (#[trigger] files[i]).data is Some by {
                assert(is_reading_of(entries[i], files[i]));
                assert(entries[i].body is Some);
            }
        }
    }
    let ghost read = entries@;
    let res = order_and_validate(entries);
    proof {
        if res is Ok {
            let set = res->Ok_0;
            assert forall|i: int| 0 <= i < files.len() implies 1 <= file_number(
                (#[trigger] files[i]).name@,
            ).unwrap() <= files.len() && set@[file_number(files[i].name@).unwrap() - 1]
                == loaded_script(files[i]) by {
                assert(is_reading_of(read[i], files[i]));
                assert(set@[read[i].number - 1] == script_of(read[i]));
            }
            assert forall|k: int| 0 <= k < files.len() implies set@[k] == #[trigger] script_set_of(
                files@,
            )[k] by {
                assert(has_number(file_numbers(files@), k + 1));
                let at = choose|at: int|
                    0 <= at < files.len() && #[trigger] file_numbers(files@)[at] == k + 1;
                assert(file_number(files[at].name@) is Some);
                let i = place_of(files@, k + 1);
                assert(file_number(files[i].name@).unwrap() == k + 1);
            }
            assert(set@ =~= script_set_of(files@));
        }
    }
    res
}

} // verus!
