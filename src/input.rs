//! The input table: CSV text whose header row names the columns
//! `system_prompt`, `user_prompt` and `expected_ai_answer`, one entry per
//! further row.
use vstd::prelude::*;
use crate::task::Entry;

verus! {

/// The error of the `csv` crate's reader, which `csv_records` hands back.
#[verifier::external_type_specification]
#[verifier::external_body]
pub struct ExCsvError(csv::Error);

/// Why an input table was rejected.
#[derive(Clone, Debug)]
pub enum InputError {
    /// The text is not CSV with rows of equal length, or not UTF-8.
    Csv,
    /// The header row lacks this column.
    MissingColumn(String),
    /// The record at this index (the header row being 0) is too short to
    /// hold every column that the header names.
    ShortRow(usize),
    /// The record at this index of a result table lacks a field of a score
    /// column, or holds there what is not a score text of at most 1.
    BadScore(usize),
}

/// The records of a CSV text, header row included, as the text of their
/// fields; `None` where the text is not CSV with records of equal length.
pub uninterp spec fn csv_rows_of(data: Seq<u8>) -> Option<Seq<Seq<Seq<char>>>>;

/// The text of each field of each row.
pub open spec fn rows_view(rows: Seq<Vec<String>>) -> Seq<Seq<Seq<char>>> {
    rows.map_values(|row: Vec<String>| row@.map_values(|f: String| f@))
}

/// Relies on the `csv` crate's reader (with no header handling, and rows of
/// one length) and its `records` iterator: every record of `data`, or its
/// error.
#[verifier::external_body]
fn csv_records(data: &[u8]) -> (r: Result<Vec<Vec<String>>, csv::Error>)
    ensures
        r is Ok ==> csv_rows_of(data@) == Some(rows_view(r->Ok_0@)),
        r is Err ==> csv_rows_of(data@) is None,
{
    csv::ReaderBuilder::new()
        .has_headers(false)
        .from_reader(data)
        .records()
        .map(|rec| rec.map(|fields| fields.iter().map(String::from).collect()))
        .collect()
}

/// The position of the first column of `header` named `name`.
#[verifier::opaque]
pub open spec fn column_of(header: Seq<Seq<char>>, name: Seq<char>) -> Option<int> {
    if exists|i: int| 0 <= i < header.len() && header[i] == name {
        Some(choose|i: int| 0 <= i < header.len() && header[i] == name && forall|j: int| 0 <= j < i ==> header[j] != name)
    } else {
        None
    }
}

pub open spec fn system_column() -> Seq<char> {
    "system_prompt"@
}

pub open spec fn user_column() -> Seq<char> {
    "user_prompt"@
}

pub open spec fn expected_column() -> Seq<char> {
    "expected_ai_answer"@
}

pub(crate) fn find_column(header: &Vec<String>, name: &String) -> (r: Option<usize>)
    ensures
        r is None ==> forall|i: int| 0 <= i < header.len() ==> header@[i]@ != name@,
        r is Some ==> r->0 < header.len() && header@[r->0 as int]@ == name@ && forall|j: int|
            0 <= j < r->0 ==> header@[j]@ != name@,
{
    let mut i: usize = 0;
    while i < header.len()
        invariant
            i <= header.len(),
            forall|j: int| 0 <= j < i ==> header@[j]@ != name@,
        decreases header.len() - i,
    {
        if header[i] == *name {
            return Some(i);
        }
        i = i + 1;
    }
    None
}

pub(crate) proof fn lemma_column_of_none(header: Seq<Seq<char>>, name: Seq<char>)
    requires
        forall|i: int| 0 <= i < header.len() ==> header[i] != name,
    ensures
        column_of(header, name) is None,
{
    reveal(column_of);
}

pub(crate) proof fn lemma_column_of_first(header: Seq<Seq<char>>, name: Seq<char>, i: int)
    requires
        0 <= i < header.len(),
        header[i] == name,
        forall|j: int| 0 <= j < i ==> header[j] != name,
    ensures
        column_of(header, name) == Some(i),
{
    reveal(column_of);
    let k = choose|k: int|
        0 <= k < header.len() && header[k] == name && forall|j: int| 0 <= j < k ==> header[j] != name;
    assert(0 <= i < header.len() && header[i] == name && forall|j: int| 0 <= j < i ==> header[j] != name);
    if k < i {
        assert(header[k] != name);
    } else if i < k {
        assert(header[i] != name);
    }
}

/// A row holds a field at each of the three positions.
pub open spec fn fits(row: Seq<Seq<char>>, cs: int, cu: int, ce: int) -> bool {
    cs < row.len() && cu < row.len() && ce < row.len()
}

/// What the entries of a table with rows `v` (header row first) are. A table
/// without data rows has no entries. Otherwise the header must name the three
/// columns (the first column of each name counts), and each data row must hold
/// a field in each of them; the first row that does not is reported.
pub open spec fn entries_spec(v: Seq<Seq<Seq<char>>>, r: Result<Vec<Entry>, InputError>) -> bool {
    let cs = column_of(v[0], system_column());
    let cu = column_of(v[0], user_column());
    let ce = column_of(v[0], expected_column());
    &&& v.len() <= 1 ==> r is Ok && r->Ok_0.len() == 0
    &&& v.len() > 1 && cs is None ==> (r matches Err(InputError::MissingColumn(n)) && n@
        == system_column())
    &&& v.len() > 1 && cs is Some && cu is None ==> (r matches Err(InputError::MissingColumn(n))
        && n@ == user_column())
    &&& v.len() > 1 && cs is Some && cu is Some && ce is None ==> (r matches Err(
        InputError::MissingColumn(n),
    ) && n@ == expected_column())
    &&& v.len() > 1 && cs is Some && cu is Some && ce is Some ==> {
        &&& (r is Ok) == (forall|k: int| 1 <= k < v.len() ==> fits(#[trigger] v[k], cs->0, cu->0, ce->0))
        &&& r is Ok ==> r->Ok_0.len() == v.len() - 1 && forall|k: int|
            0 <= k < r->Ok_0.len() ==> {
                &&& #[trigger] r->Ok_0[k].system_prompt@ == v[k + 1][cs->0]
                &&& r->Ok_0[k].user_prompt@ == v[k + 1][cu->0]
                &&& r->Ok_0[k].expected_answer@ == v[k + 1][ce->0]
            }
        &&& r is Err ==> (r matches Err(InputError::ShortRow(k)) && 1 <= k < v.len() && !fits(
            v[k as int],
            cs->0,
            cu->0,
            ce->0,
        ) && forall|j: int| 1 <= j < k ==> fits(#[trigger] v[j], cs->0, cu->0, ce->0))
    }
}

fn collect_entries(rows: &Vec<Vec<String>>, cs: usize, cu: usize, ce: usize) -> (r: Result<
    Vec<Entry>,
    usize,
>)
    requires
        rows.len() > 1,
    ensures
        ({
            let v = rows_view(rows@);
            &&& (r is Ok) == (forall|k: int|
                1 <= k < v.len() ==> fits(#[trigger] v[k], cs as int, cu as int, ce as int))
            &&& r is Ok ==> r->Ok_0.len() == v.len() - 1 && forall|k: int|
                0 <= k < r->Ok_0.len() ==> {
                    &&& #[trigger] r->Ok_0[k].system_prompt@ == v[k + 1][cs as int]
                    &&& r->Ok_0[k].user_prompt@ == v[k + 1][cu as int]
                    &&& r->Ok_0[k].expected_answer@ == v[k + 1][ce as int]
                }
            &&& r is Err ==> 1 <= r->Err_0 < v.len() && !fits(
                v[r->Err_0 as int],
                cs as int,
                cu as int,
                ce as int,
            ) && forall|j: int| 1 <= j < r->Err_0 ==> fits(#[trigger] v[j], cs as int, cu as int, ce as int)
        }),
{
    let ghost v = rows_view(rows@);
    let mut out: Vec<Entry> = Vec::new();
    let mut k: usize = 1;
    while k < rows.len()
        invariant
            1 <= k <= rows.len(),
            v == rows_view(rows@),
            out.len() == k - 1,
            forall|j: int| 1 <= j < k ==> fits(#[trigger] v[j], cs as int, cu as int, ce as int),
            forall|j: int|
                0 <= j < out.len() ==> {
                    &&& #[trigger] out[j].system_prompt@ == v[j + 1][cs as int]
                    &&& out[j].user_prompt@ == v[j + 1][cu as int]
                    &&& out[j].expected_answer@ == v[j + 1][ce as int]
                },
        decreases rows.len() - k,
    {
        let row = &rows[k];
        assert(v[k as int] =~= row@.map_values(|f: String| f@));
        if cs >= row.len() || cu >= row.len() || ce >= row.len() {
            return Err(k);
        }
        out.push(
            Entry {
                system_prompt: row[cs].clone(),
                user_prompt: row[cu].clone(),
                expected_answer: row[ce].clone(),
            },
        );
        k = k + 1;
    }
    Ok(out)
}

/// The entries of a table given as its rows of field texts, header row first.
pub fn entries_from_rows(rows: &Vec<Vec<String>>) -> (r: Result<Vec<Entry>, InputError>)
    ensures
        entries_spec(rows_view(rows@), r),
{
    if rows.len() <= 1 {
        return Ok(Vec::new());
    }
    let ghost v = rows_view(rows@);
    let header = &rows[0];
    assert(v[0] =~= header@.map_values(|f: String| f@));
    let sys = "system_prompt".to_owned();
    let user = "user_prompt".to_owned();
    let exp = "expected_ai_answer".to_owned();
    let cs = match find_column(header, &sys) {
        Some(i) => i,
        None => {
            proof {
                lemma_column_of_none(v[0], system_column());
            }
            return Err(InputError::MissingColumn(sys));
        },
    };
    proof { lemma_column_of_first(v[0], system_column(), cs as int); }
    let cu = match find_column(header, &user) {
        Some(i) => i,
        None => {
            proof {
                lemma_column_of_none(v[0], user_column());
            }
            return Err(InputError::MissingColumn(user));
        },
    };
    proof { lemma_column_of_first(v[0], user_column(), cu as int); }
    let ce = match find_column(header, &exp) {
        Some(i) => i,
        None => {
            proof {
                lemma_column_of_none(v[0], expected_column());
            }
            return Err(InputError::MissingColumn(exp));
        },
    };
    proof { lemma_column_of_first(v[0], expected_column(), ce as int); }
    match collect_entries(rows, cs, cu, ce) {
        Ok(entries) => Ok(entries),
        Err(k) => Err(InputError::ShortRow(k)),
    }
}

/// The entries of a CSV input table (see `entries_from_rows`); text that is
/// not CSV with rows of one length gives `InputError::Csv`.
pub fn parse_entries(data: &[u8]) -> (r: Result<Vec<Entry>, InputError>)
    ensures
        csv_rows_of(data@) is None ==> r matches Err(InputError::Csv),
        csv_rows_of(data@) is Some ==> entries_spec(csv_rows_of(data@)->0, r),
{
    match csv_records(data) {
        Ok(rows) => entries_from_rows(&rows),
        Err(_) => Err(InputError::Csv),
    }
}

/// The records of a CSV text, header row included, as the text of their
/// fields.
pub fn read_table(data: &[u8]) -> (r: Result<Vec<Vec<String>>, InputError>)
    ensures
        r is Ok ==> csv_rows_of(data@) == Some(rows_view(r->Ok_0@)),
        r is Err ==> csv_rows_of(data@) is None && r matches Err(InputError::Csv),
{
    match csv_records(data) {
        Ok(rows) => Ok(rows),
        Err(_) => Err(InputError::Csv),
    }
}

} // verus!
