//! The pass/fail check on a finished run's rows against minimum scores.
use vstd::prelude::*;
use crate::input::{column_of, find_column, lemma_column_of_first, lemma_column_of_none, rows_view, InputError};
use crate::output::{is_score_text, parse_score, text_value};
use crate::task::SCORE_SCALE;

verus! {

/// The scores of one result row, in millionths.
#[derive(Clone, Copy, Debug, PartialEq, Eq, Structural)]
pub struct ScoreRow {
    pub similarity: u32,
    pub judge: Option<u32>,
}

/// The outcome of a check: passed, or the index of the first data row that
/// fails, and on which score.
#[derive(Clone, Copy, Debug, PartialEq, Eq, Structural)]
pub enum ConditionOutcome {
    Passed,
    SimilarityBelow(usize),
    JudgeBelow(usize),
}

/// The row's similarity is under the required minimum.
pub open spec fn below_similarity(row: ScoreRow, min_similarity: Option<u32>) -> bool {
    min_similarity matches Some(m) && row.similarity < m
}

/// The row has a judge score, and it is under the required minimum.
pub open spec fn below_judge(row: ScoreRow, min_judge: Option<u32>) -> bool {
    row.judge matches Some(j) && (min_judge matches Some(m) && j < m)
}

pub open spec fn fails(row: ScoreRow, min_similarity: Option<u32>, min_judge: Option<u32>) -> bool {
    below_similarity(row, min_similarity) || below_judge(row, min_judge)
}

/// Checks the rows in order; the first that fails decides the outcome, and
/// a similarity under its minimum is reported before the same row's judge
/// score. Rows without a judge score pass the judge minimum.
pub fn check_conditions(rows: &Vec<ScoreRow>, min_similarity: Option<u32>, min_judge: Option<u32>) -> (r: ConditionOutcome)
    ensures
        (r == ConditionOutcome::Passed) == (forall|k: int|
            0 <= k < rows.len() ==> !fails(#[trigger] rows[k], min_similarity, min_judge)),
        r matches ConditionOutcome::SimilarityBelow(k) ==> k < rows.len() && below_similarity(
            rows[k as int],
            min_similarity,
        ) && forall|j: int| 0 <= j < k ==> !fails(#[trigger] rows[j], min_similarity, min_judge),
        r matches ConditionOutcome::JudgeBelow(k) ==> k < rows.len() && !below_similarity(
            rows[k as int],
            min_similarity,
        ) && below_judge(rows[k as int], min_judge) && forall|j: int|
            0 <= j < k ==> !fails(#[trigger] rows[j], min_similarity, min_judge),
{
    let mut k: usize = 0;
    while k < rows.len()
        invariant
            k <= rows.len(),
            forall|j: int| 0 <= j < k ==> !fails(#[trigger] rows[j], min_similarity, min_judge),
        decreases rows.len() - k,
    {
        let row = rows[k];
        if let Some(m) = min_similarity {
            if row.similarity < m {
                return ConditionOutcome::SimilarityBelow(k);
            }
        }
        if let (Some(j), Some(m)) = (row.judge, min_judge) {
            if j < m {
                return ConditionOutcome::JudgeBelow(k);
            }
        }
        k = k + 1;
    }
    ConditionOutcome::Passed
}

/// The score that a field's text stands for, if it is a score text of at
/// most 1.
pub open spec fn score_of(t: Seq<char>) -> Option<u32> {
    if is_score_text(t) && text_value(t) <= SCORE_SCALE {
        Some(text_value(t) as u32)
    } else {
        None
    }
}

/// The scores of a record of a result table whose similarity is in column
/// `cs` and whose judge score, if the table has the column, is in `cj`; an
/// empty judge field means no judge score.
#[verifier::opaque]
pub open spec fn score_row_of(row: Seq<Seq<char>>, cs: int, cj: Option<int>) -> Option<ScoreRow> {
    if cs >= row.len() {
        None
    } else {
        match score_of(row[cs]) {
            None => None,
            Some(sim) => match cj {
                None => Some(ScoreRow { similarity: sim, judge: None }),
                Some(j) => if j >= row.len() {
                    None
                } else if row[j].len() == 0 {
                    Some(ScoreRow { similarity: sim, judge: None })
                } else {
                    match score_of(row[j]) {
                        Some(x) => Some(ScoreRow { similarity: sim, judge: Some(x) }),
                        None => None,
                    }
                },
            },
        }
    }
}

pub open spec fn opt_int(o: Option<usize>) -> Option<int> {
    match o {
        Some(j) => Some(j as int),
        None => None,
    }
}

pub open spec fn similarity_column() -> Seq<char> {
    "cosine_similarity"@
}

pub open spec fn judge_column() -> Seq<char> {
    "judge_value"@
}

fn score_row(row: &Vec<String>, cs: usize, cj: Option<usize>) -> (r: Option<ScoreRow>)
    ensures
        r == score_row_of(row@.map_values(|f: String| f@), cs as int, opt_int(cj)),
{
    reveal(score_row_of);
    if cs >= row.len() {
        return None;
    }
    let sim = match parse_score(row[cs].as_str()) {
        Some(x) => x,
        None => return None,
    };
    match cj {
        None => Some(ScoreRow { similarity: sim, judge: None }),
        Some(j) => {
            if j >= row.len() {
                None
            } else if row[j].as_str().is_empty() {
                Some(ScoreRow { similarity: sim, judge: None })
            } else {
                match parse_score(row[j].as_str()) {
                    Some(x) => Some(ScoreRow { similarity: sim, judge: Some(x) }),
                    None => None,
                }
            }
        },
    }
}

/// The scores of each data row of a result table given as its records,
/// header first; the header must name the similarity column when there are
/// data rows, and the first row without valid scores is reported.
pub fn score_rows(rows: &Vec<Vec<String>>) -> (r: Result<Vec<ScoreRow>, InputError>)
    ensures
        ({
            let v = rows_view(rows@);
            let cs = column_of(v[0], similarity_column());
            let cj = column_of(v[0], judge_column());
            &&& v.len() <= 1 ==> r is Ok && r->Ok_0.len() == 0
            &&& v.len() > 1 && cs is None ==> (r matches Err(InputError::MissingColumn(n)) && n@
                == similarity_column())
            &&& v.len() > 1 && cs is Some ==> {
                &&& (r is Ok) == (forall|k: int|
                    1 <= k < v.len() ==> #[trigger] score_row_of(v[k], cs->0, cj) is Some)
                &&& r is Ok ==> r->Ok_0.len() == v.len() - 1 && forall|k: int|
                    0 <= k < r->Ok_0.len() ==> #[trigger] r->Ok_0[k] == score_row_of(
                        v[k + 1],
                        cs->0,
                        cj,
                    )->0
                &&& r is Err ==> (r matches Err(InputError::BadScore(k)) && 1 <= k < v.len()
                    && score_row_of(v[k as int], cs->0, cj) is None && forall|j: int|
                    1 <= j < k ==> #[trigger] score_row_of(v[j], cs->0, cj) is Some)
            }
        }),
{
    if rows.len() <= 1 {
        return Ok(Vec::new());
    }
    let ghost v = rows_view(rows@);
    let header = &rows[0];
    assert(v[0] =~= header@.map_values(|f: String| f@));
    let sim_name = "cosine_similarity".to_owned();
    let judge_name = "judge_value".to_owned();
    let cs = match find_column(header, &sim_name) {
        Some(i) => i,
        None => {
            proof {
                lemma_column_of_none(v[0], similarity_column());
            }
            return Err(InputError::MissingColumn(sim_name));
        },
    };
    proof {
        lemma_column_of_first(v[0], similarity_column(), cs as int);
    }
    let cj = find_column(header, &judge_name);
    proof {
        match cj {
            Some(j) => lemma_column_of_first(v[0], judge_column(), j as int),
            None => lemma_column_of_none(v[0], judge_column()),
        }
    }
    match collect_scores(rows, cs, cj) {
        Ok(out) => Ok(out),
        Err(k) => Err(InputError::BadScore(k)),
    }
}

fn collect_scores(rows: &Vec<Vec<String>>, cs: usize, cj: Option<usize>) -> (r: Result<
    Vec<ScoreRow>,
    usize,
>)
    requires
        rows.len() > 1,
    ensures
        ({
            let v = rows_view(rows@);
            &&& (r is Ok) == (forall|k: int|
                1 <= k < v.len() ==> #[trigger] score_row_of(v[k], cs as int, opt_int(cj)) is Some)
            &&& r is Ok ==> r->Ok_0.len() == v.len() - 1 && forall|k: int|
                0 <= k < r->Ok_0.len() ==> #[trigger] r->Ok_0[k] == score_row_of(
                    v[k + 1],
                    cs as int,
                    opt_int(cj),
                )->0
            &&& r is Err ==> 1 <= r->Err_0 < v.len() && score_row_of(
                v[r->Err_0 as int],
                cs as int,
                opt_int(cj),
            ) is None && forall|j: int|
                1 <= j < r->Err_0 ==> #[trigger] score_row_of(v[j], cs as int, opt_int(cj)) is Some
        }),
{
    let ghost v = rows_view(rows@);
    let mut out: Vec<ScoreRow> = Vec::new();
    let mut k: usize = 1;
    while k < rows.len()
        invariant
            1 <= k <= rows.len(),
            v == rows_view(rows@),
            out.len() == k - 1,
            forall|j: int| 1 <= j < k ==> #[trigger] score_row_of(v[j], cs as int, opt_int(cj)) is Some,
            forall|j: int|
                0 <= j < out.len() ==> #[trigger] out[j] == score_row_of(v[j + 1], cs as int, opt_int(cj))->0,
        decreases rows.len() - k,
    {
        assert(v[k as int] =~= rows@[k as int]@.map_values(|f: String| f@));
        match score_row(&rows[k], cs, cj) {
            Some(row) => out.push(row),
            None => return Err(k),
        }
        k = k + 1;
    }
    Ok(out)
}

} // verus!
