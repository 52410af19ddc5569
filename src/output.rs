//! The result table: its header, one record per result row, and the text of
//! a score, a decimal with six places ("0.870000").
use vstd::prelude::*;
use crate::task::{OutputEntry, TaskError, SCORE_SCALE};

verus! {

/// The character of the decimal digit `d`.
pub open spec fn digit_char(d: int) -> char {
    if d == 0 { '0' } else if d == 1 { '1' } else if d == 2 { '2' } else if d == 3 { '3' }
    else if d == 4 { '4' } else if d == 5 { '5' } else if d == 6 { '6' } else if d == 7 { '7' }
    else if d == 8 { '8' } else { '9' }
}

/// The value of the decimal digit `c`, if it is one.
pub open spec fn digit_value(c: char) -> Option<int> {
    if c == '0' { Some(0) } else if c == '1' { Some(1) } else if c == '2' { Some(2) }
    else if c == '3' { Some(3) } else if c == '4' { Some(4) } else if c == '5' { Some(5) }
    else if c == '6' { Some(6) } else if c == '7' { Some(7) } else if c == '8' { Some(8) }
    else if c == '9' { Some(9) } else { None }
}

fn digit(d: u32) -> (c: char)
    requires
        d < 10,
    ensures
        c == digit_char(d as int),
        digit_value(c) == Some(d as int),
{
    if d == 0 { '0' } else if d == 1 { '1' } else if d == 2 { '2' } else if d == 3 { '3' }
    else if d == 4 { '4' } else if d == 5 { '5' } else if d == 6 { '6' } else if d == 7 { '7' }
    else if d == 8 { '8' } else { '9' }
}

pub(crate) fn value_of_digit(c: char) -> (r: Option<u32>)
    ensures
        r is Some == digit_value(c) is Some,
        r is Some ==> r->0 == digit_value(c)->0 && r->0 < 10 && digit_char(r->0 as int) == c,
{
    if c == '0' { Some(0) } else if c == '1' { Some(1) } else if c == '2' { Some(2) }
    else if c == '3' { Some(3) } else if c == '4' { Some(4) } else if c == '5' { Some(5) }
    else if c == '6' { Some(6) } else if c == '7' { Some(7) } else if c == '8' { Some(8) }
    else if c == '9' { Some(9) } else { None }
}

/// `s` is a digit, a point, and six digits.
pub open spec fn is_score_text(s: Seq<char>) -> bool {
    &&& s.len() == 8
    &&& s[1] == '.'
    &&& digit_value(s[0]) is Some
    &&& digit_value(s[2]) is Some
    &&& digit_value(s[3]) is Some
    &&& digit_value(s[4]) is Some
    &&& digit_value(s[5]) is Some
    &&& digit_value(s[6]) is Some
    &&& digit_value(s[7]) is Some
}

/// The millionths that a score text stands for.
pub open spec fn text_value(s: Seq<char>) -> int {
    digit_value(s[0])->0 * 1000000 + digit_value(s[2])->0 * 100000 + digit_value(s[3])->0 * 10000
        + digit_value(s[4])->0 * 1000 + digit_value(s[5])->0 * 100 + digit_value(s[6])->0 * 10
        + digit_value(s[7])->0
}

/// The text of a score given in millionths: its whole part, a point, and six
/// decimal places (the one text of that shape that stands for `v`).
pub fn format_score(v: u32) -> (r: String)
    requires
        v <= SCORE_SCALE,
    ensures
        is_score_text(r@),
        text_value(r@) == v,
{
    let g = v % 10;
    let q1 = v / 10;
    let f = q1 % 10;
    let q2 = q1 / 10;
    let e = q2 % 10;
    let q3 = q2 / 10;
    let d = q3 % 10;
    let q4 = q3 / 10;
    let c = q4 % 10;
    let q5 = q4 / 10;
    let b = q5 % 10;
    let a = q5 / 10;
    let cs = vec![digit(a), '.', digit(b), digit(c), digit(d), digit(e), digit(f), digit(g)];
    crate::text::string_of(&cs)
}

/// The score, in millionths, whose text is `s`, if it is a score text of at
/// most 1.
pub fn parse_score(s: &str) -> (r: Option<u32>)
    ensures
        r == if is_score_text(s@) && text_value(s@) <= SCORE_SCALE {
            Some(text_value(s@) as u32)
        } else {
            None
        },
{
    let cs = crate::text::chars_of(s);
    if cs.len() != 8 || cs[1] != '.' {
        return None;
    }
    match (
        value_of_digit(cs[0]),
        value_of_digit(cs[2]),
        value_of_digit(cs[3]),
        value_of_digit(cs[4]),
        value_of_digit(cs[5]),
        value_of_digit(cs[6]),
        value_of_digit(cs[7]),
    ) {
        (Some(a), Some(b), Some(c), Some(d), Some(e), Some(f), Some(g)) => {
            let v = a * 1000000 + b * 100000 + c * 10000 + d * 1000 + e * 100 + f * 10 + g;
            if v > SCORE_SCALE {
                None
            } else {
                Some(v)
            }
        },
        _ => None,
    }
}

/// The text that describes a task error in the result table.
pub open spec fn error_text(e: TaskError) -> Seq<char> {
    match e {
        TaskError::MissingCredential(n) => "missing credential: "@ + n@,
        TaskError::ModelCall(m) => "model call failed: "@ + m@,
        TaskError::Timeout => "timed out"@,
        TaskError::NoAnswer => "no answer"@,
        TaskError::Embedding(m) => "embedding failed: "@ + m@,
        TaskError::JudgeCall(m) => "judge call failed: "@ + m@,
        TaskError::JudgeReply => "malformed judge reply"@,
    }
}

/// The description of a task error.
pub fn describe_error(e: &TaskError) -> (r: String)
    ensures
        r@ == error_text(*e),
{
    match e {
        TaskError::MissingCredential(n) => "missing credential: ".to_owned().concat(n.as_str()),
        TaskError::ModelCall(m) => "model call failed: ".to_owned().concat(m.as_str()),
        TaskError::Timeout => "timed out".to_owned(),
        TaskError::NoAnswer => "no answer".to_owned(),
        TaskError::Embedding(m) => "embedding failed: ".to_owned().concat(m.as_str()),
        TaskError::JudgeCall(m) => "judge call failed: ".to_owned().concat(m.as_str()),
        TaskError::JudgeReply => "malformed judge reply".to_owned(),
    }
}

/// The text of each string of `v`.
pub open spec fn texts(v: Seq<String>) -> Seq<Seq<char>> {
    v.map_values(|s: String| s@)
}

/// The columns of the result table; the two judge columns only for a run
/// with a judge.
pub open spec fn output_columns(judged: bool) -> Seq<Seq<char>> {
    let base = seq![
        "system_prompt"@,
        "user_prompt"@,
        "expected_ai_answer"@,
        "base_url"@,
        "model_name"@,
        "actual_ai_answer"@,
        "cosine_similarity"@,
    ];
    if judged {
        base + seq!["judge_value"@, "judge_reason"@, "error"@]
    } else {
        base + seq!["error"@]
    }
}

/// The header record of the result table.
pub fn output_header(judged: bool) -> (r: Vec<String>)
    ensures
        texts(r@) == output_columns(judged),
{
    let mut r: Vec<String> = Vec::new();
    r.push("system_prompt".to_owned());
    r.push("user_prompt".to_owned());
    r.push("expected_ai_answer".to_owned());
    r.push("base_url".to_owned());
    r.push("model_name".to_owned());
    r.push("actual_ai_answer".to_owned());
    r.push("cosine_similarity".to_owned());
    if judged {
        r.push("judge_value".to_owned());
        r.push("judge_reason".to_owned());
    }
    r.push("error".to_owned());
    assert(texts(r@) =~= output_columns(judged));
    r
}

/// The record of one result row, field by field under `output_header`:
/// the row's texts, its similarity as a score text, the judge's score and
/// reason (empty when there are none) for a run with a judge, and the
/// description of its error (empty when there is none).
pub fn output_record(o: &OutputEntry, judged: bool) -> (r: Vec<String>)
    requires
        o.similarity <= SCORE_SCALE,
        o.judge_score matches Some(j) ==> j <= SCORE_SCALE,
    ensures
        r.len() == output_columns(judged).len(),
        r[0]@ == o.system_prompt@,
        r[1]@ == o.user_prompt@,
        r[2]@ == o.expected_answer@,
        r[3]@ == o.base_url@,
        r[4]@ == o.model_name@,
        r[5]@ == o.actual_answer@,
        is_score_text(r[6]@) && text_value(r[6]@) == o.similarity,
        judged ==> match o.judge_score {
            Some(j) => is_score_text(r[7]@) && text_value(r[7]@) == j,
            None => r[7]@.len() == 0,
        },
        judged ==> match o.judge_reason {
            Some(t) => r[8]@ == t@,
            None => r[8]@.len() == 0,
        },
        r[r.len() - 1]@ == match o.error {
            Some(e) => error_text(e),
            None => Seq::<char>::empty(),
        },
{
    let mut r: Vec<String> = Vec::new();
    r.push(o.system_prompt.clone());
    r.push(o.user_prompt.clone());
    r.push(o.expected_answer.clone());
    r.push(o.base_url.clone());
    r.push(o.model_name.clone());
    r.push(o.actual_answer.clone());
    r.push(format_score(o.similarity));
    if judged {
        match o.judge_score {
            Some(j) => r.push(format_score(j)),
            None => r.push(String::new()),
        }
        match &o.judge_reason {
            Some(t) => r.push(t.clone()),
            None => r.push(String::new()),
        }
    }
    match &o.error {
        Some(e) => r.push(describe_error(e)),
        None => r.push(String::new()),
    }
    r
}

} // verus!
