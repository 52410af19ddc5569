//! The judge: its prompt, made from a template and the two answers, and its
//! reply, a JSON object with a number `value` from 0 to 100 and a string
//! `reason`; the judge's score is `value` out of 100.
use vstd::prelude::*;
use crate::output::{digit_value, value_of_digit};
use crate::task::{JudgeVerdict, TaskError, SCORE_SCALE};
use crate::text::{chars_of, replace_all, replaced, string_of};

verus! {

/// The placeholder that the expected answer takes the place of.
pub open spec fn expected_placeholder() -> Seq<char> {
    "{{expected_response}}"@
}

/// The placeholder that the actual answer takes the place of.
pub open spec fn actual_placeholder() -> Seq<char> {
    "{{actual_response}}"@
}

/// The judge prompt: `template` with the expected answer put in place of its
/// expected placeholder, and then the actual answer in place of its actual
/// placeholder.
pub open spec fn judge_prompt_of(template: Seq<char>, expected: Seq<char>, actual: Seq<char>) -> Seq<
    char,
> {
    replaced(replaced(template, expected_placeholder(), expected), actual_placeholder(), actual)
}

/// The prompt sent to the judge for one answer.
pub fn judge_prompt(template: &str, expected: &str, actual: &str) -> (r: String)
    ensures
        r@ == judge_prompt_of(template@, expected@, actual@),
{
    proof {
        reveal_strlit("{{expected_response}}");
        reveal_strlit("{{actual_response}}");
    }
    let t = chars_of(template);
    let e_pat = chars_of("{{expected_response}}");
    let a_pat = chars_of("{{actual_response}}");
    let e = chars_of(expected);
    let a = chars_of(actual);
    let step = replace_all(&t, &e_pat, &e);
    string_of(&replace_all(&step, &a_pat, &a))
}

/// The string member `key` of the JSON object that `text` holds, if `text`
/// is JSON and the member is there and a string.
pub uninterp spec fn json_string_member_of(text: Seq<char>, key: Seq<char>) -> Option<Seq<char>>;

/// The text of the number that is the member `key` of the JSON object that
/// `text` holds, if `text` is JSON and the member is there and a number.
pub uninterp spec fn json_number_member_of(text: Seq<char>, key: Seq<char>) -> Option<Seq<char>>;

/// Relies on `serde_json::from_str` into a `Value`, `Value::get` with a string
/// key and `Value::as_str`: the member's text when all three succeed.
#[verifier::external_body]
fn json_string_member(text: &str, key: &str) -> (r: Option<String>)
    ensures
        (r is Some) == (json_string_member_of(text@, key@) is Some),
        r is Some ==> r->0@ == json_string_member_of(text@, key@)->0,
{
    let value = serde_json::from_str::<serde_json::Value>(text).ok()?;
    value.get(key)?.as_str().map(String::from)
}

/// Relies on `serde_json::from_str` into a `Value`, `Value::get` with a string
/// key, `Value::as_number` and the `Display` text of `serde_json::Number`: the
/// member's number as text when all succeed.
#[verifier::external_body]
fn json_number_member(text: &str, key: &str) -> (r: Option<String>)
    ensures
        (r is Some) == (json_number_member_of(text@, key@) is Some),
        r is Some ==> r->0@ == json_number_member_of(text@, key@)->0,
{
    let value = serde_json::from_str::<serde_json::Value>(text).ok()?;
    value.get(key)?.as_number().map(|n| n.to_string())
}

/// `s` is made of decimal digits only.
pub open spec fn is_digits(s: Seq<char>) -> bool {
    forall|i: int| 0 <= i < s.len() ==> (#[trigger] digit_value(s[i])) is Some
}

/// The number that the decimal digits `s` write.
pub open spec fn digits_value(s: Seq<char>) -> int
    decreases s.len(),
{
    if s.len() == 0 {
        0
    } else {
        digits_value(s.drop_last()) * 10 + digit_value(s.last())->0
    }
}

/// The position of the first point of `t`, or its length if it has none.
pub open spec fn point_index(t: Seq<char>) -> int
    decreases t.len(),
{
    if t.len() == 0 || t[0] == '.' {
        0
    } else {
        1 + point_index(t.skip(1))
    }
}

/// The first four decimal places that the fraction digits `f` write, as a
/// number of ten-thousandths (digits beyond the fourth are dropped).
pub open spec fn ten_thousandths(f: Seq<char>) -> int {
    if f.len() >= 4 {
        digits_value(f.take(4))
    } else if f.len() == 3 {
        digits_value(f) * 10
    } else if f.len() == 2 {
        digits_value(f) * 100
    } else if f.len() == 1 {
        digits_value(f) * 1000
    } else {
        0
    }
}

/// The score, in millionths, that a judge's `value` gives when written as
/// `t`: digits, then optionally a point and more digits, for a number from 0
/// to 100; the score is `value` out of 100, with `value`'s places beyond
/// the fourth dropped.
pub open spec fn percent_score_of(t: Seq<char>) -> Option<u32> {
    let w = whole_of(t);
    let f = fraction_of(t);
    if w.len() == 0 || !is_digits(w) || (point_index(t) < t.len() && (f.len() == 0 || !is_digits(
        f,
    ))) {
        None
    } else if digits_value(w) > 100 || (digits_value(w) == 100 && exists|i: int|
        0 <= i < f.len() && #[trigger] f[i] != '0') {
        None
    } else {
        Some((digits_value(w) * 10000 + ten_thousandths(f)) as u32)
    }
}

/// The digits of `t` before its point.
pub open spec fn whole_of(t: Seq<char>) -> Seq<char> {
    t.take(point_index(t))
}

/// The digits of `t` after its point; none when it has no point.
pub open spec fn fraction_of(t: Seq<char>) -> Seq<char> {
    if point_index(t) < t.len() {
        t.skip(point_index(t) + 1)
    } else {
        Seq::empty()
    }
}

proof fn lemma_point_index(t: Seq<char>, i: int)
    requires
        0 <= i <= t.len(),
        forall|j: int| 0 <= j < i ==> t[j] != '.',
        i == t.len() || t[i] == '.',
    ensures
        point_index(t) == i,
    decreases i,
{
    if i > 0 {
        assert(t[0] != '.');
        lemma_point_index(t.skip(1), i - 1);
    }
}

proof fn lemma_digits_value_bounds(s: Seq<char>)
    requires
        is_digits(s),
    ensures
        0 <= digits_value(s),
        s.len() <= 1 ==> digits_value(s) <= 9,
        s.len() <= 2 ==> digits_value(s) <= 99,
        s.len() <= 3 ==> digits_value(s) <= 999,
        s.len() <= 4 ==> digits_value(s) <= 9999,
    decreases s.len(),
{
    if s.len() > 0 {
        assert(is_digits(s.drop_last())) by {
            assert forall|i: int| 0 <= i < s.drop_last().len() implies (#[trigger] digit_value(
                s.drop_last()[i],
            )) is Some by {
                assert(s.drop_last()[i] == s[i]);
            }
        }
        assert(digit_value(s[s.len() - 1]) is Some);
        lemma_digits_value_bounds(s.drop_last());
    }
}

proof fn lemma_digits_value_grows(s: Seq<char>, k: int)
    requires
        is_digits(s),
        0 <= k <= s.len(),
    ensures
        digits_value(s.take(k)) <= digits_value(s),
    decreases s.len() - k,
{
    if k < s.len() {
        lemma_digits_value_grows(s, k + 1);
        assert(s.take(k + 1).drop_last() =~= s.take(k));
        assert(digit_value(s[k]) is Some);
        lemma_digits_value_bounds(s.take(k));
    } else {
        assert(s.take(k) =~= s);
    }
}

proof fn lemma_zero_digits(s: Seq<char>)
    requires
        forall|j: int| 0 <= j < s.len() ==> s[j] == '0',
    ensures
        digits_value(s) == 0,
    decreases s.len(),
{
    if s.len() > 0 {
        assert(s[s.len() - 1] == '0');
        lemma_zero_digits(s.drop_last());
    }
}

proof fn lemma_point_index_after(t: Seq<char>, k: int)
    requires
        0 <= k <= t.len(),
        forall|j: int| 0 <= j < k ==> t[j] != '.',
    ensures
        k <= point_index(t) <= t.len(),
    decreases t.len(),
{
    if t.len() > 0 && t[0] != '.' {
        if k > 0 {
            lemma_point_index_after(t.skip(1), k - 1);
        } else {
            lemma_point_index_after(t.skip(1), 0);
        }
    }
}

proof fn lemma_not_accepted_whole(t: Seq<char>, i: int)
    requires
        0 <= i < t.len(),
        forall|j: int| 0 <= j < i ==> t[j] != '.',
        t[i] != '.',
        digit_value(t[i]) is None,
    ensures
        percent_score_of(t) is None,
{
    lemma_point_index_after(t, i + 1);
    let w = t.take(point_index(t));
    assert(w[i] == t[i]);
}

proof fn lemma_whole_too_large(t: Seq<char>, i: int)
    requires
        0 < i <= t.len(),
        forall|j: int| 0 <= j < i ==> t[j] != '.',
        is_digits(t.take(i)),
        digits_value(t.take(i)) > 100,
    ensures
        percent_score_of(t) is None,
{
    lemma_point_index_after(t, i);
    let w = t.take(point_index(t));
    if is_digits(w) {
        lemma_digits_value_grows(w, i);
        assert(w.take(i) =~= t.take(i));
    }
}

proof fn lemma_not_accepted_fraction(t: Seq<char>, i: int, k: int)
    requires
        0 <= i < k < t.len(),
        point_index(t) == i,
        digit_value(t[k]) is None,
    ensures
        percent_score_of(t) is None,
{
    let f = t.skip(i + 1);
    assert(f[k - i - 1] == t[k]);
}

/// The score, in millionths, that a judge's `value` written as `t` gives.
pub fn percent_score(t: &str) -> (r: Option<u32>)
    ensures
        r == percent_score_of(t@),
        r matches Some(x) ==> x <= SCORE_SCALE,
{
    let cs = chars_of(t);
    let n = cs.len();
    let mut i: usize = 0;
    let mut w: u32 = 0;
    while i < n && cs[i] != '.'
        invariant
            i <= n == cs.len(),
            cs@ == t@,
            forall|j: int| 0 <= j < i ==> cs@[j] != '.',
            is_digits(cs@.take(i as int)),
            w == digits_value(cs@.take(i as int)),
            w <= 100,
        decreases n - i,
    {
        assert(cs@.take(i + 1).drop_last() =~= cs@.take(i as int));
        let d = match value_of_digit(cs[i]) {
            Some(d) => d,
            None => {
                proof {
                    lemma_not_accepted_whole(t@, i as int);
                }
                return None;
            },
        };
        assert(is_digits(cs@.take(i + 1))) by {
            assert forall|j: int| 0 <= j < i + 1 implies (#[trigger] digit_value(cs@.take(i + 1)[j])) is Some by {
                if j < i {
                    assert(cs@.take(i + 1)[j] == cs@.take(i as int)[j]);
                }
            }
        }
        w = w * 10 + d;
        i = i + 1;
        if w > 100 {
            proof {
                lemma_whole_too_large(t@, i as int);
            }
            return None;
        }
    }
    proof {
        lemma_point_index(t@, i as int);
    }
    let ghost wv = cs@.take(i as int);
    if i == 0 {
        return None;
    }
    if i == n {
        assert(wv =~= t@);
        return Some(w * 10000);
    }
    let start = i + 1;
    if start == n {
        return None;
    }
    let mut k: usize = start;
    let mut frac: u32 = 0;
    let mut nonzero = false;
    while k < n
        invariant
            start <= k <= n == cs.len(),
            start == i + 1,
            i < n,
            cs@ == t@,
            point_index(t@) == i,
            0 < i,
            is_digits(cs@.take(i as int)),
            w == digits_value(cs@.take(i as int)),
            w <= 100,
            is_digits(cs@.subrange(start as int, k as int)),
            frac == digits_value(cs@.subrange(start as int, if k - start < 4 { k as int } else { start + 4 })),
            nonzero == exists|j: int| start <= j < k && cs@[j] != '0',
        decreases n - k,
    {
        let d = match value_of_digit(cs[k]) {
            Some(d) => d,
            None => {
                proof {
                    lemma_not_accepted_fraction(t@, i as int, k as int);
                }
                return None;
            },
        };
        let ghost f = cs@.subrange(start as int, k + 1);
        assert(f.drop_last() =~= cs@.subrange(start as int, k as int));
        assert(is_digits(f)) by {
            assert forall|j: int| 0 <= j < f.len() implies (#[trigger] digit_value(f[j])) is Some by {
                if j < f.len() - 1 {
                    assert(f[j] == cs@.subrange(start as int, k as int)[j]);
                }
            }
        }
        if k - start < 4 {
            proof {
                lemma_digits_value_bounds(cs@.subrange(start as int, k as int));
            }
            frac = frac * 10 + d;
        }
        if d != 0 {
            nonzero = true;
        }
        k = k + 1;
    }
    let ghost f = t@.skip(i + 1);
    assert(f =~= cs@.subrange(start as int, n as int));
    proof {
        lemma_digits_value_bounds(cs@.subrange(start as int, if n - start < 4 { n as int } else { start + 4 }));
        if n - start >= 4 {
            assert(f.take(4) =~= cs@.subrange(start as int, start + 4));
        }
        if nonzero {
            let j = choose|j: int| start <= j < n && cs@[j] != '0';
            assert(f[j - start] != '0');
        } else {
            assert forall|j: int| 0 <= j < f.len() implies f[j] == '0' by {
                assert(f[j] == cs@[j + start]);
            }
            let g = cs@.subrange(start as int, if n - start < 4 { n as int } else { start + 4 });
            assert forall|j: int| 0 <= j < g.len() implies g[j] == '0' by {
                assert(g[j] == cs@[j + start]);
            }
            lemma_zero_digits(g);
        }
        assert(t@.take(i as int) =~= wv);
    }
    if w == 100 && nonzero {
        proof {
            let j = choose|j: int| start <= j < n && cs@[j] != '0';
            assert(f[j - start] != '0');
            assert(digits_value(t@.take(point_index(t@))) == 100);
        }
        return None;
    }
    let scaled = if n - start >= 4 {
        frac
    } else if n - start == 3 {
        frac * 10
    } else if n - start == 2 {
        frac * 100
    } else {
        frac * 1000
    };
    Some(w * 10000 + scaled)
}

/// Both members of a judge's answer are there, and `value` is a number from
/// 0 to 100.
pub open spec fn is_verdict(value: Option<Seq<char>>, reason: Option<Seq<char>>) -> bool {
    value is Some && reason is Some && percent_score_of(value->0) is Some
}

pub open spec fn text_of(s: Option<String>) -> Option<Seq<char>> {
    match s {
        Some(x) => Some(x@),
        None => None,
    }
}

/// The verdict from the two members of a judge reply: the text of the
/// number `value` and the string `reason`.
pub fn verdict_from_members(value: Option<String>, reason: Option<String>) -> (r: Result<
    JudgeVerdict,
    TaskError,
>)
    ensures
        (r is Ok) == is_verdict(text_of(value), text_of(reason)),
        r is Ok ==> r->Ok_0.score == percent_score_of(value->0@)->0 && r->Ok_0.reason
            == reason->0,
        r is Ok ==> r->Ok_0.score <= SCORE_SCALE,
        r is Err ==> r == Err::<JudgeVerdict, TaskError>(TaskError::JudgeReply),
{
    match (value, reason) {
        (Some(v), Some(s)) => match percent_score(v.as_str()) {
            Some(score) => Ok(JudgeVerdict { score, reason: s }),
            None => Err(TaskError::JudgeReply),
        },
        _ => Err(TaskError::JudgeReply),
    }
}

/// The verdict in the content of a judge reply.
pub fn parse_judge_reply(content: &str) -> (r: Result<JudgeVerdict, TaskError>)
    ensures
        ({
            let v = json_number_member_of(content@, "value"@);
            let s = json_string_member_of(content@, "reason"@);
            &&& (r is Ok) == is_verdict(v, s)
            &&& r is Ok ==> r->Ok_0.score == percent_score_of(v->0)->0 && r->Ok_0.reason@ == s->0
            &&& r is Ok ==> r->Ok_0.score <= SCORE_SCALE
            &&& r is Err ==> r == Err::<JudgeVerdict, TaskError>(TaskError::JudgeReply)
        }),
{
    let value = json_number_member(content, "value");
    let reason = json_string_member(content, "reason");
    verdict_from_members(value, reason)
}

} // verus!
