use testllm::judge::{judge_prompt, parse_judge_reply, percent_score, verdict_from_members};
use testllm::similarity::{lexical_similarity, split_words, Cosine};
use testllm::task::{
    answer_from_call, verdict_from_call, CallOutcome, first_answer, judge_messages, request_messages, scored_output, ChatRole, Entry, JudgeVerdict,
    ModelConfig, TaskError,
};

fn chars(s: &str) -> Vec<char> {
    s.chars().collect()
}

fn score(c: &Cosine) -> f64 {
    if c.is_zero_magnitude() {
        0.0
    } else {
        c.dot as f64 / ((c.left as f64) * (c.right as f64)).sqrt()
    }
}

#[test]
fn words_split_on_any_whitespace() {
    let w = split_words("  the\tcat \n sat\u{3000}down ");
    assert_eq!(w, vec![chars("the"), chars("cat"), chars("sat"), chars("down")]);
    assert!(split_words("").is_empty());
    assert!(split_words(" \t\n").is_empty());
}

#[test]
fn same_text_scores_exactly_one() {
    let c = lexical_similarity("the cat the hat", "the cat the hat");
    assert_eq!(c, Cosine { dot: 6, left: 6, right: 6 });
    assert_eq!(score(&c), 1.0);
}

#[test]
fn disjoint_texts_score_zero() {
    let c = lexical_similarity("red green blue", "cyan magenta");
    assert_eq!(c.dot, 0);
    assert_eq!(c.left, 3);
    assert_eq!(c.right, 2);
    assert_eq!(score(&c), 0.0);
}

#[test]
fn empty_text_has_zero_magnitude() {
    let c = lexical_similarity("", "something here");
    assert!(c.is_zero_magnitude());
    assert_eq!(c.dot, 0);
    assert_eq!(score(&c), 0.0);
    let c = lexical_similarity("something", "");
    assert!(c.is_zero_magnitude());
    assert_eq!(score(&c), 0.0);
}

#[test]
fn term_counts_give_the_cosine() {
    // counts: a=2, b=1 against a=1, c=1: dot 2, |x|^2 = 5, |y|^2 = 2
    let c = lexical_similarity("a b a", "c a");
    assert_eq!(c, Cosine { dot: 2, left: 5, right: 2 });
    assert!((score(&c) - 2.0 / (10.0f64).sqrt()).abs() < 1e-12);
}

#[test]
fn judge_prompt_fills_both_placeholders() {
    let p = judge_prompt(
        "Expected: {{expected_response}}; actual: {{actual_response}}; again {{expected_response}}",
        "four",
        "4",
    );
    assert_eq!(p, "Expected: four; actual: 4; again four");
    assert_eq!(judge_prompt("no placeholder", "x", "y"), "no placeholder");
}

#[test]
fn judge_prompt_does_not_refill_inserted_text() {
    let p = judge_prompt("{{actual_response}}", "{{actual_response}}", "A");
    assert_eq!(p, "A");
    let p = judge_prompt("{{expected_response}}", "{{actual_response}}", "A");
    assert_eq!(p, "A");
}

#[test]
fn judge_reply_gives_score_and_reason() {
    let v = parse_judge_reply(r#"{"value": 87, "reason": "close match"}"#).unwrap();
    assert_eq!(v.score, 870_000);
    assert_eq!(v.reason, "close match");
    assert_eq!(v.score as f64 / 1_000_000.0, 0.87);
    let v = parse_judge_reply(r#"{"reason": "partly", "value": 42.5}"#).unwrap();
    assert_eq!(v.score, 425_000);
}

#[test]
fn malformed_judge_replies_are_errors() {
    for reply in [
        "not json",
        r#"{"reason": "no value"}"#,
        r#"{"value": 50}"#,
        r#"{"value": 150, "reason": "too high"}"#,
        r#"{"value": -3, "reason": "negative"}"#,
        r#"{"value": "80", "reason": "text"}"#,
        r#"{"value": 100.5, "reason": "over"}"#,
        r#"{"value": 87, "reason": 3}"#,
        r#"[87, "close match"]"#,
    ] {
        assert!(matches!(parse_judge_reply(reply), Err(TaskError::JudgeReply)), "{reply}");
    }
}

#[test]
fn verdict_needs_both_members() {
    let v = verdict_from_members(Some("100".to_string()), Some("exact".to_string())).unwrap();
    assert_eq!(v.score, 1_000_000);
    assert!(verdict_from_members(Some("101".to_string()), Some("x".to_string())).is_err());
    assert!(verdict_from_members(None, Some("x".to_string())).is_err());
    assert!(verdict_from_members(Some("3".to_string()), None).is_err());
}

#[test]
fn percent_text_becomes_millionths() {
    assert_eq!(percent_score("87"), Some(870_000));
    assert_eq!(percent_score("87.5"), Some(875_000));
    assert_eq!(percent_score("0"), Some(0));
    assert_eq!(percent_score("0.0001"), Some(1));
    assert_eq!(percent_score("12.34567"), Some(123_456));
    assert_eq!(percent_score("100"), Some(1_000_000));
    assert_eq!(percent_score("100.0"), Some(1_000_000));
    assert_eq!(percent_score("007"), Some(70_000));
    assert_eq!(percent_score("100.01"), None);
    assert_eq!(percent_score("101"), None);
    assert_eq!(percent_score("1000000000000000000000"), None);
    assert_eq!(percent_score("-3"), None);
    assert_eq!(percent_score("1e-5"), None);
    assert_eq!(percent_score("5."), None);
    assert_eq!(percent_score(".5"), None);
    assert_eq!(percent_score(""), None);
    assert_eq!(percent_score("5.5.5"), None);
}

fn entry() -> Entry {
    Entry {
        system_prompt: "Be brief.".to_string(),
        user_prompt: "2 + 2?".to_string(),
        expected_answer: "4".to_string(),
    }
}

fn model() -> ModelConfig {
    ModelConfig {
        base_url: "https://api.example.com/v1".to_string(),
        model_name: "small".to_string(),
        api_key: None,
    }
}

#[test]
fn request_has_system_then_user_message() {
    let m = request_messages(&entry());
    assert_eq!(m.len(), 2);
    assert_eq!(m[0].role, ChatRole::System);
    assert_eq!(m[0].content, "Be brief.");
    assert_eq!(m[1].role, ChatRole::User);
    assert_eq!(m[1].content, "2 + 2?");
    let j = judge_messages("grade this".to_string());
    assert_eq!(j.len(), 1);
    assert_eq!(j[0].role, ChatRole::User);
}

#[test]
fn answer_is_the_first_non_empty_choice() {
    assert_eq!(first_answer(&vec![Some("4".to_string()), Some("5".to_string())]).unwrap(), "4");
    assert!(matches!(first_answer(&vec![]), Err(TaskError::NoAnswer)));
    assert!(matches!(first_answer(&vec![None, Some("5".to_string())]), Err(TaskError::NoAnswer)));
    assert!(matches!(first_answer(&vec![Some(String::new())]), Err(TaskError::NoAnswer)));
}

#[test]
fn judged_row_carries_score_and_reason() {
    let verdict = JudgeVerdict { score: 870_000, reason: "close match".to_string() };
    let o = scored_output(&entry(), &model(), "4".to_string(), Ok(1_000_000), Some(Ok(verdict)));
    assert_eq!(o.judge_score, Some(870_000));
    assert_eq!(o.judge_reason.as_deref(), Some("close match"));
    assert_eq!(o.similarity, 1_000_000);
    assert_eq!(o.actual_answer, "4");
    assert_eq!(o.base_url, "https://api.example.com/v1");
    assert!(o.error.is_none());
}

#[test]
fn judge_failure_keeps_the_similarity() {
    let o = scored_output(
        &entry(),
        &model(),
        "4".to_string(),
        Ok(640_000),
        Some(Err(TaskError::JudgeCall("timeout".to_string()))),
    );
    assert_eq!(o.similarity, 640_000);
    assert!(o.judge_score.is_none());
    assert!(matches!(o.error, Some(TaskError::JudgeCall(ref m)) if m == "timeout"));
}

#[test]
fn scoring_failure_is_reported_first() {
    let o = scored_output(
        &entry(),
        &model(),
        "4".to_string(),
        Err(TaskError::Embedding("down".to_string())),
        Some(Err(TaskError::JudgeReply)),
    );
    assert_eq!(o.similarity, 0);
    assert!(matches!(o.error, Some(TaskError::Embedding(_))));
}

#[test]
fn call_outcomes_become_answers_or_errors() {
    let ok = CallOutcome::Replied(vec![Some("4".to_string())]);
    assert_eq!(answer_from_call(ok).unwrap(), "4");
    assert!(matches!(answer_from_call(CallOutcome::Replied(vec![])), Err(TaskError::NoAnswer)));
    assert!(matches!(answer_from_call(CallOutcome::TimedOut), Err(TaskError::Timeout)));
    assert!(matches!(
        answer_from_call(CallOutcome::Failed("boom".to_string())),
        Err(TaskError::ModelCall(ref m)) if m == "boom"
    ));

    let reply = CallOutcome::Replied(vec![Some(r#"{"value": 87, "reason": "close match"}"#.to_string())]);
    let v = verdict_from_call(reply).unwrap();
    assert_eq!((v.score, v.reason.as_str()), (870_000, "close match"));
    assert!(matches!(verdict_from_call(CallOutcome::Replied(vec![None])), Err(TaskError::JudgeReply)));
    assert!(matches!(verdict_from_call(CallOutcome::TimedOut), Err(TaskError::Timeout)));
    assert!(matches!(
        verdict_from_call(CallOutcome::Failed("down".to_string())),
        Err(TaskError::JudgeCall(_))
    ));
}

#[test]
fn lexical_similarity_in_millionths() {
    assert_eq!(lexical_similarity("the cat the hat", "the cat the hat").millionths(), Some(1_000_000));
    assert_eq!(lexical_similarity("red green blue", "cyan magenta").millionths(), Some(0));
    assert_eq!(lexical_similarity("", "something").millionths(), Some(0));
    // 2 / sqrt(10) = 0.6324555...
    assert_eq!(lexical_similarity("a b a", "c a").millionths(), Some(632_455));
    // 1 / sqrt(2) = 0.7071067...
    assert_eq!(lexical_similarity("x y", "x").millionths(), Some(707_106));
    let big = Cosine { dot: 1 << 33, left: 1 << 33, right: 1 << 33 };
    assert_eq!(big.millionths(), None);
    let zero = Cosine { dot: 0, left: 0, right: 1 << 40 };
    assert_eq!(zero.millionths(), Some(0));
}
