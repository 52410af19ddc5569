use testllm::condition::{check_conditions, score_rows, ConditionOutcome, ScoreRow};
use testllm::input::{read_table, InputError};
use testllm::output::{describe_error, format_score, output_header, output_record, parse_score};
use testllm::task::{failed_output, scored_output, Entry, JudgeVerdict, ModelConfig, TaskError};

fn entry() -> Entry {
    Entry {
        system_prompt: "sys".to_string(),
        user_prompt: "usr".to_string(),
        expected_answer: "exp".to_string(),
    }
}

fn model() -> ModelConfig {
    ModelConfig {
        base_url: "https://a.example/v1".to_string(),
        model_name: "m".to_string(),
        api_key: None,
    }
}

#[test]
fn score_text_has_six_places() {
    assert_eq!(format_score(870_000), "0.870000");
    assert_eq!(format_score(1_000_000), "1.000000");
    assert_eq!(format_score(0), "0.000000");
    assert_eq!(format_score(5), "0.000005");
    assert_eq!(format_score(123_456), "0.123456");
}

#[test]
fn score_text_reads_back() {
    for v in [0u32, 1, 9, 10, 99_999, 870_000, 999_999, 1_000_000] {
        assert_eq!(parse_score(&format_score(v)), Some(v));
    }
    assert_eq!(parse_score("1.000001"), None);
    assert_eq!(parse_score("0.87"), None);
    assert_eq!(parse_score("0,870000"), None);
    assert_eq!(parse_score("0.87000x"), None);
    assert_eq!(parse_score(""), None);
}

#[test]
fn header_has_judge_columns_only_when_judged() {
    assert_eq!(
        output_header(false),
        vec![
            "system_prompt", "user_prompt", "expected_ai_answer", "base_url", "model_name",
            "actual_ai_answer", "cosine_similarity", "error"
        ]
    );
    assert_eq!(
        output_header(true),
        vec![
            "system_prompt", "user_prompt", "expected_ai_answer", "base_url", "model_name",
            "actual_ai_answer", "cosine_similarity", "judge_value", "judge_reason", "error"
        ]
    );
}

#[test]
fn record_follows_the_header() {
    let verdict = JudgeVerdict { score: 870_000, reason: "close match".to_string() };
    let o = scored_output(&entry(), &model(), "ans".to_string(), Ok(640_000), Some(Ok(verdict)));
    assert_eq!(
        output_record(&o, true),
        vec!["sys", "usr", "exp", "https://a.example/v1", "m", "ans", "0.640000", "0.870000", "close match", ""]
    );
    let o = failed_output(&entry(), &model(), TaskError::ModelCall("502".to_string()));
    assert_eq!(
        output_record(&o, false),
        vec!["sys", "usr", "exp", "https://a.example/v1", "m", "", "0.000000", "model call failed: 502"]
    );
}

#[test]
fn every_error_has_a_description() {
    assert_eq!(describe_error(&TaskError::MissingCredential("apiexamplecom".to_string())), "missing credential: apiexamplecom");
    assert_eq!(describe_error(&TaskError::Timeout), "timed out");
    assert_eq!(describe_error(&TaskError::NoAnswer), "no answer");
    assert_eq!(describe_error(&TaskError::Embedding("x".to_string())), "embedding failed: x");
    assert_eq!(describe_error(&TaskError::JudgeCall("y".to_string())), "judge call failed: y");
    assert_eq!(describe_error(&TaskError::JudgeReply), "malformed judge reply");
}

#[test]
fn result_table_scores_are_read_back() {
    let data = b"system_prompt,cosine_similarity,judge_value,error\na,0.900000,0.800000,\nb,0.300000,,timed out\n";
    let rows = score_rows(&read_table(data).unwrap()).unwrap();
    assert_eq!(
        rows,
        vec![
            ScoreRow { similarity: 900_000, judge: Some(800_000) },
            ScoreRow { similarity: 300_000, judge: None },
        ]
    );
    assert_eq!(check_conditions(&rows, Some(500_000), None), ConditionOutcome::SimilarityBelow(1));
}

#[test]
fn result_table_errors() {
    let r = score_rows(&read_table(b"a,b\n1,2\n").unwrap());
    assert!(matches!(r, Err(InputError::MissingColumn(ref c)) if c == "cosine_similarity"));
    let r = score_rows(&read_table(b"cosine_similarity\n0.5\n").unwrap());
    assert!(matches!(r, Err(InputError::BadScore(1))));
    assert!(score_rows(&read_table(b"cosine_similarity\n").unwrap()).unwrap().is_empty());
}
