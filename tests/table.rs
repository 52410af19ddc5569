use testllm::condition::{check_conditions, ConditionOutcome, ScoreRow};
use testllm::credential::{default_credential_name, resolve_credential};
use testllm::input::{entries_from_rows, parse_entries, InputError};
use testllm::task::{ModelConfig, TaskError};

#[test]
fn entries_follow_the_header_names() {
    let data = b"user_prompt,expected_ai_answer,system_prompt\nhi,hello,be kind\n\"a, b\",c,d\n";
    let entries = parse_entries(data).unwrap();
    assert_eq!(entries.len(), 2);
    assert_eq!(entries[0].system_prompt, "be kind");
    assert_eq!(entries[0].user_prompt, "hi");
    assert_eq!(entries[0].expected_answer, "hello");
    assert_eq!(entries[1].user_prompt, "a, b");
}

#[test]
fn header_only_table_has_no_entries() {
    assert!(parse_entries(b"system_prompt,user_prompt,expected_ai_answer\n").unwrap().is_empty());
    assert!(parse_entries(b"").unwrap().is_empty());
}

#[test]
fn missing_column_is_reported() {
    let r = parse_entries(b"system_prompt,user_prompt\nx,y\n");
    assert!(matches!(r, Err(InputError::MissingColumn(ref c)) if c == "expected_ai_answer"));
    let r = parse_entries(b"a,b\nx,y\n");
    assert!(matches!(r, Err(InputError::MissingColumn(ref c)) if c == "system_prompt"));
}

#[test]
fn ragged_rows_are_malformed() {
    let r = parse_entries(b"system_prompt,user_prompt,expected_ai_answer\nx,y\n");
    assert!(matches!(r, Err(InputError::Csv)));
    let r = parse_entries(b"system_prompt,user_prompt,expected_ai_answer\nx,y,\xff\n");
    assert!(matches!(r, Err(InputError::Csv)));
}

#[test]
fn short_row_is_reported_by_index() {
    let rows = vec![
        vec!["system_prompt".to_string(), "user_prompt".to_string(), "expected_ai_answer".to_string()],
        vec!["a".to_string(), "b".to_string(), "c".to_string()],
        vec!["a".to_string(), "b".to_string()],
    ];
    assert!(matches!(entries_from_rows(&rows), Err(InputError::ShortRow(2))));
}

#[test]
fn credential_name_strips_scheme_and_punctuation() {
    assert_eq!(default_credential_name("https://api.openai.com/v1"), "apiopenaicomv1");
    assert_eq!(default_credential_name("http://localhost:8080/v1"), "localhost8080v1");
    assert_eq!(default_credential_name("api.example.com"), "apiexamplecom");
    assert_eq!(default_credential_name(""), "");
}

#[test]
fn explicit_credential_wins() {
    let mut m = ModelConfig {
        base_url: "https://api.openai.com/v1".to_string(),
        model_name: "m".to_string(),
        api_key: Some("SECRET-REDACTED".to_string()),
    };
    assert_eq!(resolve_credential(&m, Some("stored".to_string())).unwrap(), "SECRET-REDACTED");
    m.api_key = None;
    assert_eq!(resolve_credential(&m, Some("stored".to_string())).unwrap(), "stored");
    let r = resolve_credential(&m, None);
    assert!(matches!(r, Err(TaskError::MissingCredential(ref n)) if n == "apiopenaicomv1"));
}

#[test]
fn conditions_report_the_first_failing_row() {
    let rows = vec![
        ScoreRow { similarity: 900_000, judge: Some(800_000) },
        ScoreRow { similarity: 700_000, judge: None },
        ScoreRow { similarity: 400_000, judge: Some(100_000) },
    ];
    assert_eq!(check_conditions(&rows, None, None), ConditionOutcome::Passed);
    assert_eq!(check_conditions(&rows, Some(500_000), None), ConditionOutcome::SimilarityBelow(2));
    assert_eq!(check_conditions(&rows, None, Some(850_000)), ConditionOutcome::JudgeBelow(0));
    assert_eq!(check_conditions(&rows, Some(300_000), Some(500_000)), ConditionOutcome::JudgeBelow(2));
    assert_eq!(check_conditions(&rows, Some(800_000), Some(850_000)), ConditionOutcome::JudgeBelow(0));
    assert_eq!(check_conditions(&rows, Some(950_000), Some(0)), ConditionOutcome::SimilarityBelow(0));
    assert_eq!(check_conditions(&vec![], Some(1), Some(1)), ConditionOutcome::Passed);
}
