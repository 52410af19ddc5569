//! The data of one evaluation: test entries, target endpoints, the judge, and
//! the result row that each (entry, endpoint) pair produces.
use vstd::prelude::*;
use crate::judge::{
    is_verdict, json_number_member_of, json_string_member_of, parse_judge_reply, percent_score_of,
};

verus! {

/// Scores are held as whole millionths: `SCORE_SCALE` stands for 1.0.
pub const SCORE_SCALE: u32 = 1000000;

/// One evaluation case.
#[derive(Clone, Debug)]
pub struct Entry {
    pub system_prompt: String,
    pub user_prompt: String,
    pub expected_answer: String,
}

/// One target endpoint. Without `api_key` the credential is looked up under
/// the endpoint's credential name.
#[derive(Clone, Debug)]
pub struct ModelConfig {
    pub base_url: String,
    pub model_name: String,
    pub api_key: Option<String>,
}

/// The grading endpoint and its prompt template, which holds the
/// placeholders `{{expected_response}}` and `{{actual_response}}`.
#[derive(Clone, Debug)]
pub struct JudgeConfig {
    pub model: ModelConfig,
    pub prompt: String,
}

/// Why one (entry, endpoint) task did not complete normally.
#[derive(Clone, Debug)]
pub enum TaskError {
    /// No credential: neither an explicit key nor a stored one under this name.
    MissingCredential(String),
    /// The target endpoint failed; the provider's message.
    ModelCall(String),
    /// An outbound call did not answer in time.
    Timeout,
    /// The target endpoint answered without a choice or with empty content.
    NoAnswer,
    /// The embedding service failed; its message.
    Embedding(String),
    /// The judge endpoint failed; the provider's message.
    JudgeCall(String),
    /// The judge's reply was not an object with a number `value` from 0 to
    /// 100 and a string `reason`.
    JudgeReply,
}

/// The judge's grade: its `value` out of 100, as a score in millionths, and
/// its explanation.
#[derive(Clone, Debug)]
pub struct JudgeVerdict {
    pub score: u32,
    pub reason: String,
}

/// One result row.
#[derive(Clone, Debug)]
pub struct OutputEntry {
    pub system_prompt: String,
    pub user_prompt: String,
    pub expected_answer: String,
    pub base_url: String,
    pub model_name: String,
    pub actual_answer: String,
    /// Similarity of the answer to the expectation, in millionths.
    pub similarity: u32,
    /// The judge's score in millionths, when a judge graded the answer.
    pub judge_score: Option<u32>,
    pub judge_reason: Option<String>,
    pub error: Option<TaskError>,
}

/// Who speaks in a chat message.
#[derive(Clone, Copy, Debug, PartialEq, Eq, Structural)]
pub enum ChatRole {
    System,
    User,
}

/// One message of a chat completion request.
#[derive(Clone, Debug)]
pub struct ChatMessage {
    pub role: ChatRole,
    pub content: String,
}

/// The request to a target endpoint for one entry: its system prompt, then
/// its user prompt.
pub fn request_messages(entry: &Entry) -> (r: Vec<ChatMessage>)
    ensures
        r.len() == 2,
        r[0].role == ChatRole::System,
        r[0].content == entry.system_prompt,
        r[1].role == ChatRole::User,
        r[1].content == entry.user_prompt,
{
    let mut r: Vec<ChatMessage> = Vec::new();
    r.push(ChatMessage { role: ChatRole::System, content: entry.system_prompt.clone() });
    r.push(ChatMessage { role: ChatRole::User, content: entry.user_prompt.clone() });
    r
}

/// The request to the judge: the prompt as the one user message.
pub fn judge_messages(prompt: String) -> (r: Vec<ChatMessage>)
    ensures
        r.len() == 1,
        r[0].role == ChatRole::User,
        r[0].content == prompt,
{
    let mut r: Vec<ChatMessage> = Vec::new();
    r.push(ChatMessage { role: ChatRole::User, content: prompt });
    r
}

/// The answer in a chat completion reply, given the content of each choice:
/// the first choice's content, when there is a choice and its content is not
/// empty.
pub fn first_answer(contents: &Vec<Option<String>>) -> (r: Result<String, TaskError>)
    ensures
        contents.len() > 0 && contents[0] is Some && contents[0]->0@.len() > 0 ==> r == Ok::<
            String,
            TaskError,
        >(contents[0]->0),
        !(contents.len() > 0 && contents[0] is Some && contents[0]->0@.len() > 0) ==> r == Err::<
            String,
            TaskError,
        >(TaskError::NoAnswer),
{
    if contents.len() == 0 {
        return Err(TaskError::NoAnswer);
    }
    match &contents[0] {
        Some(c) => {
            if c.as_str().is_empty() {
                Err(TaskError::NoAnswer)
            } else {
                Ok(c.clone())
            }
        },
        None => Err(TaskError::NoAnswer),
    }
}

/// The row of a task that failed before it had an answer: the answer is
/// empty, the similarity 0, no judge fields, and the error recorded.
pub fn failed_output(entry: &Entry, model: &ModelConfig, error: TaskError) -> (r: OutputEntry)
    ensures
        r.system_prompt == entry.system_prompt,
        r.user_prompt == entry.user_prompt,
        r.expected_answer == entry.expected_answer,
        r.base_url == model.base_url,
        r.model_name == model.model_name,
        r.actual_answer@.len() == 0,
        r.similarity == 0,
        r.judge_score is None,
        r.judge_reason is None,
        r.error == Some(error),
{
    OutputEntry {
        system_prompt: entry.system_prompt.clone(),
        user_prompt: entry.user_prompt.clone(),
        expected_answer: entry.expected_answer.clone(),
        base_url: model.base_url.clone(),
        model_name: model.model_name.clone(),
        actual_answer: String::new(),
        similarity: 0,
        judge_score: None,
        judge_reason: None,
        error: Some(error),
    }
}

/// The row of a task that has its answer. A failed scoring leaves the
/// similarity at 0 and records its error; a failed judge leaves the judge
/// fields empty and records its error unless scoring failed first; a verdict
/// gives the judge score, `value` out of 100, and the reason.
pub fn scored_output(
    entry: &Entry,
    model: &ModelConfig,
    answer: String,
    similarity: Result<u32, TaskError>,
    judge: Option<Result<JudgeVerdict, TaskError>>,
) -> (r: OutputEntry)
    requires
        similarity is Ok ==> similarity->Ok_0 <= SCORE_SCALE,
        judge matches Some(Ok(v)) ==> v.score <= SCORE_SCALE,
    ensures
        r.system_prompt == entry.system_prompt,
        r.user_prompt == entry.user_prompt,
        r.expected_answer == entry.expected_answer,
        r.base_url == model.base_url,
        r.model_name == model.model_name,
        r.actual_answer == answer,
        r.similarity == match similarity {
            Ok(s) => s,
            Err(_) => 0,
        },
        r.similarity <= SCORE_SCALE,
        r.judge_score == match judge {
            Some(Ok(v)) => Some(v.score),
            _ => None,
        },
        r.judge_reason == match judge {
            Some(Ok(v)) => Some(v.reason),
            _ => None::<String>,
        },
        r.error == match (similarity, judge) {
            (Err(e), _) => Some(e),
            (Ok(_), Some(Err(e))) => Some(e),
            _ => None,
        },
{
    let (score, score_error) = match similarity {
        Ok(s) => (s, None),
        Err(e) => (0, Some(e)),
    };
    let (judge_score, judge_reason, judge_error) = match judge {
        Some(Ok(v)) => (Some(v.score), Some(v.reason), None),
        Some(Err(e)) => (None, None, Some(e)),
        None => (None, None, None),
    };
    let error = match score_error {
        Some(e) => Some(e),
        None => judge_error,
    };
    OutputEntry {
        system_prompt: entry.system_prompt.clone(),
        user_prompt: entry.user_prompt.clone(),
        expected_answer: entry.expected_answer.clone(),
        base_url: model.base_url.clone(),
        model_name: model.model_name.clone(),
        actual_answer: answer,
        similarity: score,
        judge_score,
        judge_reason,
        error,
    }
}

/// How an outbound chat call ended: the content of each choice of its
/// reply, or no reply in time, or the provider's error message.
#[derive(Clone, Debug)]
pub enum CallOutcome {
    Replied(Vec<Option<String>>),
    TimedOut,
    Failed(String),
}

/// The answer of a target endpoint's call, or the task error it makes.
pub fn answer_from_call(outcome: CallOutcome) -> (r: Result<String, TaskError>)
    ensures
        outcome matches CallOutcome::Replied(c) ==> {
            if c.len() > 0 && c[0] is Some && c[0]->0@.len() > 0 {
                r == Ok::<String, TaskError>(c[0]->0)
            } else {
                r == Err::<String, TaskError>(TaskError::NoAnswer)
            }
        },
        outcome is TimedOut ==> r == Err::<String, TaskError>(TaskError::Timeout),
        outcome matches CallOutcome::Failed(m) ==> r == Err::<String, TaskError>(
            TaskError::ModelCall(m),
        ),
{
    match outcome {
        CallOutcome::Replied(c) => first_answer(&c),
        CallOutcome::TimedOut => Err(TaskError::Timeout),
        CallOutcome::Failed(m) => Err(TaskError::ModelCall(m)),
    }
}

/// The verdict of a judge call, or the task error it makes: a reply without
/// usable content, or whose content is no verdict, is a malformed reply.
pub fn verdict_from_call(outcome: CallOutcome) -> (r: Result<JudgeVerdict, TaskError>)
    ensures
        outcome matches CallOutcome::Replied(c) ==> {
            if c.len() > 0 && c[0] is Some && c[0]->0@.len() > 0 {
                let v = json_number_member_of(c[0]->0@, "value"@);
                let s = json_string_member_of(c[0]->0@, "reason"@);
                &&& (r is Ok) == is_verdict(v, s)
                &&& r is Ok ==> r->Ok_0.score == percent_score_of(v->0)->0 && r->Ok_0.reason@
                    == s->0
                &&& r is Err ==> r == Err::<JudgeVerdict, TaskError>(TaskError::JudgeReply)
            } else {
                r == Err::<JudgeVerdict, TaskError>(TaskError::JudgeReply)
            }
        },
        outcome is TimedOut ==> r == Err::<JudgeVerdict, TaskError>(TaskError::Timeout),
        outcome matches CallOutcome::Failed(m) ==> r == Err::<JudgeVerdict, TaskError>(
            TaskError::JudgeCall(m),
        ),
        r is Ok ==> r->Ok_0.score <= SCORE_SCALE,
{
    match outcome {
        CallOutcome::Replied(c) => match first_answer(&c) {
            Ok(content) => parse_judge_reply(content.as_str()),
            Err(_) => Err(TaskError::JudgeReply),
        },
        CallOutcome::TimedOut => Err(TaskError::Timeout),
        CallOutcome::Failed(m) => Err(TaskError::JudgeCall(m)),
    }
}

} // verus!
