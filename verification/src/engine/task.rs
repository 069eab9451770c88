//! The kinds of tasks and the errors they end with.
use vstd::prelude::*;
use crate::json::{JsonNumber, JsonValue};

verus! {

/// The kinds of work the engine accepts.
#[derive(Debug, Clone, Copy, PartialEq, Eq, Structural)]
pub enum TaskKind {
    Completion,
    CompletionsOai,
    ChatCompletions,
    Responses,
    Transcriptions,
    AnthropicMessages,
    AnthropicCountTokens,
    Infill,
    Embeddings,
    Rerank,
    Tokenize,
    Detokenize,
    ApplyTemplate,
    LoraGet,
    LoraPost,
    SlotsGet,
    SlotsPost,
    ModelsLoad,
    ModelsUnload,
}

/// An error a task ends with: an HTTP status code, the error type that
/// llama.cpp's server reports, and a message.
#[derive(Debug)]
pub struct TaskError {
    pub code: u16,
    pub error_type: &'static str,
    pub message: String,
}

/// The error type names, one per status code the engine reports.
pub open spec fn error_type_for(code: u16) -> Seq<char> {
    if code == 400 {
        "invalid_request_error"@
    } else if code == 503 {
        "unavailable_error"@
    } else if code == 501 {
        "not_supported_error"@
    } else if code == 504 {
        "timeout_error"@
    } else {
        "server_error"@
    }
}

/// An object entry `key: "val"`.
pub open spec fn string_entry(e: (String, JsonValue), key: Seq<char>, val: Seq<char>) -> bool {
    &&& e.0@ == key
    &&& e.1 matches JsonValue::String(s) && s@ == val
}

/// `v` is the JSON form of `e`: `{"code": .., "message": .., "type": ..}`.
pub open spec fn is_task_error_json(v: JsonValue, e: TaskError) -> bool {
    &&& v matches JsonValue::Object(entries)
    &&& entries@.len() == 3
    &&& entries@[0].0@ == "code"@
    &&& entries@[0].1 == JsonValue::Number(JsonNumber::PosInt(e.code as u64))
    &&& string_entry(entries@[1], "message"@, e.message@)
    &&& string_entry(entries@[2], "type"@, e.error_type@)
}

impl TaskError {
    /// A malformed request (400).
    pub fn invalid_request(message: String) -> (e: Self)
        ensures
            e.code == 400,
            e.error_type@ == error_type_for(400),
            e.message@ == message@,
    {
        TaskError { code: 400, error_type: "invalid_request_error", message }
    }

    /// The engine cannot serve requests (503).
    pub fn unavailable(message: String) -> (e: Self)
        ensures
            e.code == 503,
            e.error_type@ == error_type_for(503),
            e.message@ == message@,
    {
        TaskError { code: 503, error_type: "unavailable_error", message }
    }

    /// A failure inside the engine (500).
    pub fn server(message: String) -> (e: Self)
        ensures
            e.code == 500,
            e.error_type@ == error_type_for(500),
            e.message@ == message@,
    {
        TaskError { code: 500, error_type: "server_error", message }
    }

    /// A task that did not finish: it was cancelled (504).
    pub fn timeout(message: String) -> (e: Self)
        ensures
            e.code == 504,
            e.error_type@ == error_type_for(504),
            e.message@ == message@,
    {
        TaskError { code: 504, error_type: "timeout_error", message }
    }

    /// A request the engine does not support yet (501).
    pub fn not_supported(message: String) -> (e: Self)
        ensures
            e.code == 501,
            e.error_type@ == error_type_for(501),
            e.message@ == message@,
    {
        TaskError { code: 501, error_type: "not_supported_error", message }
    }

    /// `{"code": .., "message": .., "type": ..}`.
    pub fn to_json(&self) -> (v: JsonValue)
        ensures
            is_task_error_json(v, *self),
    {
        let mut entries: Vec<(String, JsonValue)> = Vec::new();
        entries.push(
            (String::from_str("code"), JsonValue::Number(JsonNumber::PosInt(self.code as u64))),
        );
        entries.push((String::from_str("message"), JsonValue::String(self.message.clone())));
        entries.push((String::from_str("type"), JsonValue::String(String::from_str(self.error_type))));
        JsonValue::Object(entries)
    }
}

} // verus!
