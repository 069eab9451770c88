//! What the endpoints decide before and after they hand work to the engine.
use vstd::prelude::*;
use crate::http::error::{is_error_body, AppError};
use crate::engine::runtime::{decimal_digits, u64_to_decimal};
use crate::engine::task::string_entry;
use crate::json::{json_get, JsonNumber, JsonValue};
use vstd::utf8::{decode_utf8, encode_utf8_decode_utf8};

verus! {

/// `{"status": "ok"}`.
pub open spec fn is_status_ok(v: JsonValue) -> bool {
    &&& v matches JsonValue::Object(entries)
    &&& entries@.len() == 1
    &&& entries@[0].0@ == "status"@
    &&& entries@[0].1 matches JsonValue::String(s) && s@ == "ok"@
}

/// The answer of `/health`: 200 once the model is loaded, else 503 with a
/// "Loading model" error.
pub fn health_response(ready: bool) -> (r: (u16, JsonValue))
    ensures
        ready ==> r.0 == 200 && is_status_ok(r.1),
        !ready ==> r.0 == 503 && is_error_body(r.1, 503, "unavailable_error"@, "Loading model"@),
{
    if ready {
        let mut entries: Vec<(String, JsonValue)> = Vec::new();
        entries.push((String::from_str("status"), JsonValue::String(String::from_str("ok"))));
        (200, JsonValue::Object(entries))
    } else {
        let err = not_ready_error();
        (503, err.body())
    }
}

/// The error a request gets before the model is loaded.
pub fn not_ready_error() -> (e: AppError)
    ensures
        e matches AppError::Unavailable(m) && m@ == "Loading model"@,
{
    AppError::Unavailable(String::from_str("Loading model"))
}

/// Whether a completion request asks for a stream: `"stream": true`; any
/// other value, or none, asks for a single response.
pub fn wants_stream(payload: &JsonValue) -> (r: bool)
    ensures
        r == (json_get(*payload, "stream"@) == Some(JsonValue::Bool(true))),
{
    match payload.get("stream") {
        Some(v) => match v.as_bool() {
            Some(b) => b,
            None => false,
        },
        None => false,
    }
}

/// `n` in decimal, as text.
pub open spec fn decimal_text(n: nat) -> Seq<char> {
    decode_utf8(decimal_digits(n))
}

/// The `/metrics` report: uptime, task counters and token totals.
pub open spec fn metrics_text_spec(
    uptime: u64,
    enqueued: u64,
    completed: u64,
    cancelled: u64,
    prompt_tokens: u64,
    predicted_tokens: u64,
) -> Seq<char> {
    "llama_server_uptime_seconds "@ + decimal_text(uptime as nat) + "\nllama_server_tasks_enqueued_total "@
        + decimal_text(enqueued as nat) + "\nllama_server_tasks_completed_total "@ + decimal_text(
        completed as nat,
    ) + "\nllama_server_tasks_cancelled_total "@ + decimal_text(cancelled as nat)
        + "\nllamacpp:prompt_tokens_total "@ + decimal_text(prompt_tokens as nat)
        + "\nllamacpp:tokens_predicted_total "@ + decimal_text(predicted_tokens as nat) + "\n"@
}

fn append_decimal(out: &mut String, v: u64)
    ensures
        final(out)@ == old(out)@ + decimal_text(v as nat),
{
    let digits = u64_to_decimal(v);
    proof {
        encode_utf8_decode_utf8(digits@);
    }
    out.append(digits.as_str());
}

/// The plain-text report of `/metrics`: uptime, task counters and token
/// totals.
pub fn metrics_text(
    uptime: u64,
    enqueued: u64,
    completed: u64,
    cancelled: u64,
    prompt_tokens: u64,
    predicted_tokens: u64,
) -> (s: String)
    ensures
        s@ == metrics_text_spec(uptime, enqueued, completed, cancelled, prompt_tokens, predicted_tokens),
{
    let mut s = String::from_str("llama_server_uptime_seconds ");
    append_decimal(&mut s, uptime);
    s.append("\nllama_server_tasks_enqueued_total ");
    append_decimal(&mut s, enqueued);
    s.append("\nllama_server_tasks_completed_total ");
    append_decimal(&mut s, completed);
    s.append("\nllama_server_tasks_cancelled_total ");
    append_decimal(&mut s, cancelled);
    s.append("\nllamacpp:prompt_tokens_total ");
    append_decimal(&mut s, prompt_tokens);
    s.append("\nllamacpp:tokens_predicted_total ");
    append_decimal(&mut s, predicted_tokens);
    s.append("\n");
    s
}

/// `{"object": "list", "data": [{"id": .., "object": "model", "owned_by":
/// "llama-server-rs", "created": 0, "permission": []}]}`.
pub open spec fn is_models_json(v: JsonValue, model_id: Seq<char>) -> bool {
    &&& v matches JsonValue::Object(e)
    &&& e@.len() == 2
    &&& string_entry(e@[0], "object"@, "list"@)
    &&& e@[1].0@ == "data"@
    &&& e@[1].1 matches JsonValue::Array(items)
    &&& items@.len() == 1
    &&& items@[0] matches JsonValue::Object(m)
    &&& m@.len() == 5
    &&& string_entry(m@[0], "id"@, model_id)
    &&& string_entry(m@[1], "object"@, "model"@)
    &&& string_entry(m@[2], "owned_by"@, "llama-server-rs"@)
    &&& m@[3].0@ == "created"@ && m@[3].1 == JsonValue::Number(JsonNumber::PosInt(0))
    &&& m@[4].0@ == "permission"@
    &&& m@[4].1 matches JsonValue::Array(p)
    &&& p@.len() == 0
}

/// The answer of `/models`: the one model the server runs.
pub fn models_json(model_id: &str) -> (v: JsonValue)
    ensures
        is_models_json(v, model_id@),
{
    let mut m: Vec<(String, JsonValue)> = Vec::new();
    m.push((String::from_str("id"), JsonValue::String(String::from_str(model_id))));
    m.push((String::from_str("object"), JsonValue::String(String::from_str("model"))));
    m.push((String::from_str("owned_by"), JsonValue::String(String::from_str("llama-server-rs"))));
    m.push((String::from_str("created"), JsonValue::Number(JsonNumber::PosInt(0))));
    m.push((String::from_str("permission"), JsonValue::Array(Vec::new())));
    let mut items: Vec<JsonValue> = Vec::new();
    items.push(JsonValue::Object(m));
    let mut e: Vec<(String, JsonValue)> = Vec::new();
    e.push((String::from_str("object"), JsonValue::String(String::from_str("list"))));
    e.push((String::from_str("data"), JsonValue::Array(items)));
    JsonValue::Object(e)
}

/// `{"status": "not_implemented", "handler": name}`: the answer of an
/// endpoint that is routed but not served yet.
pub fn not_implemented_response(name: &str) -> (v: JsonValue)
    ensures
        v matches JsonValue::Object(e) && e@.len() == 2 && string_entry(
            e@[0],
            "status"@,
            "not_implemented"@,
        ) && string_entry(e@[1], "handler"@, name@),
{
    let mut e: Vec<(String, JsonValue)> = Vec::new();
    e.push((String::from_str("status"), JsonValue::String(String::from_str("not_implemented"))));
    e.push((String::from_str("handler"), JsonValue::String(String::from_str(name))));
    JsonValue::Object(e)
}

} // verus!
