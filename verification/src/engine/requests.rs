//! The payloads of the tokenizer and chat-template tasks, read into plain
//! values before the model is asked anything.
use vstd::prelude::*;
use crate::json::{json_get, value_as_i64, JsonValue};

verus! {

/// A boolean field, or `default` when it is absent or not a boolean.
pub open spec fn flag_spec(payload: JsonValue, key: Seq<char>, default: bool) -> bool {
    match json_get(payload, key) {
        Some(JsonValue::Bool(b)) => b,
        _ => default,
    }
}

/// Reads a boolean field with a default.
pub fn flag(payload: &JsonValue, key: &str, default: bool) -> (r: bool)
    ensures
        r == flag_spec(*payload, key@, default),
{
    match payload.get(key) {
        Some(v) => match v.as_bool() {
            Some(b) => b,
            None => default,
        },
        None => default,
    }
}

/// What `/tokenize` asks for.
#[derive(Debug, Clone, PartialEq, Eq)]
pub struct TokenizeRequest {
    pub content: String,
    pub with_pieces: bool,
}

/// Reads a `/tokenize` payload: `content` must be a string.
pub fn tokenize_request(payload: &JsonValue) -> (r: Result<TokenizeRequest, String>)
    ensures
        match json_get(*payload, "content"@) {
            Some(JsonValue::String(c)) => r matches Ok(req) && req.content@ == c@ && req.with_pieces
                == flag_spec(*payload, "with_pieces"@, false),
            _ => r matches Err(m) && m@ == "missing string field: content"@,
        },
{
    let content = match payload.get("content") {
        Some(v) => match v.as_str() {
            Some(c) => String::from_str(c),
            None => {
                return Err(String::from_str("missing string field: content"));
            },
        },
        None => {
            return Err(String::from_str("missing string field: content"));
        },
    };
    Ok(TokenizeRequest { content, with_pieces: flag(payload, "with_pieces", false) })
}

/// The first token entry that is not an `i64`, or that is one outside the
/// `i32` range, decides the error; otherwise the ids in order.
pub open spec fn token_ids_spec(items: Seq<JsonValue>, n: int) -> Result<Seq<i32>, Seq<char>>
    decreases n,
{
    if n <= 0 {
        Ok(Seq::empty())
    } else {
        match token_ids_spec(items, n - 1) {
            Err(e) => Err(e),
            Ok(ids) => match value_as_i64(items[n - 1]) {
                None => Err("tokens entries must be integers"@),
                Some(t) => if i32::MIN <= t <= i32::MAX {
                    Ok(ids.push(t as i32))
                } else {
                    Err("out of range integral type conversion attempted"@)
                },
            },
        }
    }
}

/// Reads a `/detokenize` payload: `tokens` must be an array of integers
/// that fit in an `i32`.
pub fn detokenize_request(payload: &JsonValue) -> (r: Result<Vec<i32>, String>)
    ensures
        match json_get(*payload, "tokens"@) {
            Some(JsonValue::Array(items)) => match token_ids_spec(items@, items@.len() as int) {
                Ok(ids) => r matches Ok(v) && v@ == ids,
                Err(m) => r matches Err(e) && e@ == m,
            },
            _ => r matches Err(m) && m@ == "missing array field: tokens"@,
        },
{
    let items = match payload.get("tokens") {
        Some(JsonValue::Array(items)) => items,
        _ => {
            return Err(String::from_str("missing array field: tokens"));
        },
    };
    let mut ids: Vec<i32> = Vec::new();
    let mut i: usize = 0;
    while i < items.len()
        invariant
            i <= items@.len(),
            token_ids_spec(items@, i as int) == Ok::<Seq<i32>, Seq<char>>(ids@),
            json_get(*payload, "tokens"@) == Some(JsonValue::Array(*items)),
        decreases items@.len() - i,
    {
        match items[i].as_i64() {
            None => {
                proof {
                    lemma_token_ids_error_stays(items@, i as int + 1, items@.len() as int);
                }
                return Err(String::from_str("tokens entries must be integers"));
            },
            Some(t) => {
                if t < -2147483648 || t > 2147483647 {
                    proof {
                        lemma_token_ids_error_stays(items@, i as int + 1, items@.len() as int);
                    }
                    return Err(String::from_str("out of range integral type conversion attempted"));
                }
                ids.push(t as i32);
            },
        }
        i = i + 1;
    }
    Ok(ids)
}

/// Once an entry fails, every longer prefix fails the same way.
proof fn lemma_token_ids_error_stays(items: Seq<JsonValue>, i: int, n: int)
    requires
        1 <= i <= n,
        token_ids_spec(items, i) is Err,
    ensures
        token_ids_spec(items, n) == token_ids_spec(items, i),
    decreases n - i,
{
    if n > i {
        lemma_token_ids_error_stays(items, i, n - 1);
    }
}

/// The switches of `/apply-template`, with their defaults.
#[derive(Debug, Clone, Copy, PartialEq, Eq, Structural)]
pub struct TemplateFlags {
    pub add_generation_prompt: bool,
    pub use_jinja: bool,
    pub parallel_tool_calls: bool,
    pub enable_thinking: bool,
    pub add_bos: bool,
    pub add_eos: bool,
    pub parse_tool_calls: bool,
}

/// Reads the switches of an `/apply-template` payload; `messages` must be
/// present.
pub fn template_flags(payload: &JsonValue) -> (r: Result<TemplateFlags, String>)
    ensures
        json_get(*payload, "messages"@) is None ==> (r matches Err(m) && m@
            == "missing field: messages"@),
        json_get(*payload, "messages"@) is Some ==> r == Ok::<TemplateFlags, String>(
            TemplateFlags {
                add_generation_prompt: flag_spec(*payload, "add_generation_prompt"@, true),
                use_jinja: flag_spec(*payload, "use_jinja"@, true),
                parallel_tool_calls: flag_spec(*payload, "parallel_tool_calls"@, true),
                enable_thinking: flag_spec(*payload, "enable_thinking"@, false),
                add_bos: flag_spec(*payload, "add_bos"@, true),
                add_eos: flag_spec(*payload, "add_eos"@, false),
                parse_tool_calls: flag_spec(*payload, "parse_tool_calls"@, true),
            },
        ),
{
    if payload.get("messages").is_none() {
        return Err(String::from_str("missing field: messages"));
    }
    Ok(
        TemplateFlags {
            add_generation_prompt: flag(payload, "add_generation_prompt", true),
            use_jinja: flag(payload, "use_jinja", true),
            parallel_tool_calls: flag(payload, "parallel_tool_calls", true),
            enable_thinking: flag(payload, "enable_thinking", false),
            add_bos: flag(payload, "add_bos", true),
            add_eos: flag(payload, "add_eos", false),
            parse_tool_calls: flag(payload, "parse_tool_calls", true),
        },
    )
}

} // verus!
