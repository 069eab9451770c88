//! The response objects of a completion, in the native and the OpenAI
//! dialect. The `timings` object, which holds floats, is added by the caller.
use vstd::prelude::*;
use crate::engine::completion::{stop_type_name, StopType};
use crate::engine::task::string_entry;
use crate::json::{json_get, lemma_entries_get_at, JsonNumber, JsonValue};

verus! {

/// What the server reports as its fingerprint.
pub const SYSTEM_FINGERPRINT: &'static str = "llama-server-rs-0.1.0";

/// A streamed piece of a completion.
#[derive(Debug, Clone)]
pub struct CompletionChunk {
    pub content: String,
    pub token: i32,
    pub n_decoded: i32,
    pub n_prompt: i32,
}

/// The result of a finished completion.
#[derive(Debug, Clone)]
pub struct CompletionFinal {
    pub content: String,
    pub tokens: Vec<i32>,
    pub n_decoded: i32,
    pub n_prompt: i32,
    pub stop_type: StopType,
    pub stopping_word: String,
    pub truncated: bool,
    pub has_new_line: bool,
    pub tokens_cached: i32,
    pub prompt_text: String,
}

/// An integer as JSON.
pub open spec fn int_json(v: int) -> JsonValue {
    if v >= 0 {
        JsonValue::Number(JsonNumber::PosInt(v as u64))
    } else {
        JsonValue::Number(JsonNumber::NegInt(v as i64))
    }
}

/// The object entry `key: v`.
pub open spec fn entry_is(e: (String, JsonValue), key: Seq<char>, v: JsonValue) -> bool {
    e.0@ == key && e.1 == v
}

/// A JSON array of the integers `ids`.
pub open spec fn is_int_array(v: JsonValue, ids: Seq<i32>) -> bool {
    &&& v matches JsonValue::Array(items)
    &&& items@.len() == ids.len()
    &&& forall|i: int| 0 <= i < ids.len() ==> #[trigger] items@[i] == int_json(ids[i] as int)
}

/// The `finish_reason` of an OpenAI completion.
pub open spec fn finish_reason_spec(stop_type: StopType) -> Seq<char> {
    match stop_type {
        StopType::Word | StopType::Eos => "stop"@,
        StopType::NotStopped | StopType::Limit => "length"@,
    }
}

fn int_value(v: i64) -> (r: JsonValue)
    ensures
        r == int_json(v as int),
{
    if v >= 0 {
        JsonValue::Number(JsonNumber::PosInt(v as u64))
    } else {
        JsonValue::Number(JsonNumber::NegInt(v))
    }
}

fn str_value(s: &str) -> (r: JsonValue)
    ensures
        r matches JsonValue::String(t) && t@ == s@,
{
    JsonValue::String(String::from_str(s))
}

fn int_array(ids: &Vec<i32>) -> (r: JsonValue)
    ensures
        is_int_array(r, ids@),
{
    let mut items: Vec<JsonValue> = Vec::new();
    let mut i: usize = 0;
    while i < ids.len()
        invariant
            i <= ids@.len(),
            items@.len() == i,
            forall|j: int| 0 <= j < i ==> #[trigger] items@[j] == int_json(ids@[j] as int),
        decreases ids@.len() - i,
    {
        items.push(int_value(ids[i] as i64));
        i = i + 1;
    }
    JsonValue::Array(items)
}

/// The `finish_reason` of an OpenAI completion: a stop word or the end of
/// generation stop it, anything else means it ran out of length.
pub fn finish_reason(stop_type: StopType) -> (r: &'static str)
    ensures
        r@ == finish_reason_spec(stop_type),
{
    match stop_type {
        StopType::Word | StopType::Eos => "stop",
        StopType::NotStopped | StopType::Limit => "length",
    }
}

/// A native stream chunk.
pub open spec fn is_legacy_chunk_json(v: JsonValue, chunk: CompletionChunk) -> bool {
    &&& v matches JsonValue::Object(e)
    &&& e@.len() == 7
    &&& entry_is(e@[0], "index"@, int_json(0))
    &&& string_entry(e@[1], "content"@, chunk.content@)
    &&& e@[2].0@ == "tokens"@ && is_int_array(e@[2].1, seq![chunk.token])
    &&& entry_is(e@[3], "stop"@, JsonValue::Bool(false))
    &&& entry_is(e@[4], "id_slot"@, int_json(0))
    &&& entry_is(e@[5], "tokens_predicted"@, int_json(chunk.n_decoded as int))
    &&& entry_is(e@[6], "tokens_evaluated"@, int_json(chunk.n_prompt as int))
}

/// The native stream chunk of `chunk`.
pub fn legacy_chunk_json(chunk: &CompletionChunk) -> (v: JsonValue)
    ensures
        is_legacy_chunk_json(v, *chunk),
{
    let mut tokens: Vec<i32> = Vec::new();
    tokens.push(chunk.token);
    assert(tokens@ =~= seq![chunk.token]);
    let mut e: Vec<(String, JsonValue)> = Vec::new();
    e.push((String::from_str("index"), int_value(0)));
    e.push((String::from_str("content"), JsonValue::String(chunk.content.clone())));
    e.push((String::from_str("tokens"), int_array(&tokens)));
    e.push((String::from_str("stop"), JsonValue::Bool(false)));
    e.push((String::from_str("id_slot"), int_value(0)));
    e.push((String::from_str("tokens_predicted"), int_value(chunk.n_decoded as i64)));
    e.push((String::from_str("tokens_evaluated"), int_value(chunk.n_prompt as i64)));
    JsonValue::Object(e)
}

/// The native final object, without `timings` and `generation_settings`:
/// a streamed completion repeats neither its content nor its tokens, and
/// tokens are only returned when asked for.
pub open spec fn is_legacy_final_json(
    v: JsonValue,
    f: CompletionFinal,
    model_name: Seq<char>,
    return_tokens: bool,
    stream: bool,
) -> bool {
    &&& v matches JsonValue::Object(e)
    &&& e@.len() == 14
    &&& entry_is(e@[0], "index"@, int_json(0))
    &&& string_entry(e@[1], "content"@, if stream { Seq::empty() } else { f.content@ })
    &&& e@[2].0@ == "tokens"@ && is_int_array(
        e@[2].1,
        if stream || !return_tokens {
            Seq::empty()
        } else {
            f.tokens@
        },
    )
    &&& entry_is(e@[3], "id_slot"@, int_json(0))
    &&& entry_is(e@[4], "stop"@, JsonValue::Bool(true))
    &&& string_entry(e@[5], "model"@, model_name)
    &&& entry_is(e@[6], "tokens_predicted"@, int_json(f.n_decoded as int))
    &&& entry_is(e@[7], "tokens_evaluated"@, int_json(f.n_prompt as int))
    &&& string_entry(e@[8], "prompt"@, f.prompt_text@)
    &&& entry_is(e@[9], "has_new_line"@, JsonValue::Bool(f.has_new_line))
    &&& entry_is(e@[10], "truncated"@, JsonValue::Bool(f.truncated))
    &&& string_entry(e@[11], "stop_type"@, stop_type_name(f.stop_type))
    &&& string_entry(e@[12], "stopping_word"@, f.stopping_word@)
    &&& entry_is(e@[13], "tokens_cached"@, int_json(f.tokens_cached as int))
}

/// The native final object of a completion.
pub fn legacy_final_json(f: &CompletionFinal, model_name: &str, return_tokens: bool, stream: bool) -> (v:
    JsonValue)
    ensures
        is_legacy_final_json(v, *f, model_name@, return_tokens, stream),
{
    let content = if stream {
        String::new()
    } else {
        f.content.clone()
    };
    let empty: Vec<i32> = Vec::new();
    let tokens = if stream || !return_tokens {
        int_array(&empty)
    } else {
        int_array(&f.tokens)
    };
    assert(empty@ =~= Seq::<i32>::empty());
    let mut e: Vec<(String, JsonValue)> = Vec::new();
    e.push((String::from_str("index"), int_value(0)));
    e.push((String::from_str("content"), JsonValue::String(content)));
    e.push((String::from_str("tokens"), tokens));
    e.push((String::from_str("id_slot"), int_value(0)));
    e.push((String::from_str("stop"), JsonValue::Bool(true)));
    e.push((String::from_str("model"), str_value(model_name)));
    e.push((String::from_str("tokens_predicted"), int_value(f.n_decoded as i64)));
    e.push((String::from_str("tokens_evaluated"), int_value(f.n_prompt as i64)));
    e.push((String::from_str("prompt"), JsonValue::String(f.prompt_text.clone())));
    e.push((String::from_str("has_new_line"), JsonValue::Bool(f.has_new_line)));
    e.push((String::from_str("truncated"), JsonValue::Bool(f.truncated)));
    e.push((String::from_str("stop_type"), str_value(f.stop_type.as_str())));
    e.push((String::from_str("stopping_word"), JsonValue::String(f.stopping_word.clone())));
    e.push((String::from_str("tokens_cached"), int_value(f.tokens_cached as i64)));
    JsonValue::Object(e)
}

/// The native final object reports the final result as it is: looking its
/// keys up gives the stop type's name, the stopping word, the number of
/// generated and prompt tokens and (when not streaming) the content.
pub proof fn law_legacy_final_reports_the_result(
    v: JsonValue,
    f: CompletionFinal,
    model_name: Seq<char>,
    return_tokens: bool,
    stream: bool,
)
    requires
        is_legacy_final_json(v, f, model_name, return_tokens, stream),
    ensures
        json_get(v, "stopping_word"@) matches Some(JsonValue::String(w)) && w@ == f.stopping_word@,
        json_get(v, "stop_type"@) matches Some(JsonValue::String(t)) && t@ == stop_type_name(f.stop_type),
        json_get(v, "tokens_predicted"@) == Some(int_json(f.n_decoded as int)),
        json_get(v, "tokens_evaluated"@) == Some(int_json(f.n_prompt as int)),
        !stream ==> (json_get(v, "content"@) matches Some(JsonValue::String(c)) && c@ == f.content@),
{
    reveal_strlit("index");
    reveal_strlit("content");
    reveal_strlit("tokens");
    reveal_strlit("id_slot");
    reveal_strlit("stop");
    reveal_strlit("model");
    reveal_strlit("tokens_predicted");
    reveal_strlit("tokens_evaluated");
    reveal_strlit("prompt");
    reveal_strlit("has_new_line");
    reveal_strlit("truncated");
    reveal_strlit("stop_type");
    reveal_strlit("stopping_word");
    let e = match v {
        JsonValue::Object(e) => e@,
        _ => Seq::empty(),
    };
    assert forall|j: int| 0 <= j < 12 implies (#[trigger] e[j]).0@ != "stopping_word"@ by {
        assert(e[j].0@.len() != "stopping_word"@.len());
    }
    lemma_entries_get_at(e, "stopping_word"@, 12);
    assert forall|j: int| 0 <= j < 11 implies (#[trigger] e[j]).0@ != "stop_type"@ by {
        if j == 11 - 1 {
            assert(e[j].0@[0] != "stop_type"@[0]);
        } else if j == 4 {
            assert(e[j].0@.len() != "stop_type"@.len());
        } else {
            assert(e[j].0@.len() != "stop_type"@.len() || e[j].0@[0] != "stop_type"@[0]);
        }
    }
    lemma_entries_get_at(e, "stop_type"@, 11);
    assert forall|j: int| 0 <= j < 6 implies (#[trigger] e[j]).0@ != "tokens_predicted"@ by {
        assert(e[j].0@.len() != "tokens_predicted"@.len());
    }
    lemma_entries_get_at(e, "tokens_predicted"@, 6);
    assert forall|j: int| 0 <= j < 7 implies (#[trigger] e[j]).0@ != "tokens_evaluated"@ by {
        if j == 6 {
            assert(e[j].0@[7] != "tokens_evaluated"@[7]);
        } else {
            assert(e[j].0@.len() != "tokens_evaluated"@.len());
        }
    }
    lemma_entries_get_at(e, "tokens_evaluated"@, 7);
    assert(e[0].0@ != "content"@) by {
        assert(e[0].0@.len() != "content"@.len());
    }
    lemma_entries_get_at(e, "content"@, 1);
}

/// The OpenAI fields every object of a completion starts with.
pub open spec fn is_oai_head(e: Seq<(String, JsonValue)>, id: Seq<char>, created: u64, model_name: Seq<
    char,
>) -> bool {
    &&& string_entry(e[0], "id"@, id)
    &&& string_entry(e[1], "object"@, "text_completion"@)
    &&& entry_is(e[2], "created"@, JsonValue::Number(JsonNumber::PosInt(created)))
    &&& string_entry(e[3], "model"@, model_name)
    &&& string_entry(e[4], "system_fingerprint"@, SYSTEM_FINGERPRINT@)
}

/// `[{"text": .., "index": 0, "logprobs": null, "finish_reason": ..}]`,
/// the reason being `null` when absent.
pub open spec fn is_oai_choices(v: JsonValue, text: Seq<char>, reason: Option<Seq<char>>) -> bool {
    &&& v matches JsonValue::Array(items)
    &&& items@.len() == 1
    &&& items@[0] matches JsonValue::Object(c)
    &&& c@.len() == 4
    &&& string_entry(c@[0], "text"@, text)
    &&& entry_is(c@[1], "index"@, int_json(0))
    &&& entry_is(c@[2], "logprobs"@, JsonValue::Null)
    &&& c@[3].0@ == "finish_reason"@
    &&& match reason {
        Some(r) => c@[3].1 matches JsonValue::String(s) && s@ == r,
        None => c@[3].1 == JsonValue::Null,
    }
}

fn oai_head(id: &str, created: u64, model_name: &str) -> (e: Vec<(String, JsonValue)>)
    ensures
        e@.len() == 5,
        is_oai_head(e@, id@, created, model_name@),
{
    let mut e: Vec<(String, JsonValue)> = Vec::new();
    e.push((String::from_str("id"), str_value(id)));
    e.push((String::from_str("object"), str_value("text_completion")));
    e.push((String::from_str("created"), JsonValue::Number(JsonNumber::PosInt(created))));
    e.push((String::from_str("model"), str_value(model_name)));
    e.push((String::from_str("system_fingerprint"), str_value(SYSTEM_FINGERPRINT)));
    e
}

fn oai_choices(text: String, reason: Option<&str>) -> (v: JsonValue)
    ensures
        is_oai_choices(
            v,
            text@,
            match reason {
                Some(r) => Some(r@),
                None => None,
            },
        ),
{
    let mut c: Vec<(String, JsonValue)> = Vec::new();
    c.push((String::from_str("text"), JsonValue::String(text)));
    c.push((String::from_str("index"), int_value(0)));
    c.push((String::from_str("logprobs"), JsonValue::Null));
    let r = match reason {
        Some(r) => str_value(r),
        None => JsonValue::Null,
    };
    c.push((String::from_str("finish_reason"), r));
    let mut items: Vec<JsonValue> = Vec::new();
    items.push(JsonValue::Object(c));
    JsonValue::Array(items)
}

/// An OpenAI stream chunk: the delta text and no finish reason.
pub open spec fn is_oai_chunk_json(
    v: JsonValue,
    chunk: CompletionChunk,
    id: Seq<char>,
    created: u64,
    model_name: Seq<char>,
) -> bool {
    &&& v matches JsonValue::Object(e)
    &&& e@.len() == 6
    &&& is_oai_head(e@, id, created, model_name)
    &&& e@[5].0@ == "choices"@ && is_oai_choices(e@[5].1, chunk.content@, None)
}

/// The OpenAI stream chunk of `chunk`.
pub fn oai_chunk_json(chunk: &CompletionChunk, id: &str, created: u64, model_name: &str) -> (v:
    JsonValue)
    ensures
        is_oai_chunk_json(v, *chunk, id@, created, model_name@),
{
    let mut e = oai_head(id, created, model_name);
    e.push((String::from_str("choices"), oai_choices(chunk.content.clone(), None)));
    JsonValue::Object(e)
}

/// The OpenAI final object, without `timings`: the whole text unless it
/// was streamed, the finish reason and the token usage.
pub open spec fn is_oai_final_json(
    v: JsonValue,
    f: CompletionFinal,
    id: Seq<char>,
    created: u64,
    model_name: Seq<char>,
    stream: bool,
) -> bool {
    &&& v matches JsonValue::Object(e)
    &&& e@.len() == 7
    &&& is_oai_head(e@, id, created, model_name)
    &&& e@[5].0@ == "choices"@ && is_oai_choices(
        e@[5].1,
        if stream {
            Seq::empty()
        } else {
            f.content@
        },
        Some(finish_reason_spec(f.stop_type)),
    )
    &&& e@[6].0@ == "usage"@
    &&& e@[6].1 matches JsonValue::Object(u)
    &&& u@.len() == 4
    &&& entry_is(u@[0], "completion_tokens"@, int_json(f.n_decoded as int))
    &&& entry_is(u@[1], "prompt_tokens"@, int_json(f.n_prompt as int))
    &&& entry_is(u@[2], "total_tokens"@, int_json(f.n_decoded + f.n_prompt))
    &&& u@[3].0@ == "prompt_tokens_details"@
    &&& u@[3].1 matches JsonValue::Object(d)
    &&& d@.len() == 1
    &&& entry_is(d@[0], "cached_tokens"@, int_json(0))
}

/// The OpenAI final object of a completion.
pub fn oai_final_json(f: &CompletionFinal, id: &str, created: u64, model_name: &str, stream: bool) -> (v:
    JsonValue)
    requires
        i32::MIN <= f.n_decoded + f.n_prompt <= i32::MAX,
    ensures
        is_oai_final_json(v, *f, id@, created, model_name@, stream),
{
    let content = if stream {
        String::new()
    } else {
        f.content.clone()
    };
    let mut e = oai_head(id, created, model_name);
    e.push((String::from_str("choices"), oai_choices(content, Some(finish_reason(f.stop_type)))));
    let mut d: Vec<(String, JsonValue)> = Vec::new();
    d.push((String::from_str("cached_tokens"), int_value(0)));
    let mut u: Vec<(String, JsonValue)> = Vec::new();
    u.push((String::from_str("completion_tokens"), int_value(f.n_decoded as i64)));
    u.push((String::from_str("prompt_tokens"), int_value(f.n_prompt as i64)));
    let total: i32 = f.n_decoded + f.n_prompt;
    u.push((String::from_str("total_tokens"), int_value(total as i64)));
    u.push((String::from_str("prompt_tokens_details"), JsonValue::Object(d)));
    e.push((String::from_str("usage"), JsonValue::Object(u)));
    JsonValue::Object(e)
}

} // verus!
