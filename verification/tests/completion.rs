use llama_server_rs::engine::completion::{
    clamp_token, completion_id, parse_prompt, parse_stop, CompletionRequest, IncrementalUtf8, PromptInput,
    StopMatcher, StopScan, StopType,
};
use llama_server_rs::engine::completion_json::{
    legacy_chunk_json, legacy_final_json, oai_chunk_json, oai_final_json, CompletionChunk, CompletionFinal,
};
use llama_server_rs::json::{JsonNumber, JsonValue};

fn matcher(stops: &[&str]) -> StopMatcher {
    StopMatcher::new(stops.iter().map(|s| (*s).to_string()).collect())
}

fn text(s: &str) -> JsonValue {
    JsonValue::String(s.to_string())
}

fn num(v: i64) -> JsonValue {
    if v >= 0 {
        JsonValue::Number(JsonNumber::PosInt(v as u64))
    } else {
        JsonValue::Number(JsonNumber::NegInt(v))
    }
}

fn object(entries: Vec<(&str, JsonValue)>) -> JsonValue {
    JsonValue::Object(entries.into_iter().map(|(k, v)| (k.to_string(), v)).collect())
}

fn request(entries: Vec<(&str, JsonValue)>, model_id: &str) -> Result<CompletionRequest, llama_server_rs::engine::task::TaskError> {
    CompletionRequest::from_payload(&object(entries), -1, model_id)
}

#[test]
fn full_stop_match_spans_a_token_boundary() {
    let stops = matcher(&["STOP"]);
    assert_eq!(stops.scan("hello ST", 2, false), StopScan::NoMatch);
    assert_eq!(stops.scan("hello STOP", 2, false), StopScan::Full { pos: 6, word: 0 });
}

#[test]
fn full_stop_match_ignores_text_outside_the_window() {
    let stops = matcher(&["ab"]);
    assert_eq!(stops.scan("abXXXXXXXX", 1, false), StopScan::NoMatch);
    assert_eq!(stops.scan("abXXXXXXXX", 8, false), StopScan::Full { pos: 0, word: 0 });
}

#[test]
fn full_stop_match_at_the_window_edge_is_found() {
    let stops = matcher(&["end"]);
    assert_eq!(stops.scan("xxxendyy", 2, false), StopScan::Full { pos: 3, word: 0 });
    assert_eq!(stops.scan("xxxendyy", 1, false), StopScan::NoMatch);
}

#[test]
fn earliest_full_match_wins_across_multiple_stops() {
    let stops = matcher(&["world", "lo w"]);
    assert_eq!(stops.scan("hello world", 11, false), StopScan::Full { pos: 3, word: 1 });
}

#[test]
fn first_listed_stop_wins_on_a_tie() {
    let stops = matcher(&["abc", "ab"]);
    assert_eq!(stops.scan("zzabc", 5, false), StopScan::Full { pos: 2, word: 0 });
}

#[test]
fn partial_stop_is_held_back_then_diverges() {
    let stops = matcher(&["STOP"]);
    assert_eq!(stops.scan("hello ST", 2, true), StopScan::Partial { pos: 6 });
    assert_eq!(stops.scan("hello STx", 1, true), StopScan::NoMatch);
}

#[test]
fn partial_stop_prefers_the_longest_suffix() {
    let stops = matcher(&["abcd"]);
    assert_eq!(stops.scan("zzabc", 1, true), StopScan::Partial { pos: 2 });
}

#[test]
fn partial_stop_is_not_reported_when_not_allowed() {
    let stops = matcher(&["STOP"]);
    assert_eq!(stops.scan("hello ST", 2, false), StopScan::NoMatch);
}

#[test]
fn incremental_utf8_joins_a_split_three_byte_char() {
    let mut decoder = IncrementalUtf8::new();
    let bytes = "€".as_bytes();
    assert_eq!(decoder.push(&bytes[..2]), None);
    assert_eq!(decoder.push(&bytes[2..]), Some("€".to_string()));
    assert!(decoder.is_empty());
}

#[test]
fn incremental_utf8_holds_the_whole_buffer_until_valid() {
    let mut decoder = IncrementalUtf8::new();
    let bytes = "a€".as_bytes();
    assert_eq!(decoder.push(&bytes[..2]), None);
    assert_eq!(decoder.push(&bytes[2..]), Some("a€".to_string()));
}

#[test]
fn incremental_utf8_replaces_hard_invalid_bytes() {
    let mut decoder = IncrementalUtf8::new();
    assert_eq!(decoder.push(&[b'a', 0xff, b'b']), Some("a\u{fffd}b".to_string()));
    assert_eq!(decoder.push(b"ok"), Some("ok".to_string()));
}

#[test]
fn incremental_utf8_passes_ascii_through() {
    let mut decoder = IncrementalUtf8::new();
    assert_eq!(decoder.push(b"hello"), Some("hello".to_string()));
    assert_eq!(decoder.push(b""), None);
}

#[test]
fn n_predict_alias_precedence() {
    let params = request(
        vec![("prompt", text("hi")), ("n_predict", num(1)), ("max_completion_tokens", num(2)), ("max_tokens", num(3))],
        "m",
    )
    .unwrap();
    assert_eq!(params.n_predict, 1);

    let params =
        request(vec![("prompt", text("hi")), ("max_completion_tokens", num(2)), ("max_tokens", num(3))], "m").unwrap();
    assert_eq!(params.n_predict, 2);

    let params = request(vec![("prompt", text("hi")), ("max_tokens", num(3))], "m").unwrap();
    assert_eq!(params.n_predict, 3);

    let params = request(vec![("prompt", text("hi"))], "m").unwrap();
    assert_eq!(params.n_predict, -1);
}

#[test]
fn prompt_string_and_token_array_are_accepted() {
    let params = request(vec![("prompt", text("hi"))], "m").unwrap();
    assert_eq!(params.prompt, PromptInput::Text("hi".to_string()));

    let params = request(vec![("prompt", JsonValue::Array(vec![num(1), num(2), num(3)]))], "m").unwrap();
    assert_eq!(params.prompt, PromptInput::Tokens(vec![1, 2, 3]));
}

#[test]
fn multiple_prompts_are_not_supported() {
    let prompts = vec![
        JsonValue::Array(vec![text("a"), text("b")]),
        JsonValue::Array(vec![JsonValue::Array(vec![num(1), num(2)]), JsonValue::Array(vec![num(3)])]),
        JsonValue::Array(vec![num(1), text("a")]),
    ];
    for prompt in prompts {
        let err = request(vec![("prompt", prompt)], "m").unwrap_err();
        assert_eq!(err.code, 501);
        assert_eq!(err.message, "multiple prompts not supported yet");
    }
}

#[test]
fn missing_or_invalid_prompt_is_rejected() {
    let err = request(vec![], "m").unwrap_err();
    assert_eq!(err.code, 400);

    let err = request(vec![("prompt", num(7))], "m").unwrap_err();
    assert_eq!(err.code, 400);

    let err = request(vec![("prompt", JsonValue::Array(vec![]))], "m").unwrap_err();
    assert_eq!(err.code, 400);
}

#[test]
fn stop_filtering_drops_empty_strings() {
    let params = request(
        vec![("prompt", text("hi")), ("stop", JsonValue::Array(vec![text(""), text("a"), text(""), text("bb")]))],
        "m",
    )
    .unwrap();
    assert_eq!(params.stop, vec!["a".to_string(), "bb".to_string()]);

    let err = request(vec![("prompt", text("hi")), ("stop", JsonValue::Array(vec![text("a"), num(1)]))], "m")
        .unwrap_err();
    assert_eq!(err.code, 400);
}

#[test]
fn model_name_falls_back_to_the_server_model_id() {
    let params = request(vec![("prompt", text("hi"))], "server-id").unwrap();
    assert_eq!(params.model_name, "server-id");

    let params = request(vec![("prompt", text("hi")), ("model", text("custom"))], "server-id").unwrap();
    assert_eq!(params.model_name, "custom");
    assert!(params.cmpl_id.starts_with("chatcmpl-"));
}

#[test]
fn completion_ids_are_prefixed_and_random() {
    assert_eq!(completion_id("abc"), "chatcmpl-abc");
    let a = request(vec![("prompt", text("hi"))], "m").unwrap().cmpl_id;
    let b = request(vec![("prompt", text("hi"))], "m").unwrap().cmpl_id;
    assert_eq!(a.len(), "chatcmpl-".len() + 32);
    assert_ne!(a, b);
}

#[test]
fn completion_ids_carry_a_version_4_uuid() {
    for _ in 0..16 {
        let id = request(vec![("prompt", text("hi"))], "m").unwrap().cmpl_id;
        let digits: Vec<char> = id["chatcmpl-".len()..].chars().collect();
        assert_eq!(digits.len(), 32);
        assert!(digits.iter().all(|c| c.is_ascii_digit() || ('a'..='f').contains(c)));
        assert_eq!(digits[12], '4');
        assert!(matches!(digits[16], '8' | '9' | 'a' | 'b'));
    }
}

#[test]
fn request_flags_and_defaults_are_read() {
    let params = request(vec![("prompt", text("hi"))], "m").unwrap();
    assert!(!params.stream);
    assert!(!params.return_tokens);
    assert!(!params.timings_per_token);
    assert!(params.cache_prompt);
    assert_eq!(params.t_max_predict_ms, -1);
    assert!(params.stop.is_empty());

    let params = request(
        vec![
            ("prompt", text("hi")),
            ("stream", JsonValue::Bool(true)),
            ("return_tokens", JsonValue::Bool(true)),
            ("cache_prompt", JsonValue::Bool(false)),
            ("t_max_predict_ms", num(250)),
            ("stop", text("END")),
        ],
        "m",
    )
    .unwrap();
    assert!(params.stream);
    assert!(params.return_tokens);
    assert!(!params.cache_prompt);
    assert_eq!(params.t_max_predict_ms, 250);
    assert!(params.stop.is_empty());
}

#[test]
fn prompt_token_ids_are_clamped_to_i32() {
    assert_eq!(clamp_token(5_000_000_000), i32::MAX);
    assert_eq!(clamp_token(-5_000_000_000), i32::MIN);
    assert_eq!(clamp_token(-7), -7);
    let prompt = parse_prompt(&object(vec![("prompt", JsonValue::Array(vec![num(5_000_000_000), num(2)]))])).unwrap();
    assert_eq!(prompt, PromptInput::Tokens(vec![i32::MAX, 2]));
}

#[test]
fn stop_is_read_only_from_an_array() {
    assert_eq!(parse_stop(&object(vec![])).unwrap(), Vec::<String>::new());
    assert_eq!(parse_stop(&object(vec![("stop", text("END"))])).unwrap(), Vec::<String>::new());
    assert_eq!(parse_stop(&object(vec![("stop", num(3))])).unwrap(), Vec::<String>::new());
    let items = JsonValue::Array(vec![
        JsonValue::Null,
        JsonValue::Array(vec![]),
        JsonValue::Object(vec![]),
        text("x"),
    ]);
    assert_eq!(parse_stop(&object(vec![("stop", items)])).unwrap(), vec!["x".to_string()]);
    let err = parse_stop(&object(vec![("stop", JsonValue::Array(vec![JsonValue::Bool(true)]))])).unwrap_err();
    assert_eq!(err.code, 400);
    assert_eq!(err.message, "\"stop\" must be an array of strings");
}

#[test]
fn stop_type_names_match_llama_cpp() {
    assert_eq!(StopType::NotStopped.as_str(), "none");
    assert_eq!(StopType::Eos.as_str(), "eos");
    assert_eq!(StopType::Limit.as_str(), "limit");
    assert_eq!(StopType::Word.as_str(), "word");
}

#[test]
fn stop_matcher_keeps_its_stop_words() {
    let stops = matcher(&["a", "bc"]);
    assert_eq!(stops.stops(), &["a".to_string(), "bc".to_string()][..]);
    assert_eq!(matcher(&[]).scan("anything", 3, true), StopScan::NoMatch);
}

#[test]
fn incremental_utf8_holds_an_incomplete_tail_after_invalid_bytes() {
    let mut decoder = IncrementalUtf8::new();
    let euro = "€".as_bytes();
    assert_eq!(decoder.push(&[0xff, euro[0]]), None);
    assert!(!decoder.is_empty());
    assert_eq!(decoder.push(&euro[1..]), Some("\u{fffd}€".to_string()));
    assert!(decoder.is_empty());
}

#[test]
fn incremental_utf8_passes_valid_text_through() {
    let mut decoder = IncrementalUtf8::new();
    let text = "héllo € 𝄞";
    assert_eq!(decoder.push(text.as_bytes()), Some(text.to_string()));
    assert!(decoder.is_empty());
}

fn sample_request() -> CompletionRequest {
    request(vec![("prompt", text("hi")), ("return_tokens", JsonValue::Bool(true))], "m").unwrap()
}

fn sample_final() -> CompletionFinal {
    CompletionFinal {
        content: "out".to_string(),
        tokens: vec![1, 2],
        n_decoded: 2,
        n_prompt: 3,
        stop_type: StopType::Eos,
        stopping_word: String::new(),
        truncated: false,
        has_new_line: false,
        tokens_cached: 1,
        prompt_text: "hi".to_string(),
    }
}

fn field<'a>(v: &'a JsonValue, key: &str) -> &'a JsonValue {
    v.get(key).unwrap_or_else(|| panic!("missing {key}"))
}

fn first_choice(v: &JsonValue) -> &JsonValue {
    match field(v, "choices") {
        JsonValue::Array(items) => &items[0],
        other => panic!("choices: {other:?}"),
    }
}

fn shown(v: &JsonValue) -> String {
    format!("{v:?}")
}

#[test]
fn legacy_json_shapes_match_the_reference_server() {
    let chunk = CompletionChunk { content: "a".to_string(), token: 7, n_decoded: 1, n_prompt: 3 };
    let value = legacy_chunk_json(&chunk);
    assert_eq!(shown(field(&value, "tokens")), shown(&JsonValue::Array(vec![num(7)])));
    assert_eq!(shown(field(&value, "stop")), shown(&JsonValue::Bool(false)));
    assert_eq!(shown(field(&value, "tokens_predicted")), shown(&num(1)));
    assert!(value.get("timings").is_none());

    let params = sample_request();
    let value = legacy_final_json(&sample_final(), &params.model_name, params.return_tokens, false);
    assert_eq!(field(&value, "content").as_str(), Some("out"));
    assert_eq!(shown(field(&value, "tokens")), shown(&JsonValue::Array(vec![num(1), num(2)])));
    assert_eq!(field(&value, "stop_type").as_str(), Some("eos"));
    assert_eq!(shown(field(&value, "stop")), shown(&JsonValue::Bool(true)));

    let value = legacy_final_json(&sample_final(), &params.model_name, params.return_tokens, true);
    assert_eq!(field(&value, "content").as_str(), Some(""));
    assert_eq!(shown(field(&value, "tokens")), shown(&JsonValue::Array(vec![])));
}

#[test]
fn oai_json_shapes_match_the_reference_server() {
    let params = sample_request();
    let chunk = CompletionChunk { content: "a".to_string(), token: 7, n_decoded: 1, n_prompt: 3 };
    let value = oai_chunk_json(&chunk, &params.cmpl_id, 42, &params.model_name);
    assert_eq!(field(&value, "object").as_str(), Some("text_completion"));
    assert_eq!(shown(field(&value, "created")), shown(&num(42)));
    assert_eq!(field(first_choice(&value), "text").as_str(), Some("a"));
    assert_eq!(shown(field(first_choice(&value), "finish_reason")), shown(&JsonValue::Null));

    let value = oai_final_json(&sample_final(), &params.cmpl_id, 42, &params.model_name, params.stream);
    assert_eq!(field(first_choice(&value), "finish_reason").as_str(), Some("stop"));
    assert_eq!(shown(field(field(&value, "usage"), "total_tokens")), shown(&num(5)));
    assert_eq!(
        shown(field(field(field(&value, "usage"), "prompt_tokens_details"), "cached_tokens")),
        shown(&num(0))
    );

    let mut limited = sample_final();
    limited.stop_type = StopType::Limit;
    let value = oai_final_json(&limited, &params.cmpl_id, 42, &params.model_name, params.stream);
    assert_eq!(field(first_choice(&value), "finish_reason").as_str(), Some("length"));
}

#[test]
fn oai_stream_final_carries_finish_reason_and_usage_without_content() {
    let params = request(vec![("prompt", text("hi")), ("stream", JsonValue::Bool(true))], "m").unwrap();
    let value = oai_final_json(&sample_final(), &params.cmpl_id, 42, &params.model_name, params.stream);
    assert_eq!(field(first_choice(&value), "text").as_str(), Some(""));
    assert_eq!(field(first_choice(&value), "finish_reason").as_str(), Some("stop"));
    assert_eq!(shown(field(field(&value, "usage"), "completion_tokens")), shown(&num(2)));
}
