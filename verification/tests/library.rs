use llama_server_rs::bench::{
    build_simple_reranker_prompts, embedding_input, trim_whitespace, nonempty_sentences, split_id_text, split_record,
    optional_owned_value, optional_str_value, parse_optional_u32,
    hf_model_ref, parse_u32, sequence_batches, with_bos_eos, IntErrorKind, QuerySummaries, SplitData,
    SummaryData,
};
use llama_server_rs::config::{model_id, model_id_from_file_name, slot_count, ModelArg};
use llama_server_rs::engine::completion::{IncrementalUtf8, StopMatcher, StopType};
use llama_server_rs::engine::completion_json::{
    finish_reason, legacy_chunk_json, legacy_final_json, oai_chunk_json, oai_final_json,
    CompletionChunk, CompletionFinal, SYSTEM_FINGERPRINT,
};
use llama_server_rs::engine::engine_loop::{
    cancelled_error, execution_error, on_task_received, record_outcome, task_route, TaskAction, TaskOutcome,
    TaskRoute,
};
use llama_server_rs::engine::generation::CompletionRun;
use llama_server_rs::engine::chat::{extract_multimodal_payload, normalize_messages};
use llama_server_rs::engine::slot::active_slots;
use llama_server_rs::engine::metrics::EngineMetrics;
use llama_server_rs::engine::prompt_cache::{PromptCache, PromptCacheEntry};
use llama_server_rs::engine::runtime::{
    check_prompt_size, emit_result, flush_held_text, take_prefix, validate_prompt_ids, EmitOutcome,
    GenerationState, TokenStep,
};
use llama_server_rs::engine::requests::{detokenize_request, template_flags, tokenize_request};
use llama_server_rs::engine::runtime::prompt_chunks;
use llama_server_rs::http::handlers::{metrics_text, models_json};
use llama_server_rs::engine::slot::{ServerSlot, SlotPhase, SlotTable};
use llama_server_rs::engine::task::{TaskError, TaskKind};
use llama_server_rs::http::auth::{check_api_key, is_public_endpoint, presented_key};
use llama_server_rs::http::error::AppError;
use llama_server_rs::http::handlers::{health_response, not_ready_error, wants_stream};
use llama_server_rs::http::sse::{done_frame, error_event_json, sse_frame, stream_frames, StreamEvent, StreamFraming};
use llama_server_rs::json::{str_starts_with, JsonNumber, JsonValue};

fn key_of<'a>(v: &'a JsonValue, key: &str) -> &'a JsonValue {
    v.get(key).unwrap_or_else(|| panic!("missing {key}"))
}

fn str_of(v: &JsonValue) -> &str {
    v.as_str().expect("a string")
}

fn same(a: &JsonValue, b: &JsonValue) -> bool {
    format!("{a:?}") == format!("{b:?}")
}

fn pos(v: u64) -> JsonValue {
    JsonValue::Number(JsonNumber::PosInt(v))
}

#[test]
fn raw_pointer_test() {
    let arr = [1, 2, 3, 4, 5];
    let len = arr.len();
    let i = 1;
    let j = 4;
    assert!(i < j && j <= len);
    let slice = &arr[i..j];
    println!("{:?}", slice);
}

#[test]
fn prompt_cache_returns_what_was_put() {
    let mut cache = PromptCache::new(2);
    cache.put(1, vec![1, 1]);
    assert_eq!(cache.get(1), Some(vec![1, 1]));
    assert_eq!(cache.get(2), None);
}

#[test]
fn prompt_cache_evicts_the_least_recently_used() {
    let mut cache = PromptCache::new(2);
    cache.put(1, vec![1]);
    cache.put(2, vec![2]);
    assert_eq!(cache.get(1), Some(vec![1]));
    cache.put(3, vec![3]);
    assert_eq!(cache.get(2), None);
    assert_eq!(cache.get(1), Some(vec![1]));
    assert_eq!(cache.get(3), Some(vec![3]));
}

#[test]
fn prompt_cache_of_zero_entries_holds_one() {
    let mut cache = PromptCache::new(0);
    cache.put(1, vec![1]);
    assert_eq!(cache.get(1), Some(vec![1]));
    cache.put(2, vec![2]);
    assert_eq!(cache.get(1), None);
    assert_eq!(cache.get(2), Some(vec![2]));
}

#[test]
fn prompt_cache_overwrites_a_key() {
    let mut cache = PromptCache::new(2);
    cache.put(1, vec![1]);
    cache.put(1, vec![9]);
    cache.put(2, vec![2]);
    assert_eq!(cache.get(1), Some(vec![9]));
    assert_eq!(cache.get(2), Some(vec![2]));
    let entry = PromptCacheEntry { key: 1, blob: vec![9] };
    assert_eq!(entry.clone().blob, vec![9]);
}

#[test]
fn metrics_count_each_event() {
    let mut m = EngineMetrics::default();
    m.inc_enqueued();
    m.inc_enqueued();
    m.inc_completed();
    m.inc_cancelled();
    m.add_prompt_tokens(5);
    m.add_predicted_tokens(7);
    m.add_predicted_tokens(1);
    assert_eq!(m.snapshot(), (2, 1, 1));
    assert_eq!(m.token_snapshot(), (5, 8));
}

#[test]
fn metrics_wrap_on_overflow() {
    let mut m = EngineMetrics::default();
    m.add_prompt_tokens(u64::MAX);
    m.add_prompt_tokens(2);
    assert_eq!(m.token_snapshot(), (1, 0));
}

#[test]
fn task_errors_carry_code_and_type() {
    let e = TaskError::invalid_request("bad".to_string());
    assert_eq!((e.code, e.error_type, e.message.as_str()), (400, "invalid_request_error", "bad"));
    let e = TaskError::unavailable("x".to_string());
    assert_eq!((e.code, e.error_type), (503, "unavailable_error"));
    let e = TaskError::server("x".to_string());
    assert_eq!((e.code, e.error_type), (500, "server_error"));
    let e = TaskError::not_supported("x".to_string());
    assert_eq!((e.code, e.error_type), (501, "not_supported_error"));
    let json = e.to_json();
    assert!(same(key_of(&json, "code"), &pos(501)));
    assert_eq!(str_of(key_of(&json, "message")), "x");
    assert_eq!(str_of(key_of(&json, "type")), "not_supported_error");
    assert_ne!(TaskKind::Completion, TaskKind::CompletionsOai);
}

#[test]
fn task_errors_map_to_http_errors_by_code() {
    let cases = [(400u16, 400u16), (501, 501), (503, 503), (504, 504), (500, 500), (404, 500)];
    for (code, status) in cases {
        let err = TaskError { code, error_type: "x", message: "m".to_string() };
        let app = AppError::from(err);
        assert_eq!(app.status(), status);
        assert_eq!(app.message(), "m");
    }
}

#[test]
fn app_errors_report_status_type_and_message() {
    let e = AppError::Unauthorized;
    assert_eq!((e.status(), e.error_type(), e.message().as_str()), (401, "authentication_error", "Invalid API Key"));
    let e = AppError::Timeout("slow".to_string());
    assert_eq!((e.status(), e.error_type()), (504, "timeout_error"));
    let body = AppError::InvalidRequest("bad".to_string()).body();
    let inner = key_of(&body, "error");
    assert_eq!(str_of(key_of(inner, "message")), "bad");
    assert_eq!(str_of(key_of(inner, "type")), "invalid_request_error");
    assert!(same(key_of(inner, "code"), &pos(400)));
}

#[test]
fn execution_errors_blame_missing_fields_on_the_client() {
    let e = execution_error("missing field: content".to_string());
    assert_eq!(e.code, 400);
    assert_eq!(e.message, "missing field: content");
    assert_eq!(execution_error("missing string field: x".to_string()).code, 400);
    assert_eq!(execution_error("missing array field: x".to_string()).code, 400);
    assert_eq!(execution_error("decode failed".to_string()).code, 500);
    assert_eq!(execution_error("a missing field: x".to_string()).code, 500);
}

#[test]
fn api_keys_guard_private_endpoints_only() {
    let keys = vec!["secret".to_string()];
    assert!(check_api_key(&Vec::new(), "/completion", None, None).is_ok());
    assert!(check_api_key(&keys, "/health", None, None).is_ok());
    assert!(check_api_key(&keys, "/v1/models", None, None).is_ok());
    assert!(matches!(check_api_key(&keys, "/completion", None, None), Err(AppError::Unauthorized)));
    assert!(check_api_key(&keys, "/completion", Some("Bearer secret"), None).is_ok());
    assert!(check_api_key(&keys, "/completion", Some("secret"), None).is_ok());
    assert!(check_api_key(&keys, "/completion", None, Some("secret")).is_ok());
    assert!(check_api_key(&keys, "/completion", Some("Bearer wrong"), Some("secret")).is_err());
    assert!(is_public_endpoint("/models"));
    assert!(!is_public_endpoint("/health/"));
    assert_eq!(presented_key(Some("Bearer k"), None), Some("k".to_string()));
    assert_eq!(presented_key(None, None), None);
}

#[test]
fn legacy_stream_frames_have_no_done_terminator() {
    assert_eq!(sse_frame(b"{}"), b"data: {}\n\n".to_vec());
    assert_eq!(done_frame(), b"data: [DONE]\n\n".to_vec());
    let (frames, finished) = stream_frames(StreamFraming::LegacySse, StreamEvent::Done, b"{\"a\":1}");
    assert_eq!(frames, vec![b"data: {\"a\":1}\n\n".to_vec()]);
    assert!(finished);
    let (frames, finished) = stream_frames(StreamFraming::LegacySse, StreamEvent::Chunk, b"x");
    assert_eq!(frames, vec![b"data: x\n\n".to_vec()]);
    assert!(!finished);
}

#[test]
fn oai_stream_ends_with_done() {
    let (frames, finished) = stream_frames(StreamFraming::OaiSse, StreamEvent::Done, b"y");
    assert_eq!(frames, vec![b"data: y\n\n".to_vec(), b"data: [DONE]\n\n".to_vec()]);
    assert!(finished);
    let (frames, finished) = stream_frames(StreamFraming::OaiSse, StreamEvent::Error, b"e");
    assert_eq!(frames, vec![b"data: e\n\n".to_vec()]);
    assert!(finished);
    let (frames, finished) = stream_frames(StreamFraming::OaiSse, StreamEvent::Closed, b"");
    assert!(frames.is_empty());
    assert!(finished);
    let event = error_event_json(&TaskError::server("boom".to_string()));
    assert_eq!(str_of(key_of(key_of(&event, "error"), "message")), "boom");
}

#[test]
fn slots_are_given_out_first_free_and_released() {
    let mut table = SlotTable::new(2);
    assert_eq!(table.slots[1], ServerSlot::new(1));
    assert_eq!(table.assign(7), Some(0));
    assert_eq!(table.assign(8), Some(1));
    assert_eq!(table.assign(9), None);
    assert_eq!(table.slots[0].phase, SlotPhase::Generating);
    table.release(7);
    assert_eq!(table.slots[0], ServerSlot { id: 0, active_task_id: None, phase: SlotPhase::Idle });
    assert_eq!(table.slots[1].active_task_id, Some(8));
    assert_eq!(table.assign(9), Some(0));
}

#[test]
fn reranker_prompts_wrap_query_and_document() {
    let docs = vec!["d1".to_string(), "d2".to_string()];
    assert_eq!(
        build_simple_reranker_prompts("q", &docs),
        vec!["<s>q</s></s>d1</s>".to_string(), "<s>q</s></s>d2</s>".to_string()]
    );
    assert!(build_simple_reranker_prompts("q", &[]).is_empty());
}

#[test]
fn dash_stands_for_none() {
    assert_eq!(optional_str_value("-"), None);
    assert_eq!(optional_str_value("x"), Some("x"));
    assert_eq!(optional_owned_value("-"), None);
    assert_eq!(optional_owned_value("--"), Some("--".to_string()));
    assert_eq!(parse_optional_u32("-"), Ok(None));
    assert_eq!(parse_optional_u32("512"), Ok(Some(512)));
    assert_eq!(parse_optional_u32("x"), Err(IntErrorKind::InvalidDigit));
}

#[test]
fn u32_parsing_matches_str_parse() {
    for text in ["0", "+7", "4294967295", "4294967296", "", "+", "-1", "12a", " 1", "99999999999x", "١"] {
        let expected = text.parse::<u32>().ok();
        assert_eq!(parse_u32(text).ok(), expected, "{text:?}");
    }
    assert_eq!(parse_u32(""), Err(IntErrorKind::Empty));
    assert_eq!(parse_u32("+"), Err(IntErrorKind::InvalidDigit));
    assert_eq!(parse_u32("4294967296"), Err(IntErrorKind::PosOverflow));
    assert_eq!(parse_u32("99999999999x"), Err(IntErrorKind::PosOverflow));
}

#[test]
fn benchmark_records_keep_their_fields() {
    let split = SplitData {
        split_id: 1,
        no_tokens: 2,
        split_embedding_name: "a".to_string(),
        split_embedding_file: "b".to_string(),
        split_string: "c".to_string(),
        sentence_embeddings_name: "d".to_string(),
        sentence_embeddings_file: "e".to_string(),
        sentences: vec!["s".to_string()],
    };
    assert_eq!(split.clone().sentences.len(), 1);
    let summary = SummaryData { text: "t".to_string(), summary: "s".to_string() };
    assert_eq!(summary.clone().summary, "s");
    let q = QuerySummaries { query: "q".to_string(), summaries: vec![] };
    assert!(q.summaries.is_empty());
}

#[test]
fn model_ids_come_from_the_file_name() {
    assert_eq!(model_id_from_file_name(Some("m.gguf".to_string())), "m.gguf");
    assert_eq!(model_id_from_file_name(None), "llama.cpp");
    assert_eq!(model_id("/models/m.gguf"), "m.gguf");
    assert_eq!(model_id("/"), "llama.cpp");
    assert_eq!(slot_count(0), 1);
    assert_eq!(slot_count(3), 3);
    let arg = ModelArg::HuggingFace { repo: "r".to_string(), model: "m".to_string() };
    assert!(matches!(arg, ModelArg::HuggingFace { .. }));
}

#[test]
fn health_reports_loading_until_ready() {
    let (status, body) = health_response(false);
    assert_eq!(status, 503);
    assert_eq!(str_of(key_of(key_of(&body, "error"), "message")), "Loading model");
    let (status, body) = health_response(true);
    assert_eq!(status, 200);
    assert_eq!(str_of(key_of(&body, "status")), "ok");
    assert_eq!(not_ready_error().status(), 503);
}

#[test]
fn only_a_true_stream_flag_streams() {
    let with = |v: JsonValue| JsonValue::Object(vec![("stream".to_string(), v)]);
    assert!(wants_stream(&with(JsonValue::Bool(true))));
    assert!(!wants_stream(&with(JsonValue::Bool(false))));
    assert!(!wants_stream(&with(pos(1))));
    assert!(!wants_stream(&JsonValue::Object(vec![])));
}

#[test]
fn take_prefix_splits_at_a_char_boundary() {
    let mut s = "a€b".to_string();
    assert_eq!(take_prefix(&mut s, 2), "a");
    assert_eq!(s, "€b");
    let mut s = "abc".to_string();
    assert_eq!(take_prefix(&mut s, 10), "abc");
    assert_eq!(s, "");
}

#[test]
fn a_stop_word_ends_generation_and_is_not_released() {
    let stops = StopMatcher::new(vec!["END".to_string()]);
    let mut utf8 = IncrementalUtf8::new();
    let mut state = GenerationState::new(3);
    match state.accept_token(&mut utf8, &stops, 1, false, b"hi E", true, false) {
        TokenStep::Released { text, has_next, .. } => {
            assert_eq!(text, "hi ");
            assert!(has_next);
        }
        other => panic!("unexpected {other:?}"),
    }
    match state.accept_token(&mut utf8, &stops, 2, false, b"ND!", true, false) {
        TokenStep::Released { text, has_next, with_timings, .. } => {
            assert_eq!(text, "");
            assert!(!has_next);
            assert!(with_timings);
        }
        other => panic!("unexpected {other:?}"),
    }
    assert_eq!(state.content, "hi ");
    assert_eq!(state.stop_type, StopType::Word);
    assert_eq!(state.stopping_word, "END");
    assert_eq!(state.tokens, vec![1, 2]);
    assert_eq!(flush_held_text(&mut state), None);
}

#[test]
fn held_text_is_flushed_when_generation_ends() {
    let stops = StopMatcher::new(vec!["STOP".to_string()]);
    let mut utf8 = IncrementalUtf8::new();
    let mut state = GenerationState::new(1);
    match state.accept_token(&mut utf8, &stops, 5, false, b"ok ST", false, false) {
        TokenStep::Released { text, .. } => assert_eq!(text, "ok "),
        other => panic!("unexpected {other:?}"),
    }
    assert!(matches!(state.accept_token(&mut utf8, &stops, 6, true, b"", false, false), TokenStep::EndOfGeneration));
    assert_eq!(state.stop_type, StopType::Eos);
    assert_eq!(flush_held_text(&mut state), Some("ST".to_string()));
    assert_eq!(state.content, "ok ST");
    assert!(state.tokens.is_empty());
}

#[test]
fn limits_stop_generation() {
    let mut state = GenerationState::new(3);
    assert!(!state.check_limits(true, false, 4, -1, -1, 0));
    assert!(state.truncated);
    assert_eq!(state.stop_type, StopType::Limit);

    let mut state = GenerationState::new(3);
    assert!(state.check_limits(true, false, 100, -1, -1, 0));
    assert_eq!(state.n_past, 4);
    assert!(!state.check_limits(true, true, 100, -1, 10, 11));
    assert!(state.has_new_line);
    assert_eq!(state.stop_type, StopType::Limit);
}

#[test]
fn prompt_checks_report_their_errors() {
    assert_eq!(check_prompt_size(0, 10).unwrap_err().message, "\"prompt\" must not be empty");
    assert_eq!(check_prompt_size(10, 10).unwrap_err().code, 400);
    assert_eq!(check_prompt_size(3, 10).unwrap(), 3);
    let err = validate_prompt_ids(&vec![1, -42, 3], 10).unwrap_err();
    assert_eq!(err.message, "invalid token id in \"prompt\": -42");
    let err = validate_prompt_ids(&vec![2147483647], 10).unwrap_err();
    assert_eq!(err.message, "invalid token id in \"prompt\": 2147483647");
    assert_eq!(validate_prompt_ids(&vec![0, 9], 10).unwrap(), vec![0, 9]);
    assert!(emit_result(EmitOutcome::Continue).is_ok());
    assert_eq!(emit_result(EmitOutcome::ReceiverGone).unwrap_err().message, "client disconnected");
}

#[test]
fn strings_are_compared_by_prefix() {
    assert!(str_starts_with("missing field: x", "missing field:"));
    assert!(!str_starts_with("miss", "missing"));
    assert!(str_starts_with("€uro", "€"));
}

#[test]
fn legacy_objects_have_the_native_shape() {
    let chunk = CompletionChunk { content: "out".to_string(), token: 5, n_decoded: 1, n_prompt: 2 };
    let v = legacy_chunk_json(&chunk);
    assert_eq!(str_of(key_of(&v, "content")), "out");
    assert!(same(key_of(&v, "stop"), &JsonValue::Bool(false)));
    assert!(same(key_of(&v, "tokens"), &JsonValue::Array(vec![pos(5)])));

    let f = CompletionFinal {
        content: "out".to_string(),
        tokens: vec![5, 6],
        n_decoded: 2,
        n_prompt: 3,
        stop_type: StopType::Eos,
        stopping_word: String::new(),
        truncated: false,
        has_new_line: false,
        tokens_cached: 5,
        prompt_text: "p".to_string(),
    };
    let v = legacy_final_json(&f, "m", true, false);
    assert_eq!(str_of(key_of(&v, "stop_type")), "eos");
    assert!(same(key_of(&v, "tokens"), &JsonValue::Array(vec![pos(5), pos(6)])));
    assert!(same(key_of(&v, "tokens_cached"), &pos(5)));
    let v = legacy_final_json(&f, "m", true, true);
    assert_eq!(str_of(key_of(&v, "content")), "");
    assert!(same(key_of(&v, "tokens"), &JsonValue::Array(vec![])));
}

#[test]
fn oai_objects_have_the_openai_shape() {
    let chunk = CompletionChunk { content: "d".to_string(), token: 1, n_decoded: 1, n_prompt: 1 };
    let v = oai_chunk_json(&chunk, "chatcmpl-1", 42, "m");
    assert_eq!(str_of(key_of(&v, "object")), "text_completion");
    assert!(same(key_of(&v, "created"), &pos(42)));
    assert_eq!(str_of(key_of(&v, "system_fingerprint")), SYSTEM_FINGERPRINT);
    let f = CompletionFinal {
        content: "text".to_string(),
        tokens: vec![],
        n_decoded: 8,
        n_prompt: 4,
        stop_type: StopType::Limit,
        stopping_word: String::new(),
        truncated: false,
        has_new_line: false,
        tokens_cached: 12,
        prompt_text: "p".to_string(),
    };
    let v = oai_final_json(&f, "chatcmpl-1", 42, "m", false);
    let usage = key_of(&v, "usage");
    assert!(same(key_of(usage, "total_tokens"), &pos(12)));
    match key_of(&v, "choices") {
        JsonValue::Array(choices) => {
            assert_eq!(str_of(key_of(&choices[0], "finish_reason")), "length");
            assert_eq!(str_of(key_of(&choices[0], "text")), "text");
        }
        other => panic!("choices: {other:?}"),
    }
    assert_eq!(finish_reason(StopType::Word), "stop");
    assert_eq!(finish_reason(StopType::NotStopped), "length");
}

#[test]
fn tokenizer_payloads_are_read() {
    let obj = |entries: Vec<(&str, JsonValue)>| {
        JsonValue::Object(entries.into_iter().map(|(k, v)| (k.to_string(), v)).collect())
    };
    let req = tokenize_request(&obj(vec![("content", JsonValue::String("hi".to_string()))])).unwrap();
    assert_eq!(req.content, "hi");
    assert!(!req.with_pieces);
    assert_eq!(tokenize_request(&obj(vec![])).unwrap_err(), "missing string field: content");

    let ids = JsonValue::Array(vec![pos(1), JsonValue::Number(JsonNumber::NegInt(-2))]);
    assert_eq!(detokenize_request(&obj(vec![("tokens", ids)])).unwrap(), vec![1, -2]);
    assert_eq!(detokenize_request(&obj(vec![])).unwrap_err(), "missing array field: tokens");
    let bad = JsonValue::Array(vec![pos(1), JsonValue::String("x".to_string())]);
    assert_eq!(detokenize_request(&obj(vec![("tokens", bad)])).unwrap_err(), "tokens entries must be integers");
    let big = JsonValue::Array(vec![pos(1 << 40)]);
    assert_eq!(
        detokenize_request(&obj(vec![("tokens", big)])).unwrap_err(),
        "out of range integral type conversion attempted"
    );
    assert_eq!(execution_error(detokenize_request(&obj(vec![])).unwrap_err()).code, 400);

    assert_eq!(template_flags(&obj(vec![])).unwrap_err(), "missing field: messages");
    let flags = template_flags(&obj(vec![
        ("messages", JsonValue::Array(vec![])),
        ("add_eos", JsonValue::Bool(true)),
        ("use_jinja", JsonValue::Bool(false)),
    ]))
    .unwrap();
    assert!(flags.add_generation_prompt && flags.add_eos && !flags.use_jinja && !flags.enable_thinking);
}

#[test]
fn prompts_are_decoded_in_full_batches() {
    assert_eq!(prompt_chunks(5, 2), vec![(0, 2), (2, 4), (4, 5)]);
    assert_eq!(prompt_chunks(4, 2), vec![(0, 2), (2, 4)]);
    assert_eq!(prompt_chunks(3, 0), vec![(0, 1), (1, 2), (2, 3)]);
    assert!(prompt_chunks(0, 8).is_empty());
}

#[test]
fn metrics_and_models_reports() {
    assert_eq!(
        metrics_text(12, 3, 2, 0, 7, 8),
        "llama_server_uptime_seconds 12\nllama_server_tasks_enqueued_total 3\nllama_server_tasks_completed_total 2\nllama_server_tasks_cancelled_total 0\nllamacpp:prompt_tokens_total 7\nllamacpp:tokens_predicted_total 8\n"
    );
    let v = models_json("m.gguf");
    assert_eq!(str_of(key_of(&v, "object")), "list");
    match key_of(&v, "data") {
        JsonValue::Array(items) => {
            assert_eq!(str_of(key_of(&items[0], "id")), "m.gguf");
            assert_eq!(str_of(key_of(&items[0], "owned_by")), "llama-server-rs");
        }
        other => panic!("data: {other:?}"),
    }
}

#[test]
fn test_ensure_hf_model_file_rejects_empty_repo_id() {
    let err = hf_model_ref("   ", "config.json", None).unwrap_err();
    assert!(err.contains("repo id cannot be empty"));
}

#[test]
fn test_ensure_hf_model_file_rejects_empty_filename() {
    let err = hf_model_ref("bert-base-uncased", "   ", None).unwrap_err();
    assert!(err.contains("filename cannot be empty"));
}

#[test]
fn model_file_names_are_trimmed() {
    let m = hf_model_ref("  org/repo\t", " model.gguf ", Some("  ")).unwrap();
    assert_eq!(m.repo_id, "org/repo");
    assert_eq!(m.filename, "model.gguf");
    assert_eq!(m.revision, None);
    let m = hf_model_ref("r", "f", Some(" main ")).unwrap();
    assert_eq!(m.revision, Some("main".to_string()));
}

#[test]
fn unserved_endpoints_say_so() {
    let v = llama_server_rs::http::handlers::not_implemented_response("infill");
    assert_eq!(str_of(key_of(&v, "status")), "not_implemented");
    assert_eq!(str_of(key_of(&v, "handler")), "infill");
}

#[test]
fn overlapping_stop_words_never_leak_into_the_content() {
    let stops = StopMatcher::new(vec!["abc".to_string(), "bd".to_string()]);
    let mut utf8 = IncrementalUtf8::new();
    let mut state = GenerationState::new(1);
    let mut released = String::new();
    for (i, piece) in [&b"za"[..], b"b", b"d"].into_iter().enumerate() {
        match state.accept_token(&mut utf8, &stops, i as i32, false, piece, false, false) {
            TokenStep::Released { text, .. } => released.push_str(&text),
            other => panic!("unexpected {other:?}"),
        }
    }
    assert_eq!(released, "za");
    assert_eq!(state.content, "za");
    assert_eq!(state.stop_type, StopType::Word);
    assert_eq!(state.stopping_word, "bd");
    assert!(!state.content.contains("bd") && !state.content.contains("abc"));
}

#[test]
fn tasks_are_routed_by_kind() {
    assert_eq!(task_route(TaskKind::Completion), TaskRoute::Completion);
    assert_eq!(task_route(TaskKind::CompletionsOai), TaskRoute::Completion);
    assert_eq!(task_route(TaskKind::Tokenize), TaskRoute::Tokenize);
    assert_eq!(task_route(TaskKind::Detokenize), TaskRoute::Detokenize);
    assert_eq!(task_route(TaskKind::ApplyTemplate), TaskRoute::ApplyTemplate);
    assert_eq!(task_route(TaskKind::Rerank), TaskRoute::NotImplemented);
    let e = cancelled_error();
    assert_eq!((e.code, e.error_type, e.message.as_str()), (504, "timeout_error", "request cancelled"));
    let app = AppError::from(cancelled_error());
    assert_eq!((app.status(), app.error_type()), (504, "timeout_error"));
}

#[test]
fn sequences_are_packed_into_batches_in_order() {
    assert_eq!(sequence_batches(&vec![3, 3, 3], 6), vec![(0, 2), (2, 3)]);
    assert_eq!(sequence_batches(&vec![2, 2, 2], 6), vec![(0, 3)]);
    assert_eq!(sequence_batches(&vec![7, 1], 6), vec![(0, 0), (0, 1), (1, 2)]);
    assert_eq!(sequence_batches(&vec![], 6), vec![(0, 0)]);
}

#[test]
fn reranker_tokens_are_wrapped_in_bos_and_eos() {
    assert_eq!(with_bos_eos(&[5, u32::MAX], 1, 2), vec![1, 5, -1, 2]);
    assert_eq!(with_bos_eos(&[], 1, 2), vec![1, 2]);
}

#[test]
fn model_ids_are_part_of_the_path() {
    let id = model_id("models/qwen-0.5b.gguf");
    assert!(id == "llama.cpp" || (!id.is_empty() && "models/qwen-0.5b.gguf".contains(id.as_str())));
    assert_eq!(id, "qwen-0.5b.gguf");
}

#[test]
fn cancelled_tasks_are_answered_and_counted() {
    assert_eq!(on_task_received(true, TaskKind::Completion), TaskAction::ReplyCancelled);
    assert_eq!(on_task_received(false, TaskKind::Tokenize), TaskAction::Run(TaskRoute::Tokenize));
    let mut m = EngineMetrics::default();
    record_outcome(&mut m, TaskOutcome::CancelledBeforeRun);
    record_outcome(&mut m, TaskOutcome::CompletionFailed { cancelled: true });
    record_outcome(&mut m, TaskOutcome::CompletionFailed { cancelled: false });
    record_outcome(&mut m, TaskOutcome::Failed);
    assert_eq!(m.snapshot(), (0, 0, 2));
    record_outcome(&mut m, TaskOutcome::Finished);
    record_outcome(&mut m, TaskOutcome::CompletionDone { n_prompt: 5, n_decoded: 3 });
    record_outcome(&mut m, TaskOutcome::CompletionDone { n_prompt: -1, n_decoded: 2 });
    assert_eq!(m.snapshot(), (0, 3, 2));
    assert_eq!(m.token_snapshot(), (5, 5));
    assert_eq!(TaskError::timeout("t".to_string()).code, 504);
}

#[test]
fn plain_file_names_are_the_model_id() {
    assert_eq!(model_id("x.gguf"), "x.gguf");
    assert_eq!(model_id("a/b/x.gguf"), "x.gguf");
    assert_eq!(model_id("/x.gguf"), "x.gguf");
    assert_eq!(model_id(".."), "llama.cpp");
}

#[test]
fn blank_names_are_rejected_after_trimming_unicode_space() {
    assert!(hf_model_ref("\u{3000}\u{a0}", "f", None).is_err());
    assert_eq!(hf_model_ref("\u{2003}r\u{85}", "f", None).unwrap().repo_id, "r");
}

/// Feeds `pieces` to a run, the way the engine does, and returns the chunks
/// it handed out with its final content.
fn drive_run(stops: &[&str], pieces: &[&[u8]], stream: bool) -> (Vec<String>, String, StopType, String) {
    let mut run = CompletionRun::new(2, stops.iter().map(|s| s.to_string()).collect(), stream);
    let mut chunks = Vec::new();
    for (i, piece) in pieces.iter().enumerate() {
        let step = run.on_token(i as i32, false, piece, false, false);
        if let TokenStep::Released { text, has_next, .. } = step {
            if run.streams() {
                chunks.push(text);
            }
            if !has_next {
                break;
            }
        }
        if !run.check_limits(true, false, 1000, -1, -1, 0) {
            break;
        }
    }
    if let Some(held) = run.finish() {
        if run.streams() {
            chunks.push(held);
        }
    }
    let state = run.into_state();
    (chunks, state.content, state.stop_type, state.stopping_word)
}

#[test]
fn streamed_chunks_concatenate_to_the_content() {
    let pieces: [&[u8]; 5] = [b"Hel", b"lo \xe2\x82", b"\xac wor", b"ld", b" ST"];
    let (chunks, content, stop_type, _) = drive_run(&["STOP"], &pieces, true);
    assert_eq!(chunks, vec!["Hel", "lo \u{20ac} wor", "ld", " ", "ST"]);
    assert_eq!(chunks.concat(), content);
    assert_eq!(content, "Hello \u{20ac} world ST");
    assert_eq!(stop_type, StopType::NotStopped);
}

#[test]
fn streaming_does_not_change_the_content() {
    let pieces: [&[u8]; 4] = [b"one ", b"two E", b"ND three", b" four"];
    let (streamed, with_stream, stop_a, _) = drive_run(&["END"], &pieces, true);
    let (none, without_stream, stop_b, _) = drive_run(&["END"], &pieces, false);
    assert_eq!(with_stream, "one two ");
    assert_eq!(with_stream, without_stream);
    assert_eq!(streamed.concat(), with_stream);
    assert!(none.is_empty());
    assert_eq!(stop_a, StopType::Word);
    assert_eq!(stop_b, StopType::Word);
}

#[test]
fn a_stop_word_keeps_a_prefix_of_the_unstopped_text() {
    let pieces: [&[u8]; 4] = [b"alpha ", b"beta ", b"gam", b"ma delta"];
    let (_, free, _, _) = drive_run(&[], &pieces, false);
    let (_, stopped, stop_type, word) = drive_run(&["gamma"], &pieces, false);
    assert_eq!(word, "gamma");
    assert_eq!(free, "alpha beta gamma delta");
    assert_eq!(stopped, "alpha beta ");
    assert_eq!(stop_type, StopType::Word);
    assert!(free.starts_with(&stopped));
    assert!(!stopped.contains("gamma"));
}

#[test]
fn split_ids_are_zero_padded_to_three_digits() {
    assert_eq!(split_id_text(0), "000");
    assert_eq!(split_id_text(7), "007");
    assert_eq!(split_id_text(42), "042");
    assert_eq!(split_id_text(999), "999");
    assert_eq!(split_id_text(1234), "1234");
}

#[test]
fn a_split_record_names_its_embedding_files() {
    let (data, split_path, sentence_path) =
        split_record("out", 5, 12, "One. Two.".to_string(), vec!["One.".to_string(), "Two.".to_string()]);
    assert_eq!(data.split_id, 5);
    assert_eq!(data.no_tokens, 12);
    assert_eq!(data.split_embedding_name, "split_embedding_005");
    assert_eq!(data.split_embedding_file, "split_embedding_005.safetensors");
    assert_eq!(data.sentence_embeddings_name, "sentence_embeddings_005");
    assert_eq!(data.sentence_embeddings_file, "sentence_embeddings_005.safetensors");
    assert_eq!(data.split_string, "One. Two.");
    assert_eq!(data.sentences, vec!["One.", "Two."]);
    assert_eq!(split_path, "out/split_embedding_005.safetensors");
    assert_eq!(sentence_path, "out/sentence_embeddings_005.safetensors");
}

#[test]
fn the_instruction_goes_before_the_split_text() {
    assert_eq!(embedding_input(Some("query: "), "hello"), "query: hello");
    assert_eq!(embedding_input(None, "hello"), "hello");
}

#[test]
fn sentences_without_tokens_are_dropped() {
    let splits = vec![("a".to_string(), 2), ("".to_string(), 0), ("b".to_string(), 1), (" ".to_string(), 0)];
    assert_eq!(nonempty_sentences(&splits), vec!["a", "b"]);
    assert!(nonempty_sentences(&Vec::new()).is_empty());
}

fn object(entries: Vec<(&str, JsonValue)>) -> JsonValue {
    JsonValue::Object(entries.into_iter().map(|(k, v)| (k.to_string(), v)).collect())
}

#[test]
fn chat_messages_are_read_or_null() {
    let payload = object(vec![
        ("model", JsonValue::String("m".to_string())),
        ("messages", JsonValue::Array(vec![JsonValue::String("hi".to_string())])),
    ]);
    match normalize_messages(payload) {
        JsonValue::Array(items) => {
            assert_eq!(items.len(), 1);
            assert!(matches!(&items[0], JsonValue::String(s) if s == "hi"));
        }
        other => panic!("unexpected {other:?}"),
    }
    assert!(matches!(normalize_messages(object(vec![("prompt", JsonValue::Null)])), JsonValue::Null));
    assert!(matches!(normalize_messages(JsonValue::Bool(true)), JsonValue::Null));
}

#[test]
fn multimodal_data_is_taken_when_present() {
    let payload = object(vec![("multimodal_data", JsonValue::Array(Vec::new()))]);
    assert!(matches!(extract_multimodal_payload(payload), Some(JsonValue::Array(items)) if items.is_empty()));
    assert!(extract_multimodal_payload(object(vec![("prompt", JsonValue::Null)])).is_none());
    assert!(extract_multimodal_payload(JsonValue::Null).is_none());
}

#[test]
fn active_slots_are_the_busy_ones_in_order() {
    let mut table = SlotTable::new(4);
    assert!(active_slots(&table.slots).is_empty());
    assert_eq!(table.assign(10), Some(0));
    assert_eq!(table.assign(11), Some(1));
    assert_eq!(table.assign(12), Some(2));
    table.release(11);
    let active = active_slots(&table.slots);
    assert_eq!(active.iter().map(|s| s.id).collect::<Vec<_>>(), vec![0, 2]);
    assert_eq!(active[1].active_task_id, Some(12));
}

#[test]
fn trimming_removes_unicode_white_space_at_both_ends() {
    assert_eq!(trim_whitespace("  a b \u{3000}"), "a b");
    assert_eq!(trim_whitespace("\u{85}x\t\n"), "x");
    assert_eq!(trim_whitespace("\u{200b}x"), "\u{200b}x");
    assert_eq!(trim_whitespace(" \u{a0}\u{2029} "), "");
    assert_eq!(trim_whitespace(""), "");
    assert_eq!(trim_whitespace("inner  space"), "inner  space");
}

#[test]
fn run_chunks_carry_the_prompt_length_and_decoded_count() {
    let mut run = CompletionRun::new(7, vec!["STOP".to_string()], true);
    let step = run.on_token(3, false, b"hi", false, false);
    let text = match step {
        TokenStep::Released { text, has_next, .. } => {
            assert!(has_next);
            text
        }
        other => panic!("unexpected {other:?}"),
    };
    let chunk = run.chunk(text, 3);
    assert_eq!(chunk.content, "hi");
    assert_eq!(chunk.token, 3);
    assert_eq!(chunk.n_decoded, 1);
    assert_eq!(chunk.n_prompt, 7);
    assert_eq!(run.state().stop_type, StopType::NotStopped);
    assert_eq!(run.state().stopping_word, "");
}
