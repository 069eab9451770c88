use llama_server_rs::engine::sampler::{
    dry_breakers_without_nul, dry_sequence_breakers, json_bool, json_i32, json_seed, json_usize,
    parse_logit_bias, parse_string_array, penalty_windows, sampler_stages, strtol_exact, token_in_vocab,
    BiasTarget, SamplerStage, DEFAULT_SEED,
};
use llama_server_rs::json::{JsonNumber, JsonValue};

fn s(v: &str) -> JsonValue {
    JsonValue::String(v.to_string())
}

fn n(v: i64) -> JsonValue {
    if v >= 0 {
        JsonValue::Number(JsonNumber::PosInt(v as u64))
    } else {
        JsonValue::Number(JsonNumber::NegInt(v))
    }
}

fn obj(entries: Vec<(&str, JsonValue)>) -> JsonValue {
    JsonValue::Object(entries.into_iter().map(|(k, v)| (k.to_string(), v)).collect())
}

fn default_breakers() -> Vec<String> {
    vec!["\n".to_string(), ":".to_string(), "\"".to_string(), "*".to_string()]
}

fn targets(payload: &JsonValue) -> Vec<(String, usize)> {
    parse_logit_bias(Some(payload))
        .into_iter()
        .map(|k| match k.target {
            BiasTarget::Token(t) => (format!("token {t}"), k.source),
            BiasTarget::Text(t) => (format!("text {t}"), k.source),
        })
        .collect()
}

#[test]
fn strtol_exact_matches_c_semantics() {
    assert_eq!(strtol_exact("15"), Some(15));
    assert_eq!(strtol_exact(" -3"), Some(-3));
    assert_eq!(strtol_exact("+9"), Some(9));
    assert_eq!(strtol_exact(""), Some(0));
    assert_eq!(strtol_exact("12abc"), None);
    assert_eq!(strtol_exact("abc"), None);
    assert_eq!(strtol_exact("1 "), None);
}

#[test]
fn strtol_exact_truncates_to_i32() {
    assert_eq!(strtol_exact("99999999999"), Some(1215752191));
    assert_eq!(strtol_exact("-99999999999"), Some(-1215752191));
    assert_eq!(strtol_exact("99999999999999999999"), Some(-1));
    assert_eq!(strtol_exact("-"), None);
}

#[test]
fn defaults_are_applied_when_fields_are_absent() {
    let payload = obj(vec![]);
    assert_eq!(json_i32(&payload, "top_k", 40), 40);
    assert_eq!(penalty_windows(&payload, 64, -1, 4096).unwrap(), (64, 4096));
    assert_eq!(json_seed(&payload, "seed", DEFAULT_SEED), DEFAULT_SEED);
    assert_eq!(dry_sequence_breakers(&payload, &default_breakers()).unwrap(), default_breakers());
    assert!(parse_logit_bias(payload.get("logit_bias")).is_empty());
    assert!(!json_bool(&payload, "ignore_eos", false));
}

#[test]
fn repeat_last_n_below_minus_one_is_rejected() {
    let err = penalty_windows(&obj(vec![("repeat_last_n", n(-2))]), 64, -1, 4096).unwrap_err();
    assert_eq!(err.code, 400);
    assert_eq!(err.message, "repeat_last_n must be >= -1");
}

#[test]
fn dry_penalty_last_n_below_minus_one_is_rejected() {
    let err = penalty_windows(&obj(vec![("dry_penalty_last_n", n(-3))]), 64, -1, 4096).unwrap_err();
    assert_eq!(err.code, 400);
}

#[test]
fn repeat_last_n_minus_one_becomes_n_ctx() {
    let (last_n, _) = penalty_windows(&obj(vec![("repeat_last_n", n(-1))]), 64, -1, 2048).unwrap();
    assert_eq!(last_n, 2048);
}

#[test]
fn negative_seed_maps_to_default_seed() {
    assert_eq!(json_seed(&obj(vec![("seed", n(-1))]), "seed", DEFAULT_SEED), u32::MAX);
    assert_eq!(json_seed(&obj(vec![("seed", n(42))]), "seed", DEFAULT_SEED), 42);
}

#[test]
fn type_mismatched_fields_fall_back_to_defaults() {
    let payload = obj(vec![("top_k", s("many")), ("temperature", JsonValue::Null), ("ignore_eos", n(1))]);
    assert_eq!(json_i32(&payload, "top_k", 40), 40);
    assert!(!json_bool(&payload, "ignore_eos", false));
}

#[test]
fn logit_bias_array_form_is_parsed() {
    let payload = JsonValue::Array(vec![
        JsonValue::Array(vec![n(15), JsonValue::Number(JsonNumber::Float(-1))]),
        JsonValue::Array(vec![s("hello"), JsonValue::Number(JsonNumber::Float(2))]),
        JsonValue::Array(vec![n(7), JsonValue::Bool(false)]),
        JsonValue::Array(vec![n(3), s("x")]),
        s("bad"),
    ]);
    assert_eq!(
        targets(&payload),
        vec![("token 15".to_string(), 0), ("text hello".to_string(), 1), ("token 7".to_string(), 2)]
    );
}

#[test]
fn logit_bias_object_form_is_parsed() {
    let payload = obj(vec![
        ("15", JsonValue::Number(JsonNumber::Float(-1))),
        ("hello", JsonValue::Number(JsonNumber::Float(2))),
        ("7", JsonValue::Bool(false)),
        ("12abc", JsonValue::Number(JsonNumber::Float(1))),
        ("skipped", JsonValue::Bool(true)),
    ]);
    assert_eq!(
        targets(&payload),
        vec![
            ("token 15".to_string(), 0),
            ("text hello".to_string(), 1),
            ("token 7".to_string(), 2),
            ("text 12abc".to_string(), 3),
        ]
    );
}

#[test]
fn ignore_eos_is_parsed() {
    assert!(json_bool(&obj(vec![("ignore_eos", JsonValue::Bool(true))]), "ignore_eos", false));
}

#[test]
fn dry_sequence_breakers_must_be_a_non_empty_string_array() {
    let payload = obj(vec![("dry_sequence_breakers", JsonValue::Array(vec![s("a"), s("bb")]))]);
    assert_eq!(
        dry_sequence_breakers(&payload, &default_breakers()).unwrap(),
        vec!["a".to_string(), "bb".to_string()]
    );

    for bad in [JsonValue::Array(vec![]), s("nope"), JsonValue::Array(vec![n(1), n(2)]), JsonValue::Null] {
        let err = dry_sequence_breakers(&obj(vec![("dry_sequence_breakers", bad)]), &default_breakers())
            .unwrap_err();
        assert_eq!(err.code, 400);
    }
}

#[test]
fn string_arrays_with_other_values_read_as_empty() {
    assert_eq!(parse_string_array(&JsonValue::Array(vec![s("a"), n(1)])), Vec::<String>::new());
    assert_eq!(parse_string_array(&s("a")), Vec::<String>::new());
    assert_eq!(parse_string_array(&JsonValue::Array(vec![s("a"), s("b")])), vec!["a".to_string(), "b".to_string()]);
}

#[test]
fn usize_fields_read_non_negative_integers_only() {
    assert_eq!(json_usize(&obj(vec![("n_probs", n(3))]), "n_probs", 0), 3);
    assert_eq!(json_usize(&obj(vec![("n_probs", n(-3))]), "n_probs", 0), 0);
}

#[test]
fn sampler_chain_follows_the_mirostat_setting() {
    assert_eq!(sampler_stages(false, 1), vec![SamplerStage::Temp, SamplerStage::Mirostat]);
    assert_eq!(
        sampler_stages(true, 2),
        vec![SamplerStage::LogitBias, SamplerStage::Temp, SamplerStage::MirostatV2]
    );
    let full = sampler_stages(false, 0);
    assert_eq!(full.len(), 9);
    assert_eq!(full[0], SamplerStage::Penalties);
    assert_eq!(full[8], SamplerStage::Dist);
}

#[test]
fn token_biases_outside_the_vocabulary_are_dropped() {
    assert!(token_in_vocab(0, 10));
    assert!(!token_in_vocab(10, 10));
    assert!(!token_in_vocab(-1, 10));
}

#[test]
fn breakers_with_a_nul_character_are_dropped() {
    let breakers = vec!["a".to_string(), "b\0c".to_string(), "\n".to_string()];
    assert_eq!(dry_breakers_without_nul(&breakers), vec!["a".to_string(), "\n".to_string()]);
}
