//! The typed readers of request fields that the sampling and completion
//! parameters are built from, and the logit-bias key parser.
use vstd::prelude::*;
use vstd::utf8::encode_utf8;
use crate::json::{json_get, value_as_i64, JsonNumber, JsonValue};
use vstd::string::StrSliceExecFns;
use crate::engine::task::{error_type_for, TaskError};

verus! {

/// `LLAMA_DEFAULT_SEED`: the seed value that makes llama.cpp pick a random one.
pub const DEFAULT_SEED: u32 = 0xffff_ffffu32;

/// `payload[key]`, where a `null` counts as absent.
pub open spec fn field_spec(payload: JsonValue, key: Seq<char>) -> Option<JsonValue> {
    match json_get(payload, key) {
        Some(JsonValue::Null) => None,
        other => other,
    }
}

/// The integer a numeric field is read as: an integer as itself (one above
/// `i64::MAX` wraps), a float truncated toward zero; anything else is absent.
pub open spec fn number_i64_spec(payload: JsonValue, key: Seq<char>) -> Option<i64> {
    match field_spec(payload, key) {
        Some(JsonValue::Number(JsonNumber::PosInt(u))) => Some(u as i64),
        Some(JsonValue::Number(JsonNumber::NegInt(i))) => Some(i),
        Some(JsonValue::Number(JsonNumber::Float(t))) => Some(t),
        _ => None,
    }
}

/// `payload[key]`, or `None` when it is missing or `null`.
pub fn json_field<'a>(payload: &'a JsonValue, key: &str) -> (r: Option<&'a JsonValue>)
    ensures
        match r {
            Some(v) => field_spec(*payload, key@) == Some(*v),
            None => field_spec(*payload, key@) is None,
        },
{
    match payload.get(key) {
        None => None,
        Some(JsonValue::Null) => None,
        Some(value) => Some(value),
    }
}

/// The numeric field `key` as an `i64`.
pub fn json_number_i64(payload: &JsonValue, key: &str) -> (r: Option<i64>)
    ensures
        r == number_i64_spec(*payload, key@),
{
    match json_field(payload, key) {
        Some(JsonValue::Number(JsonNumber::PosInt(u))) => Some(*u as i64),
        Some(JsonValue::Number(JsonNumber::NegInt(i))) => Some(*i),
        Some(JsonValue::Number(JsonNumber::Float(t))) => Some(*t),
        _ => None,
    }
}

/// The numeric field `key` truncated to `i32`, or `default`.
pub fn json_i32(payload: &JsonValue, key: &str, default: i32) -> (r: i32)
    ensures
        r == match number_i64_spec(*payload, key@) {
            Some(v) => v as i32,
            None => default,
        },
{
    match json_number_i64(payload, key) {
        Some(value) => value as i32,
        None => default,
    }
}

/// The numeric field `key` as an `i64`, or `default`.
pub fn json_i64(payload: &JsonValue, key: &str, default: i64) -> (r: i64)
    ensures
        r == match number_i64_spec(*payload, key@) {
            Some(v) => v,
            None => default,
        },
{
    match json_number_i64(payload, key) {
        Some(value) => value,
        None => default,
    }
}

/// The boolean field `key`, or `default` when it is missing or not a boolean.
pub fn json_bool(payload: &JsonValue, key: &str, default: bool) -> (r: bool)
    ensures
        r == match field_spec(*payload, key@) {
            Some(JsonValue::Bool(b)) => b,
            _ => default,
        },
{
    match json_field(payload, key) {
        Some(value) => match value.as_bool() {
            Some(b) => b,
            None => default,
        },
        None => default,
    }
}

/// The numeric field `key` as a `usize` (0 when out of range), or `default`.
pub fn json_usize(payload: &JsonValue, key: &str, default: usize) -> (r: usize)
    ensures
        r == match number_i64_spec(*payload, key@) {
            Some(v) => if 0 <= v <= usize::MAX {
                v as usize
            } else {
                0
            },
            None => default,
        },
{
    match json_number_i64(payload, key) {
        Some(value) => {
            if value >= 0 && (value as u64) <= (usize::MAX as u64) {
                value as usize
            } else {
                0
            }
        },
        None => default,
    }
}

/// The numeric field `key` truncated to `u32` (so -1 is `DEFAULT_SEED`), or
/// `default`.
pub fn json_seed(payload: &JsonValue, key: &str, default: u32) -> (r: u32)
    ensures
        r == match number_i64_spec(*payload, key@) {
            Some(v) => v as u32,
            None => default,
        },
{
    match json_number_i64(payload, key) {
        Some(value) => value as u32,
        None => default,
    }
}

/// The strings of an array of strings; empty when `value` is not an array or
/// holds anything else.
pub open spec fn string_array_spec(value: JsonValue) -> Seq<Seq<char>> {
    match value {
        JsonValue::Array(items) => if forall|i: int|
            0 <= i < items@.len() ==> #[trigger] items@[i] is String {
            items@.map_values(|v: JsonValue| v->String_0@)
        } else {
            Seq::empty()
        },
        _ => Seq::empty(),
    }
}

/// Reads an array of strings.
pub fn parse_string_array(value: &JsonValue) -> (r: Vec<String>)
    ensures
        r@.map_values(|s: String| s@) == string_array_spec(*value),
{
    match value {
        JsonValue::Array(items) => {
            let mut out: Vec<String> = Vec::new();
            let mut i: usize = 0;
            while i < items.len()
                invariant
                    i <= items@.len(),
                    *value == JsonValue::Array(*items),
                    out@.len() == i,
                    forall|j: int| 0 <= j < i ==> #[trigger] items@[j] is String,
                    forall|j: int| 0 <= j < i ==> out@[j]@ == (#[trigger] items@[j])->String_0@,
                decreases items@.len() - i,
            {
                match &items[i] {
                    JsonValue::String(text) => {
                        out.push(text.clone());
                    },
                    _ => {
                        let empty: Vec<String> = Vec::new();
                        assert(!(items@[i as int] is String));
                        assert(empty@.map_values(|s: String| s@) =~= Seq::<Seq<char>>::empty());
                        return empty;
                    },
                }
                i = i + 1;
            }
            assert(out@.map_values(|s: String| s@) =~= items@.map_values(|v: JsonValue| v->String_0@));
            out
        },
        _ => {
            let empty: Vec<String> = Vec::new();
            assert(empty@.map_values(|s: String| s@) =~= Seq::<Seq<char>>::empty());
            empty
        },
    }
}

/// A byte C's `isspace` accepts: space, `\t`, `\n`, `\v`, `\f`, `\r`.
pub open spec fn is_c_space(c: u8) -> bool {
    c == 0x20 || (0x09 <= c <= 0x0d)
}

pub open spec fn is_ascii_digit(c: u8) -> bool {
    0x30 <= c <= 0x39
}

/// The first index at or after `i` that is not a C space.
pub open spec fn skip_spaces(b: Seq<u8>, i: int) -> int
    decreases b.len() - i,
{
    if 0 <= i < b.len() && is_c_space(b[i]) {
        skip_spaces(b, i + 1)
    } else {
        i
    }
}

/// The first index at or after `i` that is not an ASCII digit.
pub open spec fn skip_digits(b: Seq<u8>, i: int) -> int
    decreases b.len() - i,
{
    if 0 <= i < b.len() && is_ascii_digit(b[i]) {
        skip_digits(b, i + 1)
    } else {
        i
    }
}

/// The decimal value of the digits `b[from..to]`, saturating at `i64::MAX`
/// at each step.
pub open spec fn saturating_decimal(b: Seq<u8>, from: int, to: int) -> int
    decreases to - from,
{
    if to <= from {
        0
    } else {
        let v = saturating_decimal(b, from, to - 1);
        let times_ten = if v * 10 > i64::MAX { i64::MAX as int } else { v * 10 };
        let next = times_ten + (b[to - 1] - 0x30);
        if next > i64::MAX { i64::MAX as int } else { next }
    }
}

/// C's `strtol` on the whole key: optional C spaces, an optional sign, at
/// least one decimal digit and nothing after them; the empty key reads as 0.
/// The value saturates at `i64::MAX` before the sign is applied and is then
/// truncated to `i32`.
pub open spec fn strtol_exact_spec(b: Seq<u8>) -> Option<i32> {
    if b.len() == 0 {
        Some(0)
    } else {
        let i0 = skip_spaces(b, 0);
        let negative = i0 < b.len() && b[i0] == 0x2d;
        let i1 = if i0 < b.len() && (b[i0] == 0x2d || b[i0] == 0x2b) {
            i0 + 1
        } else {
            i0
        };
        let i2 = skip_digits(b, i1);
        if i2 == i1 || i2 != b.len() {
            None
        } else {
            let v = saturating_decimal(b, i1, i2);
            Some((if negative { -v } else { v }) as i32)
        }
    }
}

proof fn lemma_skip_spaces(b: Seq<u8>, i: int)
    requires
        0 <= i <= b.len(),
    ensures
        i <= skip_spaces(b, i) <= b.len(),
    decreases b.len() - i,
{
    if i < b.len() && is_c_space(b[i]) {
        lemma_skip_spaces(b, i + 1);
    }
}

proof fn lemma_skip_digits(b: Seq<u8>, i: int)
    requires
        0 <= i <= b.len(),
    ensures
        i <= skip_digits(b, i) <= b.len(),
    decreases b.len() - i,
{
    if i < b.len() && is_ascii_digit(b[i]) {
        lemma_skip_digits(b, i + 1);
    }
}

proof fn lemma_saturating_decimal_range(b: Seq<u8>, from: int, to: int)
    requires
        forall|k: int| from <= k < to ==> is_ascii_digit(#[trigger] b[k]),
    ensures
        0 <= saturating_decimal(b, from, to) <= i64::MAX,
    decreases to - from,
{
    if to > from {
        lemma_saturating_decimal_range(b, from, to - 1);
    }
}

/// Parses a logit-bias key the way C's `strtol` does, accepting it only when
/// the whole key is a number.
pub fn strtol_exact(key: &str) -> (r: Option<i32>)
    ensures
        r == strtol_exact_spec(encode_utf8(key@)),
{
    let bytes = key.as_bytes();
    let ghost b = bytes@;
    if bytes.len() == 0 {
        return Some(0);
    }
    let mut i: usize = 0;
    while i < bytes.len() && (bytes[i] == 0x20 || (0x09 <= bytes[i] && bytes[i] <= 0x0d))
        invariant
            i <= b.len(),
            b == bytes@,
            skip_spaces(b, i as int) == skip_spaces(b, 0),
        decreases b.len() - i,
    {
        i = i + 1;
    }
    let negative = i < bytes.len() && bytes[i] == 0x2d;
    if i < bytes.len() && (bytes[i] == 0x2d || bytes[i] == 0x2b) {
        i = i + 1;
    }
    let digits_start = i;
    let mut value: i64 = 0;
    while i < bytes.len() && 0x30 <= bytes[i] && bytes[i] <= 0x39
        invariant
            digits_start <= i <= b.len(),
            b == bytes@,
            skip_digits(b, i as int) == skip_digits(b, digits_start as int),
            forall|k: int| digits_start <= k < i ==> is_ascii_digit(#[trigger] b[k]),
            value == saturating_decimal(b, digits_start as int, i as int),
            0 <= value,
        decreases b.len() - i,
    {
        let d = (bytes[i] - 0x30) as i64;
        let times_ten = if value > 0x7fff_ffff_ffff_ffffi64 / 10 {
            0x7fff_ffff_ffff_ffffi64
        } else {
            value * 10
        };
        value = if times_ten > 0x7fff_ffff_ffff_ffffi64 - d {
            0x7fff_ffff_ffff_ffffi64
        } else {
            times_ten + d
        };
        i = i + 1;
    }
    if i == digits_start || i != bytes.len() {
        return None;
    }
    if negative {
        value = -value;
    }
    Some(value as i32)
}

/// The penalty windows after validation: a value below -1 is an error, and
/// -1 stands for the context size.
pub open spec fn window_spec(v: i32, n_ctx: i32) -> i32 {
    if v == -1 {
        n_ctx
    } else {
        v
    }
}

/// Reads `repeat_last_n` and `dry_penalty_last_n` (the window sizes of the
/// repetition and DRY penalties) with their defaults, rejects values below
/// -1 (`repeat_last_n` first), and turns -1 into the context size.
pub fn penalty_windows(
    payload: &JsonValue,
    default_last_n: i32,
    default_dry_last_n: i32,
    n_ctx: i32,
) -> (r: Result<(i32, i32), TaskError>)
    ensures
        ({
            let last_n = match number_i64_spec(*payload, "repeat_last_n"@) {
                Some(v) => v as i32,
                None => default_last_n,
            };
            let dry_last_n = match number_i64_spec(*payload, "dry_penalty_last_n"@) {
                Some(v) => v as i32,
                None => default_dry_last_n,
            };
            if last_n < -1 {
                r matches Err(e) && e.code == 400 && e.error_type@ == error_type_for(400)
                    && e.message@ == "repeat_last_n must be >= -1"@
            } else if dry_last_n < -1 {
                r matches Err(e) && e.code == 400 && e.error_type@ == error_type_for(400)
                    && e.message@ == "dry_penalty_last_n must be >= -1"@
            } else {
                r == Ok::<(i32, i32), TaskError>(
                    (window_spec(last_n, n_ctx), window_spec(dry_last_n, n_ctx)),
                )
            }
        }),
{
    let mut last_n = json_i32(payload, "repeat_last_n", default_last_n);
    let mut dry_last_n = json_i32(payload, "dry_penalty_last_n", default_dry_last_n);
    if last_n < -1 {
        return Err(TaskError::invalid_request(String::from_str("repeat_last_n must be >= -1")));
    }
    if dry_last_n < -1 {
        return Err(TaskError::invalid_request(String::from_str("dry_penalty_last_n must be >= -1")));
    }
    if last_n == -1 {
        last_n = n_ctx;
    }
    if dry_last_n == -1 {
        dry_last_n = n_ctx;
    }
    Ok((last_n, dry_last_n))
}

/// Reads `dry_sequence_breakers`: when the field is present (even `null`) it
/// must be a non-empty array of strings and replaces `defaults`.
pub fn dry_sequence_breakers(payload: &JsonValue, defaults: &Vec<String>) -> (r: Result<
    Vec<String>,
    TaskError,
>)
    ensures
        match json_get(*payload, "dry_sequence_breakers"@) {
            None => r matches Ok(v) && v@.map_values(|s: String| s@) == defaults@.map_values(
                |s: String| s@,
            ),
            Some(value) => if string_array_spec(value).len() == 0 {
                r matches Err(e) && e.code == 400 && e.error_type@ == error_type_for(400)
                    && e.message@ == "dry_sequence_breakers must be a non-empty array of strings"@
            } else {
                r matches Ok(v) && v@.map_values(|s: String| s@) == string_array_spec(value)
            },
        },
{
    match payload.get("dry_sequence_breakers") {
        None => {
            let mut out: Vec<String> = Vec::new();
            let mut i: usize = 0;
            while i < defaults.len()
                invariant
                    i <= defaults@.len(),
                    out@.len() == i,
                    forall|j: int| 0 <= j < i ==> out@[j]@ == defaults@[j]@,
                decreases defaults@.len() - i,
            {
                out.push(defaults[i].clone());
                i = i + 1;
            }
            assert(out@.map_values(|s: String| s@) =~= defaults@.map_values(|s: String| s@));
            Ok(out)
        },
        Some(value) => {
            let breakers = parse_string_array(value);
            if breakers.len() == 0 {
                return Err(
                    TaskError::invalid_request(
                        String::from_str("dry_sequence_breakers must be a non-empty array of strings"),
                    ),
                );
            }
            Ok(breakers)
        },
    }
}


/// What a logit bias applies to: a token id, or the tokens of a text.
#[derive(Debug, Clone)]
pub enum BiasTarget {
    Token(i32),
    Text(String),
}

/// A bias target as plain values.
pub enum BiasTargetView {
    Token(i32),
    Text(Seq<char>),
}

/// A parsed logit-bias entry: its target, and the position in the request
/// (array index or object entry index) of the bias value to apply.
#[derive(Debug, Clone)]
pub struct LogitBiasKey {
    pub target: BiasTarget,
    pub source: usize,
}

/// The plain view of a bias target.
pub open spec fn target_view(t: BiasTarget) -> BiasTargetView {
    match t {
        BiasTarget::Token(id) => BiasTargetView::Token(id),
        BiasTarget::Text(s) => BiasTargetView::Text(s@),
    }
}

/// A value a bias can be read from: a number, or `false` (a ban).
pub open spec fn is_bias_value(v: JsonValue) -> bool {
    v is Number || v == JsonValue::Bool(false)
}

/// The target of an array item `[token_or_text, bias]`.
pub open spec fn array_item_target(item: JsonValue) -> Option<BiasTargetView> {
    match item {
        JsonValue::Array(pair) => if pair@.len() == 2 && is_bias_value(pair@[1]) {
            match value_as_i64(pair@[0]) {
                Some(t) => Some(BiasTargetView::Token(t as i32)),
                None => match pair@[0] {
                    JsonValue::String(s) => Some(BiasTargetView::Text(s@)),
                    _ => None,
                },
            }
        } else {
            None
        },
        _ => None,
    }
}

/// The target of an object entry `"key": bias`: a key `strtol` reads in
/// full is a token id, any other key a text.
pub open spec fn object_entry_target(entry: (String, JsonValue)) -> Option<BiasTargetView> {
    if is_bias_value(entry.1) {
        match strtol_exact_spec(encode_utf8(entry.0@)) {
            Some(t) => Some(BiasTargetView::Token(t)),
            None => Some(BiasTargetView::Text(entry.0@)),
        }
    } else {
        None
    }
}

/// The targets of the first `n` items, each with its position, in order.
pub open spec fn array_bias_keys(items: Seq<JsonValue>, n: int) -> Seq<(BiasTargetView, int)>
    decreases n,
{
    if n <= 0 {
        Seq::empty()
    } else {
        let before = array_bias_keys(items, n - 1);
        match array_item_target(items[n - 1]) {
            Some(t) => before.push((t, n - 1)),
            None => before,
        }
    }
}

/// The targets of the first `n` object entries, each with its position.
pub open spec fn object_bias_keys(entries: Seq<(String, JsonValue)>, n: int) -> Seq<
    (BiasTargetView, int),
>
    decreases n,
{
    if n <= 0 {
        Seq::empty()
    } else {
        let before = object_bias_keys(entries, n - 1);
        match object_entry_target(entries[n - 1]) {
            Some(t) => before.push((t, n - 1)),
            None => before,
        }
    }
}

/// What `logit_bias` parses to; any other JSON gives no entry.
pub open spec fn logit_bias_spec(value: Option<JsonValue>) -> Seq<(BiasTargetView, int)> {
    match value {
        Some(JsonValue::Array(items)) => array_bias_keys(items@, items@.len() as int),
        Some(JsonValue::Object(entries)) => object_bias_keys(entries@, entries@.len() as int),
        _ => Seq::empty(),
    }
}

/// The plain view of parsed entries.
pub open spec fn bias_keys_view(keys: Seq<LogitBiasKey>) -> Seq<(BiasTargetView, int)> {
    keys.map_values(|k: LogitBiasKey| (target_view(k.target), k.source as int))
}

fn is_bias_value_exec(v: &JsonValue) -> (r: bool)
    ensures
        r == is_bias_value(*v),
{
    match v {
        JsonValue::Number(_) => true,
        JsonValue::Bool(b) => !*b,
        _ => false,
    }
}

/// Reads `logit_bias` in either of its forms: an array of
/// `[token_or_text, bias]` pairs, or an object from keys to biases. Items
/// without a usable bias are skipped.
pub fn parse_logit_bias(value: Option<&JsonValue>) -> (r: Vec<LogitBiasKey>)
    ensures
        bias_keys_view(r@) == logit_bias_spec(match value {
            Some(v) => Some(*v),
            None => None,
        }),
{
    let mut out: Vec<LogitBiasKey> = Vec::new();
    match value {
        Some(JsonValue::Array(items)) => {
            let mut i: usize = 0;
            while i < items.len()
                invariant
                    i <= items@.len(),
                    bias_keys_view(out@) == array_bias_keys(items@, i as int),
                decreases items@.len() - i,
            {
                match &items[i] {
                    JsonValue::Array(pair) => {
                        if pair.len() == 2 && is_bias_value_exec(&pair[1]) {
                            match pair[0].as_i64() {
                                Some(t) => {
                                    out.push(LogitBiasKey { target: BiasTarget::Token(t as i32), source: i });
                                },
                                None => match &pair[0] {
                                    JsonValue::String(text) => {
                                        out.push(
                                            LogitBiasKey { target: BiasTarget::Text(text.clone()), source: i },
                                        );
                                    },
                                    _ => {},
                                },
                            }
                        }
                    },
                    _ => {},
                }
                assert(bias_keys_view(out@) =~= array_bias_keys(items@, i + 1));
                i = i + 1;
            }
        },
        Some(JsonValue::Object(entries)) => {
            let mut i: usize = 0;
            while i < entries.len()
                invariant
                    i <= entries@.len(),
                    bias_keys_view(out@) == object_bias_keys(entries@, i as int),
                decreases entries@.len() - i,
            {
                if is_bias_value_exec(&entries[i].1) {
                    match strtol_exact(entries[i].0.as_str()) {
                        Some(t) => {
                            out.push(LogitBiasKey { target: BiasTarget::Token(t), source: i });
                        },
                        None => {
                            out.push(
                                LogitBiasKey { target: BiasTarget::Text(entries[i].0.clone()), source: i },
                            );
                        },
                    }
                }
                assert(bias_keys_view(out@) =~= object_bias_keys(entries@, i + 1));
                i = i + 1;
            }
        },
        _ => {},
    }
    out
}

/// The stages of a sampler chain, in the order they run.
#[derive(Debug, Clone, Copy, PartialEq, Eq, Structural)]
pub enum SamplerStage {
    LogitBias,
    Temp,
    Mirostat,
    MirostatV2,
    Penalties,
    Dry,
    TopK,
    Typical,
    TopP,
    MinP,
    Xtc,
    TempExt,
    Dist,
}

/// The chain a request samples with: the biases first when there are any,
/// then either a Mirostat sampler (versions 1 and 2) behind a temperature,
/// or the full chain that ends in a seeded draw.
pub open spec fn sampler_stages_spec(has_biases: bool, mirostat: i32) -> Seq<SamplerStage> {
    let head = if has_biases {
        seq![SamplerStage::LogitBias]
    } else {
        Seq::empty()
    };
    head + if mirostat == 1 {
        seq![SamplerStage::Temp, SamplerStage::Mirostat]
    } else if mirostat == 2 {
        seq![SamplerStage::Temp, SamplerStage::MirostatV2]
    } else {
        seq![
            SamplerStage::Penalties,
            SamplerStage::Dry,
            SamplerStage::TopK,
            SamplerStage::Typical,
            SamplerStage::TopP,
            SamplerStage::MinP,
            SamplerStage::Xtc,
            SamplerStage::TempExt,
            SamplerStage::Dist,
        ]
    }
}

/// The stages of the sampler chain.
pub fn sampler_stages(has_biases: bool, mirostat: i32) -> (r: Vec<SamplerStage>)
    ensures
        r@ == sampler_stages_spec(has_biases, mirostat),
{
    let mut out: Vec<SamplerStage> = Vec::new();
    if has_biases {
        out.push(SamplerStage::LogitBias);
    }
    if mirostat == 1 {
        out.push(SamplerStage::Temp);
        out.push(SamplerStage::Mirostat);
    } else if mirostat == 2 {
        out.push(SamplerStage::Temp);
        out.push(SamplerStage::MirostatV2);
    } else {
        out.push(SamplerStage::Penalties);
        out.push(SamplerStage::Dry);
        out.push(SamplerStage::TopK);
        out.push(SamplerStage::Typical);
        out.push(SamplerStage::TopP);
        out.push(SamplerStage::MinP);
        out.push(SamplerStage::Xtc);
        out.push(SamplerStage::TempExt);
        out.push(SamplerStage::Dist);
    }
    assert(out@ =~= sampler_stages_spec(has_biases, mirostat));
    out
}

/// Logit biases come first and change nothing else: with biases, the chain
/// is the `LogitBias` stage followed by the very chain without biases, for
/// every Mirostat setting; without biases no stage applies them. Mirostat 1
/// and 2 sample with their Mirostat sampler behind a temperature; any other
/// setting ends in a seeded draw after the penalties.
pub proof fn law_biases_lead_the_chain(mirostat: i32)
    ensures
        sampler_stages_spec(true, mirostat) == seq![SamplerStage::LogitBias] + sampler_stages_spec(
            false,
            mirostat,
        ),
        !sampler_stages_spec(false, mirostat).contains(SamplerStage::LogitBias),
        sampler_stages_spec(true, mirostat)[0] == SamplerStage::LogitBias,
        mirostat == 1 ==> sampler_stages_spec(false, mirostat) == seq![SamplerStage::Temp, SamplerStage::Mirostat],
        mirostat == 2 ==> sampler_stages_spec(false, mirostat) == seq![SamplerStage::Temp, SamplerStage::MirostatV2],
        (mirostat != 1 && mirostat != 2) ==> {
            &&& sampler_stages_spec(false, mirostat)[0] == SamplerStage::Penalties
            &&& sampler_stages_spec(false, mirostat).last() == SamplerStage::Dist
            &&& sampler_stages_spec(false, mirostat).len() == 9
        },
{
    let tail = sampler_stages_spec(false, mirostat);
    assert(sampler_stages_spec(true, mirostat) =~= seq![SamplerStage::LogitBias] + tail);
    assert(Seq::<SamplerStage>::empty() + tail =~= tail);
    if tail.contains(SamplerStage::LogitBias) {
        let i = choose|i: int| 0 <= i < tail.len() && tail[i] == SamplerStage::LogitBias;
        assert(tail[i] != SamplerStage::LogitBias);
    }
}

/// Whether a token bias applies: the id must be in the vocabulary.
pub fn token_in_vocab(token: i32, n_vocab: i32) -> (r: bool)
    ensures
        r == (0 <= token < n_vocab),
{
    token >= 0 && token < n_vocab
}

/// Whether `s` holds a NUL character.
pub fn contains_nul(s: &str) -> (r: bool)
    ensures
        r == s@.contains('\0'),
{
    let n = s.unicode_len();
    let mut i: usize = 0;
    while i < n
        invariant
            i <= n,
            n == s@.len(),
            forall|j: int| 0 <= j < i ==> s@[j] != '\0',
        decreases n - i,
    {
        if s.get_char(i) == '\0' {
            assert(s@[i as int] == '\0');
            return true;
        }
        i = i + 1;
    }
    false
}

/// The sequence breakers handed to the DRY sampler: those without a NUL
/// character, in order.
pub fn dry_breakers_without_nul(breakers: &Vec<String>) -> (r: Vec<String>)
    ensures
        r@.map_values(|s: String| s@) == breakers@.map_values(|s: String| s@).filter(
            |s: Seq<char>| !s.contains('\0'),
        ),
{
    let ghost pred = |s: Seq<char>| !s.contains('\0');
    let ghost all = breakers@.map_values(|s: String| s@);
    let mut out: Vec<String> = Vec::new();
    let mut i: usize = 0;
    while i < breakers.len()
        invariant
            i <= breakers@.len(),
            all == breakers@.map_values(|s: String| s@),
            pred == (|s: Seq<char>| !s.contains('\0')),
            out@.map_values(|s: String| s@) == all.subrange(0, i as int).filter(pred),
        decreases breakers@.len() - i,
    {
        if !contains_nul(breakers[i].as_str()) {
            out.push(breakers[i].clone());
        }
        proof {
            let sub = all.subrange(0, i + 1);
            assert(sub.drop_last() =~= all.subrange(0, i as int));
            assert(sub.last() == breakers@[i as int]@);
            reveal_with_fuel(Seq::filter, 1);
            assert(out@.map_values(|s: String| s@) =~= sub.filter(pred));
        }
        i = i + 1;
    }
    assert(all.subrange(0, breakers@.len() as int) =~= all);
    out
}

} // verus!
