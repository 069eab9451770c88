//! The parts of a chat request that are read as they stand.
use vstd::prelude::*;
use crate::json::{json_get, JsonValue};

verus! {

/// The `messages` of a chat request, or `null` when it has none. The value
/// is moved out of the payload, which is not needed afterwards.
pub fn normalize_messages(payload: JsonValue) -> (r: JsonValue)
    ensures
        r == match json_get(payload, "messages"@) {
            Some(messages) => messages,
            None => JsonValue::Null,
        },
{
    match payload.into_field("messages") {
        Some(messages) => messages,
        None => JsonValue::Null,
    }
}

/// The `multimodal_data` of a request, when it has some, moved out of the
/// payload.
pub fn extract_multimodal_payload(payload: JsonValue) -> (r: Option<JsonValue>)
    ensures
        r == json_get(payload, "multimodal_data"@),
{
    payload.into_field("multimodal_data")
}

} // verus!
