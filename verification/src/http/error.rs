//! The errors the HTTP layer answers with, and the status, type and
//! message each one is reported with.
use vstd::prelude::*;
use crate::engine::task::TaskError;
use crate::json::{JsonNumber, JsonValue};

verus! {

/// An error response.
#[derive(Debug)]
pub enum AppError {
    InvalidRequest(String),
    Unauthorized,
    NotSupported(String),
    Unavailable(String),
    Timeout(String),
    Internal(String),
}

/// The variant a task error is reported as, chosen by its status code.
pub open spec fn app_error_from_task(err: TaskError) -> AppError {
    if err.code == 400 {
        AppError::InvalidRequest(err.message)
    } else if err.code == 501 {
        AppError::NotSupported(err.message)
    } else if err.code == 503 {
        AppError::Unavailable(err.message)
    } else if err.code == 504 {
        AppError::Timeout(err.message)
    } else {
        AppError::Internal(err.message)
    }
}

impl From<TaskError> for AppError {
    fn from(err: TaskError) -> (r: Self) {
        if err.code == 400 {
            AppError::InvalidRequest(err.message)
        } else if err.code == 501 {
            AppError::NotSupported(err.message)
        } else if err.code == 503 {
            AppError::Unavailable(err.message)
        } else if err.code == 504 {
            AppError::Timeout(err.message)
        } else {
            AppError::Internal(err.message)
        }
    }
}

impl vstd::std_specs::convert::FromSpecImpl<TaskError> for AppError {
    open spec fn obeys_from_spec() -> bool {
        true
    }

    open spec fn from_spec(v: TaskError) -> AppError {
        app_error_from_task(v)
    }
}

/// The HTTP status of each variant.
pub open spec fn status_spec(e: AppError) -> u16 {
    match e {
        AppError::InvalidRequest(_) => 400,
        AppError::Unauthorized => 401,
        AppError::NotSupported(_) => 501,
        AppError::Unavailable(_) => 503,
        AppError::Timeout(_) => 504,
        AppError::Internal(_) => 500,
    }
}

/// The error type reported for each variant.
pub open spec fn error_type_spec(e: AppError) -> Seq<char> {
    match e {
        AppError::InvalidRequest(_) => "invalid_request_error"@,
        AppError::Unauthorized => "authentication_error"@,
        AppError::NotSupported(_) => "not_supported_error"@,
        AppError::Unavailable(_) => "unavailable_error"@,
        AppError::Timeout(_) => "timeout_error"@,
        AppError::Internal(_) => "server_error"@,
    }
}

/// The message reported for each variant; a failed authentication never
/// says more than that the key is invalid.
pub open spec fn message_spec(e: AppError) -> Seq<char> {
    match e {
        AppError::InvalidRequest(m) => m@,
        AppError::Unauthorized => "Invalid API Key"@,
        AppError::NotSupported(m) => m@,
        AppError::Unavailable(m) => m@,
        AppError::Timeout(m) => m@,
        AppError::Internal(m) => m@,
    }
}

/// The body of an error response:
/// `{"error": {"message": .., "type": .., "code": ..}}`.
pub open spec fn is_error_body(v: JsonValue, status: u16, error_type: Seq<char>, message: Seq<char>) -> bool {
    &&& v matches JsonValue::Object(outer)
    &&& outer@.len() == 1
    &&& outer@[0].0@ == "error"@
    &&& outer@[0].1 matches JsonValue::Object(inner)
    &&& inner@.len() == 3
    &&& inner@[0].0@ == "message"@
    &&& inner@[0].1 matches JsonValue::String(m) && m@ == message
    &&& inner@[1].0@ == "type"@
    &&& inner@[1].1 matches JsonValue::String(t) && t@ == error_type
    &&& inner@[2].0@ == "code"@
    &&& inner@[2].1 == JsonValue::Number(JsonNumber::PosInt(status as u64))
}

impl AppError {
    /// The HTTP status code of the response.
    pub fn status(&self) -> (s: u16)
        ensures
            s == status_spec(*self),
    {
        match self {
            AppError::InvalidRequest(_) => 400,
            AppError::Unauthorized => 401,
            AppError::NotSupported(_) => 501,
            AppError::Unavailable(_) => 503,
            AppError::Timeout(_) => 504,
            AppError::Internal(_) => 500,
        }
    }

    /// The error type named in the response body.
    pub fn error_type(&self) -> (t: &'static str)
        ensures
            t@ == error_type_spec(*self),
    {
        match self {
            AppError::InvalidRequest(_) => "invalid_request_error",
            AppError::Unauthorized => "authentication_error",
            AppError::NotSupported(_) => "not_supported_error",
            AppError::Unavailable(_) => "unavailable_error",
            AppError::Timeout(_) => "timeout_error",
            AppError::Internal(_) => "server_error",
        }
    }

    /// The message of the response body.
    pub fn message(&self) -> (m: String)
        ensures
            m@ == message_spec(*self),
    {
        match self {
            AppError::InvalidRequest(m) => m.clone(),
            AppError::Unauthorized => String::from_str("Invalid API Key"),
            AppError::NotSupported(m) => m.clone(),
            AppError::Unavailable(m) => m.clone(),
            AppError::Timeout(m) => m.clone(),
            AppError::Internal(m) => m.clone(),
        }
    }

    /// The JSON body of the response.
    pub fn body(&self) -> (v: JsonValue)
        ensures
            is_error_body(v, status_spec(*self), error_type_spec(*self), message_spec(*self)),
    {
        let mut inner: Vec<(String, JsonValue)> = Vec::new();
        inner.push((String::from_str("message"), JsonValue::String(self.message())));
        inner.push((String::from_str("type"), JsonValue::String(String::from_str(self.error_type()))));
        inner.push(
            (String::from_str("code"), JsonValue::Number(JsonNumber::PosInt(self.status() as u64))),
        );
        let mut outer: Vec<(String, JsonValue)> = Vec::new();
        outer.push((String::from_str("error"), JsonValue::Object(inner)));
        JsonValue::Object(outer)
    }
}

/// A task error keeps its status when the HTTP layer knows that status
/// (400, 501, 503, 504) and becomes a 500 otherwise; its message is kept.
pub proof fn law_task_error_status(err: TaskError)
    ensures
        status_spec(app_error_from_task(err)) == (if err.code == 400 || err.code == 501 || err.code
            == 503 || err.code == 504 {
            err.code
        } else {
            500
        }),
        message_spec(app_error_from_task(err)) == err.message@,
{
}

} // verus!
