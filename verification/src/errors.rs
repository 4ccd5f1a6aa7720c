//! The error taxonomy of the platform and its wire form: a code, a message,
//! optional structured details, and an HTTP status.

use vstd::prelude::*;

use crate::json;
use crate::json::{JVal, JsonValue};
use crate::text;

verus! {

/// Application errors, one variant per kind of failure.
#[derive(Debug)]
pub enum NexusError {
    NotFound { resource: String, id: String },
    InvalidInput { field: String, message: String },
    ConfigError { message: String },
    NatsError { message: String },
    WasmError { function: String, message: String },
    InternalError { message: String },
}

/// The body of an error response.
#[derive(Debug)]
pub struct ErrorDetail {
    pub code: String,
    pub message: String,
    pub details: Option<JsonValue>,
}

/// The wire form of an error: `{error: {code, message, details?}, trace_id?}`.
#[derive(Debug)]
pub struct ErrorResponse {
    pub error: ErrorDetail,
    pub trace_id: Option<String>,
}

/// The stable error code of each kind.
pub open spec fn code_of(e: NexusError) -> Seq<char> {
    match e {
        NexusError::NotFound { .. } => "NOT_FOUND"@,
        NexusError::InvalidInput { .. } => "INVALID_INPUT"@,
        NexusError::ConfigError { .. } => "CONFIG_ERROR"@,
        NexusError::NatsError { .. } => "NATS_ERROR"@,
        NexusError::WasmError { .. } => "WASM_ERROR"@,
        NexusError::InternalError { .. } => "INTERNAL_ERROR"@,
    }
}

/// The HTTP status of each kind.
pub open spec fn status_of(e: NexusError) -> int {
    match e {
        NexusError::NotFound { .. } => 404,
        NexusError::InvalidInput { .. } => 400,
        NexusError::ConfigError { .. } => 500,
        NexusError::NatsError { .. } => 503,
        NexusError::WasmError { .. } => 500,
        NexusError::InternalError { .. } => 500,
    }
}

/// The message of the wire form.
pub open spec fn message_of(e: NexusError) -> Seq<char> {
    match e {
        NexusError::NotFound { resource, id } => resource@ + " not found: "@ + id@,
        NexusError::InvalidInput { message, .. } => message@,
        NexusError::ConfigError { message } => message@,
        NexusError::NatsError { message } => message@,
        NexusError::WasmError { message, .. } => message@,
        NexusError::InternalError { message } => message@,
    }
}

/// The structured details of the wire form, for the kinds that carry any.
pub open spec fn details_of(e: NexusError) -> Option<JVal> {
    match e {
        NexusError::NotFound { resource, id } => Some(
            JVal::Obj(
                seq![("resource"@, JVal::Str(resource@)), ("id"@, JVal::Str(id@))],
            ),
        ),
        NexusError::InvalidInput { field, .. } => Some(
            JVal::Obj(seq![("field"@, JVal::Str(field@))]),
        ),
        NexusError::WasmError { function, .. } => Some(
            JVal::Obj(seq![("function"@, JVal::Str(function@))]),
        ),
        _ => None,
    }
}

/// The single-line text of each kind, as a log line shows it.
pub open spec fn display_of(e: NexusError) -> Seq<char> {
    match e {
        NexusError::NotFound { resource, id } => resource@ + " not found: "@ + id@,
        NexusError::InvalidInput { field, message } => "Invalid input for "@ + field@ + ": "@
            + message@,
        NexusError::ConfigError { message } => "Configuration error: "@ + message@,
        NexusError::NatsError { message } => "NATS error: "@ + message@,
        NexusError::WasmError { function, message } => "WASM execution error in "@ + function@
            + ": "@ + message@,
        NexusError::InternalError { message } => "Internal error: "@ + message@,
    }
}

impl NexusError {
    /// The HTTP status code of this error.
    pub fn status_code(&self) -> (r: u16)
        ensures
            r as int == status_of(*self),
    {
        match self {
            NexusError::NotFound { .. } => 404,
            NexusError::InvalidInput { .. } => 400,
            NexusError::ConfigError { .. } => 500,
            NexusError::NatsError { .. } => 503,
            NexusError::WasmError { .. } => 500,
            NexusError::InternalError { .. } => 500,
        }
    }

    /// The single-line text of this error.
    pub fn display_string(&self) -> (r: String)
        ensures
            r@ == display_of(*self),
    {
        match self {
            NexusError::NotFound { resource, id } => {
                let m = text::concat_str(resource.as_str(), " not found: ");
                text::concat_str(m.as_str(), id.as_str())
            },
            NexusError::InvalidInput { field, message } => {
                let m = text::concat_str("Invalid input for ", field.as_str());
                let m = text::concat_str(m.as_str(), ": ");
                text::concat_str(m.as_str(), message.as_str())
            },
            NexusError::ConfigError { message } => text::concat_str(
                "Configuration error: ",
                message.as_str(),
            ),
            NexusError::NatsError { message } => text::concat_str(
                "NATS error: ",
                message.as_str(),
            ),
            NexusError::WasmError { function, message } => {
                let m = text::concat_str("WASM execution error in ", function.as_str());
                let m = text::concat_str(m.as_str(), ": ");
                text::concat_str(m.as_str(), message.as_str())
            },
            NexusError::InternalError { message } => text::concat_str(
                "Internal error: ",
                message.as_str(),
            ),
        }
    }

    /// The wire form of this error, carrying the given trace id.
    pub fn to_response(&self, trace_id: Option<String>) -> (r: ErrorResponse)
        ensures
            r.error.code@ == code_of(*self),
            r.error.message@ == message_of(*self),
            match r.error.details {
                None => details_of(*self) is None,
                Some(d) => details_of(*self) == Some(json::jval_of(d)),
            },
            match (r.trace_id, trace_id) {
                (None, None) => true,
                (Some(a), Some(b)) => a@ == b@,
                _ => false,
            },
    {
        match self {
            NexusError::NotFound { resource, id } => {
                let m = text::concat_str(resource.as_str(), " not found: ");
                let message = text::concat_str(m.as_str(), id.as_str());
                let mut members: Vec<(String, JsonValue)> = Vec::new();
                members.push((String::from_str("resource"), JsonValue::Str(resource.clone())));
                members.push((String::from_str("id"), JsonValue::Str(id.clone())));
                proof {
                    json::lemma_jmembers_of_index(members@);
                    assert(json::jmembers_of(members@) =~= seq![
                        ("resource"@, JVal::Str(resource@)),
                        ("id"@, JVal::Str(id@)),
                    ]);
                }
                ErrorResponse {
                    error: ErrorDetail {
                        code: String::from_str("NOT_FOUND"),
                        message,
                        details: Some(JsonValue::Obj(members)),
                    },
                    trace_id,
                }
            },
            NexusError::InvalidInput { field, message } => {
                let mut members: Vec<(String, JsonValue)> = Vec::new();
                members.push((String::from_str("field"), JsonValue::Str(field.clone())));
                proof {
                    json::lemma_jmembers_of_index(members@);
                    assert(json::jmembers_of(members@) =~= seq![("field"@, JVal::Str(field@))]);
                }
                ErrorResponse {
                    error: ErrorDetail {
                        code: String::from_str("INVALID_INPUT"),
                        message: message.clone(),
                        details: Some(JsonValue::Obj(members)),
                    },
                    trace_id,
                }
            },
            NexusError::ConfigError { message } => ErrorResponse {
                error: ErrorDetail {
                    code: String::from_str("CONFIG_ERROR"),
                    message: message.clone(),
                    details: None,
                },
                trace_id,
            },
            NexusError::NatsError { message } => ErrorResponse {
                error: ErrorDetail {
                    code: String::from_str("NATS_ERROR"),
                    message: message.clone(),
                    details: None,
                },
                trace_id,
            },
            NexusError::WasmError { function, message } => {
                let mut members: Vec<(String, JsonValue)> = Vec::new();
                members.push((String::from_str("function"), JsonValue::Str(function.clone())));
                proof {
                    json::lemma_jmembers_of_index(members@);
                    assert(json::jmembers_of(members@) =~= seq![
                        ("function"@, JVal::Str(function@)),
                    ]);
                }
                ErrorResponse {
                    error: ErrorDetail {
                        code: String::from_str("WASM_ERROR"),
                        message: message.clone(),
                        details: Some(JsonValue::Obj(members)),
                    },
                    trace_id,
                }
            },
            NexusError::InternalError { message } => ErrorResponse {
                error: ErrorDetail {
                    code: String::from_str("INTERNAL_ERROR"),
                    message: message.clone(),
                    details: None,
                },
                trace_id,
            },
        }
    }
}

} // verus!
