//! The message model: requests, responses and notifications, as the wire
//! protocol distinguishes them.

use vstd::prelude::*;

verus! {

/// A request identifier: the wire format allows a number or a string.
/// Identifiers this client allocates are always numeric.
#[derive(Debug)]
pub enum RequestId {
    Num(u64),
    Text(String),
}

/// The error member of a failed response: a code, a human-readable message,
/// and optional structured data.
#[derive(Debug)]
pub struct ErrorInfo {
    pub code: i64,
    pub message: String,
    pub data: Option<serde_json::Value>,
}

/// The payload of a response: exactly one of a success result or an error.
#[derive(Debug)]
pub enum Outcome {
    Success(serde_json::Value),
    Failure(ErrorInfo),
}

/// One protocol message.
#[derive(Debug)]
pub enum Message {
    /// Carries an identifier and expects a matching response.
    Request { id: RequestId, method: String, params: Option<serde_json::Value> },
    /// Answers the request with the same identifier.
    Response { id: RequestId, outcome: Outcome },
    /// Fire-and-forget: no identifier, never answered.
    Notification { method: String, params: Option<serde_json::Value> },
}

} // verus!
