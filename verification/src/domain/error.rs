//! Domain-level error types.
//!
//! Framework-agnostic errors that can be mapped to HTTP errors at the
//! presentation layer.

use vstd::prelude::*;

verus! {

/// Errors originating from LLM inference operations.
#[derive(Debug)]
pub enum LlmError {
    /// Invalid request parameters
    InvalidRequest(String),
    /// Model or inference error
    Model(String),
    /// Authentication failure
    Unauthorized,
    /// Internal/unexpected error
    Internal(String),
}

impl LlmError {
    /// What the error says.
    pub open spec fn text(self) -> Seq<char> {
        match self {
            LlmError::InvalidRequest(msg) => "Invalid request: "@ + msg@,
            LlmError::Model(msg) => "Model error: "@ + msg@,
            LlmError::Unauthorized => "Authentication failed"@,
            LlmError::Internal(msg) => "Internal error: "@ + msg@,
        }
    }

    /// The error as a message.
    pub fn message(&self) -> (r: String)
        ensures
            r@ == self.text(),
    {
        match self {
            LlmError::InvalidRequest(msg) => "Invalid request: ".to_string().concat(msg.as_str()),
            LlmError::Model(msg) => "Model error: ".to_string().concat(msg.as_str()),
            LlmError::Unauthorized => "Authentication failed".to_string(),
            LlmError::Internal(msg) => "Internal error: ".to_string().concat(msg.as_str()),
        }
    }
}

impl From<String> for LlmError {
    fn from(s: String) -> (r: Self) {
        LlmError::Internal(s)
    }
}

impl vstd::std_specs::convert::FromSpecImpl<String> for LlmError {
    open spec fn obeys_from_spec() -> bool {
        true
    }

    open spec fn from_spec(s: String) -> Self {
        LlmError::Internal(s)
    }
}

impl From<&str> for LlmError {
    fn from(s: &str) -> (r: Self)
        ensures
            r matches LlmError::Internal(msg) && msg@ == s@,
    {
        LlmError::Internal(s.to_string())
    }
}

impl vstd::std_specs::convert::FromSpecImpl<&str> for LlmError {
    open spec fn obeys_from_spec() -> bool {
        false
    }

    open spec fn from_spec(s: &str) -> Self {
        arbitrary()
    }
}

} // verus!
