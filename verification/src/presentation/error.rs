//! Application-level HTTP error handling.
//!
//! Maps domain errors into HTTP responses.

use vstd::prelude::*;

use crate::domain::error::LlmError;

verus! {

/// Top-level HTTP error returned by all API handlers.
#[derive(Debug)]
pub enum AppError {
    BadRequest(String),
    NotFound(String),
    Unauthorized,
    LlmError(String),
    Internal(String),
}

/// What a client is told of an error: the status code, the kind of error and
/// a message.
pub struct ErrorReply {
    pub status: u16,
    pub error: String,
    pub message: String,
}

/// The texts of an `ErrorReply`.
pub struct ErrorReplyView {
    pub status: u16,
    pub error: Seq<char>,
    pub message: Seq<char>,
}

impl View for ErrorReply {
    type V = ErrorReplyView;

    open spec fn view(&self) -> ErrorReplyView {
        ErrorReplyView { status: self.status, error: self.error@, message: self.message@ }
    }
}

impl AppError {
    /// What the error says.
    pub open spec fn text(self) -> Seq<char> {
        match self {
            AppError::BadRequest(msg) => "Bad request: "@ + msg@,
            AppError::NotFound(msg) => "Not found: "@ + msg@,
            AppError::Unauthorized => "Authentication failed"@,
            AppError::LlmError(msg) => "Model error: "@ + msg@,
            AppError::Internal(msg) => "Internal error: "@ + msg@,
        }
    }

    /// What a client is told. What went wrong inside the server is not for it.
    pub open spec fn reply_view(self) -> ErrorReplyView {
        match self {
            AppError::BadRequest(msg) => ErrorReplyView {
                status: 400,
                error: "bad_request"@,
                message: msg@,
            },
            AppError::NotFound(msg) => ErrorReplyView {
                status: 404,
                error: "not_found"@,
                message: msg@,
            },
            AppError::Unauthorized => ErrorReplyView {
                status: 401,
                error: "unauthorized"@,
                message: "Invalid API key"@,
            },
            AppError::LlmError(_) | AppError::Internal(_) => ErrorReplyView {
                status: 500,
                error: "internal_error"@,
                message: "Internal server error"@,
            },
        }
    }

    /// The error as a message, for the log.
    pub fn message(&self) -> (r: String)
        ensures
            r@ == self.text(),
    {
        match self {
            AppError::BadRequest(msg) => "Bad request: ".to_string().concat(msg.as_str()),
            AppError::NotFound(msg) => "Not found: ".to_string().concat(msg.as_str()),
            AppError::Unauthorized => "Authentication failed".to_string(),
            AppError::LlmError(msg) => "Model error: ".to_string().concat(msg.as_str()),
            AppError::Internal(msg) => "Internal error: ".to_string().concat(msg.as_str()),
        }
    }

    /// The error as an HTTP reply.
    pub fn into_reply(self) -> (r: ErrorReply)
        ensures
            r@ == self.reply_view(),
    {
        match self {
            AppError::BadRequest(msg) => ErrorReply {
                status: 400,
                error: "bad_request".to_string(),
                message: msg,
            },
            AppError::NotFound(msg) => ErrorReply {
                status: 404,
                error: "not_found".to_string(),
                message: msg,
            },
            AppError::Unauthorized => ErrorReply {
                status: 401,
                error: "unauthorized".to_string(),
                message: "Invalid API key".to_string(),
            },
            AppError::LlmError(_) | AppError::Internal(_) => ErrorReply {
                status: 500,
                error: "internal_error".to_string(),
                message: "Internal server error".to_string(),
            },
        }
    }
}

/// The HTTP error of a domain error.
pub open spec fn app_error_of(err: LlmError) -> AppError {
    match err {
        LlmError::InvalidRequest(msg) => AppError::BadRequest(msg),
        LlmError::Model(msg) => AppError::LlmError(msg),
        LlmError::Unauthorized => AppError::Unauthorized,
        LlmError::Internal(msg) => AppError::Internal(msg),
    }
}

impl From<LlmError> for AppError {
    fn from(err: LlmError) -> (r: Self) {
        match err {
            LlmError::InvalidRequest(msg) => AppError::BadRequest(msg),
            LlmError::Model(msg) => AppError::LlmError(msg),
            LlmError::Unauthorized => AppError::Unauthorized,
            LlmError::Internal(msg) => AppError::Internal(msg),
        }
    }
}

impl vstd::std_specs::convert::FromSpecImpl<LlmError> for AppError {
    open spec fn obeys_from_spec() -> bool {
        true
    }

    open spec fn from_spec(err: LlmError) -> Self {
        app_error_of(err)
    }
}

impl From<String> for AppError {
    fn from(s: String) -> (r: Self) {
        AppError::Internal(s)
    }
}

impl vstd::std_specs::convert::FromSpecImpl<String> for AppError {
    open spec fn obeys_from_spec() -> bool {
        true
    }

    open spec fn from_spec(s: String) -> Self {
        AppError::Internal(s)
    }
}

impl From<&str> for AppError {
    fn from(s: &str) -> (r: Self)
        ensures
            r matches AppError::Internal(msg) && msg@ == s@,
    {
        AppError::Internal(s.to_string())
    }
}

impl vstd::std_specs::convert::FromSpecImpl<&str> for AppError {
    open spec fn obeys_from_spec() -> bool {
        false
    }

    open spec fn from_spec(s: &str) -> Self {
        arbitrary()
    }
}

/// A client cannot tell one fault of the server from another: whatever went
/// wrong with the model or inside the server, the reply is the same.
pub proof fn law_faults_look_alike(a: AppError, b: AppError)
    requires
        a is LlmError || a is Internal,
        b is LlmError || b is Internal,
    ensures
        a.reply_view() == b.reply_view(),
        a.reply_view().status == 500,
{
}

/// A domain error is the client's fault, with its message, exactly where the
/// request was invalid.
pub proof fn law_invalid_request_is_bad_request(err: LlmError)
    ensures
        app_error_of(err).reply_view().status == 400 <==> err is InvalidRequest,
        err matches LlmError::InvalidRequest(msg) ==> app_error_of(err).reply_view().message
            == msg@,
{
}

/// A client is told of its own faults, each kind under a status of its own and
/// with the message as it is; a fault of the server is told without a message.
pub proof fn law_client_faults_are_explained(msg: String)
    ensures
        AppError::BadRequest(msg).reply_view().status == 400,
        AppError::BadRequest(msg).reply_view().error == "bad_request"@,
        AppError::BadRequest(msg).reply_view().message == msg@,
        AppError::NotFound(msg).reply_view().status == 404,
        AppError::NotFound(msg).reply_view().error == "not_found"@,
        AppError::NotFound(msg).reply_view().message == msg@,
        AppError::Unauthorized.reply_view().status == 401,
        AppError::Unauthorized.reply_view().error == "unauthorized"@,
        AppError::Unauthorized.reply_view().message == "Invalid API key"@,
        AppError::LlmError(msg).reply_view().error == "internal_error"@,
        AppError::LlmError(msg).reply_view().message == "Internal server error"@,
{
}

/// `text` is `prefix` and then `msg`.
pub open spec fn says(text: Seq<char>, prefix: Seq<char>, msg: Seq<char>) -> bool {
    &&& text.len() == prefix.len() + msg.len()
    &&& text.take(prefix.len() as int) == prefix
    &&& text.skip(prefix.len() as int) == msg
}

proof fn lemma_says(prefix: Seq<char>, msg: Seq<char>)
    ensures
        says(prefix + msg, prefix, msg),
{
    assert((prefix + msg).take(prefix.len() as int) =~= prefix);
    assert((prefix + msg).skip(prefix.len() as int) =~= msg);
}

/// The log says of every error what kind it is and then its message, and an
/// error of the model says the same whether it is told by the engine or by a
/// handler.
pub proof fn law_log_tells_kind_and_message(msg: String, err: LlmError)
    ensures
        says(AppError::BadRequest(msg).text(), "Bad request: "@, msg@),
        says(AppError::NotFound(msg).text(), "Not found: "@, msg@),
        says(AppError::LlmError(msg).text(), "Model error: "@, msg@),
        says(AppError::Internal(msg).text(), "Internal error: "@, msg@),
        says(LlmError::InvalidRequest(msg).text(), "Invalid request: "@, msg@),
        says(LlmError::Model(msg).text(), "Model error: "@, msg@),
        says(LlmError::Internal(msg).text(), "Internal error: "@, msg@),
        LlmError::Unauthorized.text() == "Authentication failed"@,
        !(err is InvalidRequest) ==> app_error_of(err).text() == err.text(),
        err matches LlmError::InvalidRequest(m) ==> says(
            app_error_of(err).text(),
            "Bad request: "@,
            m@,
        ),
{
    lemma_says("Bad request: "@, msg@);
    lemma_says("Not found: "@, msg@);
    lemma_says("Model error: "@, msg@);
    lemma_says("Internal error: "@, msg@);
    lemma_says("Invalid request: "@, msg@);
    if let LlmError::InvalidRequest(m) = err {
        lemma_says("Bad request: "@, m@);
    }
}

/// The status of a domain error.
pub proof fn law_status_of_domain_error(err: LlmError)
    ensures
        app_error_of(err).reply_view().status == match err {
            LlmError::InvalidRequest(_) => 400u16,
            LlmError::Unauthorized => 401,
            LlmError::Model(_) => 500,
            LlmError::Internal(_) => 500,
        },
{
}

} // verus!
