//! Chat completions endpoint.
//!
//! What a request is granted before anything is generated, and what is
//! answered when everything has been generated at once.

use vstd::prelude::*;

use super::error::{app_error_of, AppError, ErrorReplyView};
use super::metrics::{count_aborted, count_error, count_request, record_tokens, Metrics};
use crate::application::chat::cleaning::reasoning_and_answer;
use crate::application::chat::markup::unless_empty;
use crate::application::chat::prompt::{
    build_prompt, prompt_context, prompt_of, prompt_view, CHAT_TEMPLATE,
};
use crate::application::chat::request::{
    granted_tokens, is_served, token_limit, unknown_model, validate_model,
};
use crate::application::chat::tool_calls::{answer_beside_calls, calls_in, calls_match};
use crate::domain::entity::{
    calls_view, usage_of, ChatRequest, ChatResponse, ChatResponseView, Choice, ChoiceView,
    FinishReason, ResponseMessage, ResponseMessageView, ToolCall, ToolCallView, Usage,
};
use crate::domain::error::LlmError;
use crate::identity::{is_completion_id, new_completion_id, now_timestamp};
use crate::infrastructure::generation::GenerationOutcome;
use crate::template::rendered;
use crate::text::texts_of;

verus! {

// ---------------------------------------------------------------------------
// Granting a request
// ---------------------------------------------------------------------------

/// What a granted request gets.
pub struct ChatPlan {
    /// The number of tokens that may be generated.
    pub max_tokens: u32,
    /// The texts that end the generation.
    pub stop: Vec<String>,
    /// The prompt.
    pub prompt: String,
    /// The answer is streamed.
    pub streaming: bool,
}

/// The stop sequences of a request.
pub open spec fn stop_of(req: ChatRequest) -> Seq<Seq<char>> {
    match req.stop {
        Some(stop) => texts_of(stop@),
        None => Seq::empty(),
    }
}

/// The request asks for a stream.
pub open spec fn streams(req: ChatRequest) -> bool {
    req.stream == Some(true)
}

/// A request whose prompt was built is granted; one whose prompt was not is
/// refused with what went wrong.
pub open spec fn planned(
    r: Result<ChatPlan, AppError>,
    req: ChatRequest,
    cap: u32,
    prompt: Result<Seq<char>, Seq<char>>,
) -> bool {
    match prompt {
        Ok(p) => r matches Ok(plan) && {
            &&& plan.max_tokens == granted_tokens(req.max_tokens, cap)
            &&& texts_of(plan.stop@) == stop_of(req)
            &&& plan.prompt@ == p
            &&& plan.streaming == streams(req)
        },
        Err(e) => r matches Err(AppError::LlmError(msg)) && msg@ == e,
    }
}

fn copy_texts(texts: &Vec<String>) -> (r: Vec<String>)
    ensures
        texts_of(r@) == texts_of(texts@),
{
    let mut r: Vec<String> = Vec::new();
    for i in 0..texts.len()
        invariant
            texts_of(r@) == texts_of(texts@).take(i as int),
    {
        let ghost before = r@;
        r.push(texts[i].clone());
        assert(texts_of(r@) =~= texts_of(before).push(texts@[i as int]@));
        assert(texts_of(texts@).take(i + 1) =~= texts_of(texts@).take(i as int).push(
            texts@[i as int]@,
        ));
    }
    assert(texts_of(texts@).take(texts@.len() as int) =~= texts_of(texts@));
    r
}

/// What a request for the served model gets, given its prompt.
pub fn plan_chat(req: &ChatRequest, cap: u32, prompt: Result<String, String>) -> (r: Result<
    ChatPlan,
    AppError,
>)
    ensures
        planned(r, *req, cap, prompt_view(prompt)),
{
    match prompt {
        Err(e) => Err(AppError::LlmError(e)),
        Ok(p) => {
            let stop = match &req.stop {
                Some(stop) => copy_texts(stop),
                None => Vec::new(),
            };
            assert(texts_of(stop@) =~= stop_of(*req));
            let streaming = match req.stream {
                Some(b) => b,
                None => false,
            };
            Ok(ChatPlan { max_tokens: token_limit(req.max_tokens, cap), stop, prompt: p, streaming })
        },
    }
}

/// POST /v1/chat/completions — what the request gets under the configured cap
/// on tokens. An unknown model is refused up front. The request is counted, and
/// an error if it is refused.
pub fn chat_completions(metrics: &mut Metrics, req: &ChatRequest, cap: u32) -> (r: Result<
    ChatPlan,
    AppError,
>)
    ensures
        !is_served(req.model@) ==> (r matches Err(e) && e.reply_view() == (ErrorReplyView {
            status: 400,
            error: "bad_request"@,
            message: unknown_model(req.model@),
        })),
        is_served(req.model@) ==> planned(
            r,
            *req,
            cap,
            prompt_of(rendered("chat"@, CHAT_TEMPLATE@, prompt_context(req.messages@, req.tools))),
        ),
        *final(metrics) == old(metrics).after_request(streams(*req)).after_answer(r is Err),
{
    let streaming = match req.stream {
        Some(b) => b,
        None => false,
    };
    count_request(metrics, streaming);
    let r = match validate_model(req.model.as_str()) {
        Err(msg) => Err(AppError::BadRequest(msg)),
        Ok(_) => plan_chat(req, cap, build_prompt(req.messages.as_slice(), &req.tools)),
    };
    if r.is_err() {
        count_error(metrics);
    }
    r
}

/// The tokens of the prompt, or the error that is answered. An error is
/// counted.
pub fn tokenize_result(metrics: &mut Metrics, tokens: Result<Vec<i32>, LlmError>) -> (r: Result<
    Vec<i32>,
    AppError,
>)
    ensures
        match tokens {
            Ok(list) => r == Ok::<Vec<i32>, AppError>(list),
            Err(e) => r matches Err(AppError::LlmError(msg)) && msg@ == e.text(),
        },
        *final(metrics) == old(metrics).after_answer(r is Err),
{
    match tokens {
        Ok(list) => Ok(list),
        Err(e) => {
            count_error(metrics);
            Err(AppError::LlmError(e.message()))
        },
    }
}

// ---------------------------------------------------------------------------
// After the generation
// ---------------------------------------------------------------------------

/// The outcome of a generation task, or the error that it is answered with:
/// the message of a panic, or the error of the engine. An error is counted.
pub fn generation_result(
    metrics: &mut Metrics,
    task: Result<Result<GenerationOutcome, LlmError>, String>,
) -> (r: Result<GenerationOutcome, AppError>)
    ensures
        match task {
            Ok(Ok(outcome)) => r == Ok::<GenerationOutcome, AppError>(outcome),
            Ok(Err(e)) => r == Err::<GenerationOutcome, AppError>(app_error_of(e)),
            Err(panic) => r matches Err(AppError::Internal(msg)) && msg@
                == "Generation task panicked: "@ + panic@,
        },
        *final(metrics) == old(metrics).after_answer(r is Err),
{
    match task {
        Ok(Ok(outcome)) => Ok(outcome),
        Ok(Err(e)) => {
            count_error(metrics);
            Err(AppError::from(e))
        },
        Err(panic) => {
            count_error(metrics);
            Err(
                AppError::Internal(
                    "Generation task panicked: ".to_string().concat(panic.as_str()),
                ),
            )
        },
    }
}

/// The counters after a generation.
pub open spec fn recorded(
    m: Metrics,
    prompt_tokens: u32,
    outcome: GenerationOutcome,
    duration_ms: u64,
) -> Metrics {
    let counted = m.after_tokens(prompt_tokens, outcome.tokens@.len() as u32, duration_ms);
    if outcome.finish == FinishReason::Aborted {
        counted.after_abort()
    } else {
        counted
    }
}

/// Counts a generation.
pub fn record_outcome(
    metrics: &mut Metrics,
    prompt_tokens: u32,
    outcome: &GenerationOutcome,
    duration_ms: u64,
)
    requires
        outcome.tokens@.len() <= u32::MAX,
    ensures
        *final(metrics) == recorded(*old(metrics), prompt_tokens, *outcome, duration_ms),
{
    record_tokens(metrics, prompt_tokens, outcome.tokens.len() as u32, duration_ms);
    if outcome.finish == FinishReason::Aborted {
        count_aborted(metrics);
    }
}

/// The `finish_reason` that is reported: a generation that stopped at a tool
/// call claims one only where a call could be read.
pub open spec fn reported_reason(finish: FinishReason, called: bool) -> Seq<char> {
    if finish == FinishReason::ToolCalls && !called {
        "stop"@
    } else {
        finish.text()
    }
}

/// The `finish_reason` that is reported.
pub fn report_reason(finish: FinishReason, called: bool) -> (r: &'static str)
    ensures
        r@ == reported_reason(finish, called),
{
    if finish == FinishReason::ToolCalls && !called {
        // The model opened a <tool_call> but never completed it.
        "stop"
    } else {
        finish.as_str()
    }
}

/// A tool call is reported only where there is one.
pub proof fn law_reported_calls_exist(finish: FinishReason, called: bool)
    ensures
        reported_reason(finish, called) == "tool_calls"@ <==> finish == FinishReason::ToolCalls
            && called,
{
    reveal_strlit("stop");
    reveal_strlit("length");
    reveal_strlit("tool_calls");
    assert("stop"@.len() != "tool_calls"@.len());
    assert("length"@.len() != "tool_calls"@.len());
}

/// The response of an answer.
pub open spec fn response_view(
    id: Seq<char>,
    created: i64,
    model: Seq<char>,
    reasoning: Seq<char>,
    answer: Seq<char>,
    calls: Seq<ToolCallView>,
    finish: FinishReason,
    usage: Usage,
) -> ChatResponseView {
    ChatResponseView {
        id,
        object: "chat.completion"@,
        created,
        model,
        choices: seq![
            ChoiceView {
                index: 0,
                message: ResponseMessageView {
                    role: "assistant"@,
                    content: Some(answer),
                    reasoning_content: unless_empty(reasoning),
                    tool_calls: if calls.len() == 0 {
                        None
                    } else {
                        Some(calls)
                    },
                },
                finish_reason: reported_reason(finish, calls.len() > 0),
            },
        ],
        usage,
    }
}

/// The response of an answer whose reasoning and tool calls were read.
pub fn assemble_response(
    id: String,
    created: i64,
    model: String,
    reasoning: String,
    answer: String,
    calls: Vec<ToolCall>,
    finish: FinishReason,
    usage: Usage,
) -> (r: ChatResponse)
    ensures
        r@ == response_view(
            id@,
            created,
            model@,
            reasoning@,
            answer@,
            calls_view(calls@),
            finish,
            usage,
        ),
{
    let called = calls.len() > 0;
    let reason = report_reason(finish, called).to_string();
    let tool_calls = if called {
        Some(calls)
    } else {
        None
    };
    let reasoning_content = if reasoning.as_str().is_empty() {
        None
    } else {
        Some(reasoning)
    };
    let message = ResponseMessage {
        role: "assistant".to_string(),
        content: Some(answer),
        reasoning_content,
        tool_calls,
    };
    let r = ChatResponse {
        id,
        object: "chat.completion".to_string(),
        created,
        model,
        choices: vec![Choice { index: 0, message, finish_reason: reason }],
        usage,
    };
    assert(r@.choices =~= response_view(
        id@,
        created,
        model@,
        reasoning@,
        answer@,
        calls_view(calls@),
        finish,
        usage,
    ).choices);
    r
}

/// The tool calls of the first answer of a response.
pub open spec fn answered_calls(r: ChatResponseView) -> Seq<ToolCallView> {
    match r.choices[0].message.tool_calls {
        Some(calls) => calls,
        None => Seq::empty(),
    }
}

/// `r` answers a request for `model` with what was generated: the text is
/// split into reasoning and answer, and the tool calls are read from the
/// answer. Its identifier and its time are its own.
pub open spec fn answers(
    r: ChatResponseView,
    model: Seq<char>,
    prompt_tokens: u32,
    outcome: GenerationOutcome,
    duration_ms: u64,
) -> bool {
    let (reasoning, cleaned) = reasoning_and_answer(outcome.text@);
    &&& is_completion_id(r.id)
    &&& calls_match(answered_calls(r), calls_in(cleaned))
    &&& r == response_view(
        r.id,
        r.created,
        model,
        reasoning,
        answer_beside_calls(cleaned),
        answered_calls(r),
        outcome.finish,
        usage_of(prompt_tokens, outcome.tokens@.len() as u32, duration_ms),
    )
}

/// The response to a request that is not streamed.
pub fn handle_non_streaming(
    model: String,
    prompt_tokens: u32,
    outcome: GenerationOutcome,
    duration_ms: u64,
) -> (r: ChatResponse)
    requires
        prompt_tokens + outcome.tokens@.len() <= u32::MAX,
    ensures
        answers(r@, model@, prompt_tokens, outcome, duration_ms),
{
    let id = new_completion_id();
    let created: i64 = now_timestamp();
    let a = outcome.answer();
    let usage = Usage::measured(prompt_tokens, outcome.tokens.len() as u32, duration_ms);
    let ghost calls = calls_view(a.tool_calls@);
    let r = assemble_response(
        id,
        created,
        model,
        a.reasoning,
        a.content,
        a.tool_calls,
        outcome.finish,
        usage,
    );
    assert(answered_calls(r@) =~= calls);
    r
}

} // verus!
