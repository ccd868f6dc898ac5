//! The shapes of the OpenAI-compatible API.

use vstd::prelude::*;

use crate::text::text_of;

verus! {

// ---------------------------------------------------------------------------
// Requests
// ---------------------------------------------------------------------------

/// A 32-bit IEEE 754 number, held by its bits.
#[derive(Debug, Clone, Copy, PartialEq, Eq, Structural)]
pub struct Real32 {
    pub bits: u32,
}

/// OpenAI-compatible chat completion request body.
pub struct ChatRequest {
    pub model: String,
    pub messages: Vec<ChatMessage>,
    pub max_tokens: Option<u32>,
    pub temperature: Option<Real32>,
    pub top_p: Option<Real32>,
    pub top_k: Option<u32>,
    pub min_p: Option<Real32>,
    pub frequency_penalty: Option<Real32>,
    pub presence_penalty: Option<Real32>,
    pub repeat_penalty: Option<Real32>,
    pub seed: Option<u32>,
    pub stream: Option<bool>,
    pub stop: Option<Vec<String>>,
    pub tools: Option<Vec<ToolDef>>,
    pub tool_choice: Option<serde_json::Value>,
}

/// A single message in the chat conversation.
pub struct ChatMessage {
    pub role: String,
    pub content: Option<String>,
    pub tool_calls: Option<Vec<ToolCallResponse>>,
    pub tool_call_id: Option<String>,
    pub name: Option<String>,
}

/// Tool/function definition for function calling.
pub struct ToolDef {
    pub tool_type: String,
    pub function: ToolFunction,
}

/// The function that a tool offers.
pub struct ToolFunction {
    pub name: String,
    pub description: String,
    pub parameters: serde_json::Value,
}

// ---------------------------------------------------------------------------
// Responses
// ---------------------------------------------------------------------------

/// OpenAI-compatible chat completion response (non-streaming).
pub struct ChatResponse {
    pub id: String,
    pub object: String,
    pub created: i64,
    pub model: String,
    pub choices: Vec<Choice>,
    pub usage: Usage,
}

/// One of the answers of a response.
pub struct Choice {
    pub index: u32,
    pub message: ResponseMessage,
    pub finish_reason: String,
}

/// The message of an answer.
pub struct ResponseMessage {
    pub role: String,
    pub content: Option<String>,
    pub reasoning_content: Option<String>,
    pub tool_calls: Option<Vec<ToolCall>>,
}

/// The texts of a response.
pub struct ChatResponseView {
    pub id: Seq<char>,
    pub object: Seq<char>,
    pub created: i64,
    pub model: Seq<char>,
    pub choices: Seq<ChoiceView>,
    pub usage: Usage,
}

/// The texts of an answer.
pub struct ChoiceView {
    pub index: u32,
    pub message: ResponseMessageView,
    pub finish_reason: Seq<char>,
}

/// The texts of the message of an answer.
pub struct ResponseMessageView {
    pub role: Seq<char>,
    pub content: Option<Seq<char>>,
    pub reasoning_content: Option<Seq<char>>,
    pub tool_calls: Option<Seq<ToolCallView>>,
}

impl View for ResponseMessage {
    type V = ResponseMessageView;

    open spec fn view(&self) -> ResponseMessageView {
        ResponseMessageView {
            role: self.role@,
            content: text_of(self.content),
            reasoning_content: text_of(self.reasoning_content),
            tool_calls: match self.tool_calls {
                Some(calls) => Some(calls_view(calls@)),
                None => None,
            },
        }
    }
}

impl View for Choice {
    type V = ChoiceView;

    open spec fn view(&self) -> ChoiceView {
        ChoiceView {
            index: self.index,
            message: self.message@,
            finish_reason: self.finish_reason@,
        }
    }
}

impl View for ChatResponse {
    type V = ChatResponseView;

    open spec fn view(&self) -> ChatResponseView {
        ChatResponseView {
            id: self.id@,
            object: self.object@,
            created: self.created,
            model: self.model@,
            choices: self.choices@.map_values(|c: Choice| c@),
            usage: self.usage,
        }
    }
}

/// A number of tokens in a number of milliseconds.
#[derive(Debug, Clone, Copy, PartialEq, Eq, Structural)]
pub struct Rate {
    pub tokens: u32,
    pub ms: u64,
}

/// How many tokens a request took, and how long.
#[derive(Debug, Clone, Copy, PartialEq, Eq, Structural)]
pub struct Usage {
    pub prompt_tokens: u32,
    pub completion_tokens: u32,
    pub total_tokens: u32,
    pub duration_ms: Option<u64>,
    pub tokens_per_second: Option<Rate>,
}

/// The usage of a request: the total is the sum, and a rate is given where
/// time has passed.
pub open spec fn usage_of(prompt_tokens: u32, completion_tokens: u32, duration_ms: u64) -> Usage {
    Usage {
        prompt_tokens,
        completion_tokens,
        total_tokens: (prompt_tokens + completion_tokens) as u32,
        duration_ms: Some(duration_ms),
        tokens_per_second: if duration_ms > 0 {
            Some(Rate { tokens: completion_tokens, ms: duration_ms })
        } else {
            None
        },
    }
}

impl Usage {
    /// The usage of a request that generated for `duration_ms`.
    pub fn measured(prompt_tokens: u32, completion_tokens: u32, duration_ms: u64) -> (usage: Usage)
        requires
            prompt_tokens + completion_tokens <= u32::MAX,
        ensures
            usage == usage_of(prompt_tokens, completion_tokens, duration_ms),
            usage.total_tokens == prompt_tokens + completion_tokens,
    {
        let rate = if duration_ms > 0 {
            Some(Rate { tokens: completion_tokens, ms: duration_ms })
        } else {
            None
        };
        Usage {
            prompt_tokens,
            completion_tokens,
            total_tokens: prompt_tokens + completion_tokens,
            duration_ms: Some(duration_ms),
            tokens_per_second: rate,
        }
    }
}

// ---------------------------------------------------------------------------
// Tool calls
// ---------------------------------------------------------------------------

/// A tool call in responses or streaming deltas.
#[derive(Clone)]
pub struct ToolCall {
    pub id: String,
    pub call_type: String,
    pub function: ToolCallFunction,
}

/// The function that is called, with its arguments as JSON text.
#[derive(Clone)]
pub struct ToolCallFunction {
    pub name: String,
    pub arguments: String,
}

/// A tool call in the message history.
#[derive(Clone)]
pub struct ToolCallResponse {
    pub id: String,
    pub call_type: String,
    pub function: ToolCallFunction,
}

/// The texts of a tool call.
pub struct ToolCallView {
    pub id: Seq<char>,
    pub call_type: Seq<char>,
    pub name: Seq<char>,
    pub arguments: Seq<char>,
}

impl View for ToolCall {
    type V = ToolCallView;

    open spec fn view(&self) -> ToolCallView {
        ToolCallView {
            id: self.id@,
            call_type: self.call_type@,
            name: self.function.name@,
            arguments: self.function.arguments@,
        }
    }
}

/// The texts of a list of tool calls.
pub open spec fn calls_view(calls: Seq<ToolCall>) -> Seq<ToolCallView> {
    calls.map_values(|c: ToolCall| c@)
}

// ---------------------------------------------------------------------------
// Why a generation stopped
// ---------------------------------------------------------------------------

/// Why a generation run stopped. Produced by the engine and rendered as the
/// OpenAI `finish_reason` at the presentation layer.
#[derive(Debug, Clone, Copy, PartialEq, Eq, Structural)]
pub enum FinishReason {
    /// Natural end-of-generation (EOS token) or a stop sequence matched.
    Stop,
    /// `max_tokens` exhausted.
    Length,
    /// A complete `<tool_call>` block was emitted.
    ToolCalls,
    /// Generation aborted early (e.g. client disconnected).
    Aborted,
}

impl FinishReason {
    /// The OpenAI `finish_reason` of each reason.
    pub open spec fn text(self) -> Seq<char> {
        match self {
            FinishReason::Stop => "stop"@,
            FinishReason::Length => "length"@,
            FinishReason::ToolCalls => "tool_calls"@,
            FinishReason::Aborted => "stop"@,
        }
    }

    /// Map to the OpenAI-compatible `finish_reason` string.
    pub fn as_str(&self) -> (r: &'static str)
        ensures
            r@ == self.text(),
    {
        match self {
            FinishReason::Stop => "stop",
            FinishReason::Length => "length",
            FinishReason::ToolCalls => "tool_calls",
            FinishReason::Aborted => "stop",
        }
    }
}

// ---------------------------------------------------------------------------
// Streamed chunks
// ---------------------------------------------------------------------------

/// Server-Sent Event chunk for streaming responses.
pub struct SseChunk {
    pub id: String,
    pub object: String,
    pub created: i64,
    pub model: String,
    pub choices: Vec<SseChoice>,
    pub usage: Option<Usage>,
}

/// One of the answers of a chunk.
pub struct SseChoice {
    pub index: u32,
    pub delta: SseDelta,
    pub finish_reason: Option<String>,
}

/// What a chunk adds to an answer.
pub struct SseDelta {
    pub role: Option<String>,
    pub content: Option<String>,
    pub reasoning_content: Option<String>,
    pub tool_calls: Option<Vec<ToolCall>>,
}

/// The texts of a chunk.
pub struct SseChunkView {
    pub id: Seq<char>,
    pub object: Seq<char>,
    pub created: i64,
    pub model: Seq<char>,
    pub choices: Seq<SseChoiceView>,
    pub usage: Option<Usage>,
}

/// The texts of an answer of a chunk.
pub struct SseChoiceView {
    pub index: u32,
    pub delta: SseDeltaView,
    pub finish_reason: Option<Seq<char>>,
}

/// The texts that a chunk adds.
pub struct SseDeltaView {
    pub role: Option<Seq<char>>,
    pub content: Option<Seq<char>>,
    pub reasoning_content: Option<Seq<char>>,
    pub tool_calls: Option<Seq<ToolCallView>>,
}

impl View for SseDelta {
    type V = SseDeltaView;

    open spec fn view(&self) -> SseDeltaView {
        SseDeltaView {
            role: text_of(self.role),
            content: text_of(self.content),
            reasoning_content: text_of(self.reasoning_content),
            tool_calls: match self.tool_calls {
                Some(calls) => Some(calls_view(calls@)),
                None => None,
            },
        }
    }
}

impl View for SseChoice {
    type V = SseChoiceView;

    open spec fn view(&self) -> SseChoiceView {
        SseChoiceView {
            index: self.index,
            delta: self.delta@,
            finish_reason: text_of(self.finish_reason),
        }
    }
}

impl View for SseChunk {
    type V = SseChunkView;

    open spec fn view(&self) -> SseChunkView {
        SseChunkView {
            id: self.id@,
            object: self.object@,
            created: self.created,
            model: self.model@,
            choices: self.choices@.map_values(|c: SseChoice| c@),
            usage: self.usage,
        }
    }
}

/// A delta that adds nothing.
pub open spec fn empty_delta() -> SseDeltaView {
    SseDeltaView { role: None, content: None, reasoning_content: None, tool_calls: None }
}

/// The chunk that adds `delta`.
pub open spec fn delta_chunk(
    id: Seq<char>,
    created: i64,
    model: Seq<char>,
    delta: SseDeltaView,
) -> SseChunkView {
    SseChunkView {
        id,
        object: "chat.completion.chunk"@,
        created,
        model,
        choices: seq![SseChoiceView { index: 0, delta, finish_reason: None }],
        usage: None,
    }
}

/// The chunk that tells why the answer ends.
pub open spec fn finish_chunk(
    id: Seq<char>,
    created: i64,
    model: Seq<char>,
    reason: Seq<char>,
) -> SseChunkView {
    SseChunkView {
        id,
        object: "chat.completion.chunk"@,
        created,
        model,
        choices: seq![
            SseChoiceView { index: 0, delta: empty_delta(), finish_reason: Some(reason) },
        ],
        usage: None,
    }
}

/// The chunk that carries the token usage and no answer.
pub open spec fn usage_chunk(id: Seq<char>, created: i64, model: Seq<char>, usage: Usage) -> SseChunkView {
    SseChunkView {
        id,
        object: "chat.completion.chunk"@,
        created,
        model,
        choices: Seq::empty(),
        usage: Some(usage),
    }
}

impl SseChunk {
    /// A delta chunk carrying partial reasoning/content/tool-call output.
    pub fn delta(id: String, created: i64, model: String, delta: SseDelta) -> (chunk: Self)
        ensures
            chunk@ == delta_chunk(id@, created, model@, delta@),
    {
        let chunk = SseChunk {
            id,
            object: "chat.completion.chunk".to_string(),
            created,
            model,
            choices: vec![SseChoice { index: 0, delta, finish_reason: None }],
            usage: None,
        };
        assert(chunk@.choices =~= delta_chunk(id@, created, model@, delta@).choices);
        chunk
    }

    /// The final chunk carrying the `finish_reason` (no token deltas).
    pub fn finish(id: String, created: i64, model: String, finish_reason: &str) -> (chunk: Self)
        ensures
            chunk@ == finish_chunk(id@, created, model@, finish_reason@),
    {
        let delta = SseDelta {
            role: None,
            content: None,
            tool_calls: None,
            reasoning_content: None,
        };
        let chunk = SseChunk {
            id,
            object: "chat.completion.chunk".to_string(),
            created,
            model,
            choices: vec![
                SseChoice { index: 0, delta, finish_reason: Some(finish_reason.to_string()) },
            ],
            usage: None,
        };
        assert(chunk@.choices =~= finish_chunk(id@, created, model@, finish_reason@).choices);
        chunk
    }

    /// A trailing chunk with token usage and empty choices (OpenAI convention).
    pub fn usage(id: String, created: i64, model: String, usage: Usage) -> (chunk: Self)
        ensures
            chunk@ == usage_chunk(id@, created, model@, usage),
    {
        let chunk = SseChunk {
            id,
            object: "chat.completion.chunk".to_string(),
            created,
            model,
            choices: Vec::new(),
            usage: Some(usage),
        };
        assert(chunk@.choices =~= usage_chunk(id@, created, model@, usage).choices);
        chunk
    }
}

// ---------------------------------------------------------------------------
// Models and health
// ---------------------------------------------------------------------------

/// The list of the models that the server serves.
pub struct ModelsResponse {
    pub object: String,
    pub data: Vec<ModelInfo>,
}

/// A served model.
pub struct ModelInfo {
    pub id: String,
    pub object: String,
    pub created: i64,
    pub owned_by: String,
}

/// The state of the server.
pub struct HealthResponse {
    pub status: String,
    pub model: String,
    pub uptime_s: u64,
    pub n_ctx: u32,
    pub version: String,
}

// ---------------------------------------------------------------------------
// What the views show
// ---------------------------------------------------------------------------

/// The views show every field as it is, and every entry of a list in its place.
pub proof fn law_views_show_fields(
    message: ResponseMessage,
    delta: SseDelta,
    call: ToolCall,
    calls: Seq<ToolCall>,
    i: int,
)
    requires
        0 <= i < calls.len(),
    ensures
        message@.role == message.role@,
        message.content matches Some(s) ==> message@.content == Some(s@),
        message.content is None ==> message@.content is None,
        message.reasoning_content matches Some(s) ==> message@.reasoning_content == Some(s@),
        message.reasoning_content is None ==> message@.reasoning_content is None,
        message.tool_calls is None ==> message@.tool_calls is None,
        delta.role matches Some(s) ==> delta@.role == Some(s@),
        delta.content matches Some(s) ==> delta@.content == Some(s@),
        delta.reasoning_content matches Some(s) ==> delta@.reasoning_content == Some(s@),
        delta.content is None ==> delta@.content is None,
        delta.reasoning_content is None ==> delta@.reasoning_content is None,
        delta.tool_calls is None ==> delta@.tool_calls is None,
        call@.id == call.id@,
        call@.call_type == call.call_type@,
        call@.name == call.function.name@,
        call@.arguments == call.function.arguments@,
        calls_view(calls).len() == calls.len(),
        calls_view(calls)[i] == calls[i]@,
{
}

} // verus!
