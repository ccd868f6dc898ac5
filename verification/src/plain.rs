//! A plain chat server: one greedy sampler, no tools, no thinking.
//!
//! The prompt is written out by hand with the thinking closed, and the text of
//! the answer is cleaned of every tag.

use vstd::prelude::*;

use crate::domain::entity::{
    delta_chunk, empty_delta, finish_chunk, ChatResponse, ChatResponseView, Choice, ChoiceView,
    FinishReason, Real32, ResponseMessage, ResponseMessageView, SseChunk, SseDelta, SseDeltaView, Usage,
};
use crate::infrastructure::pieces::{join_pieces, joined};
use crate::identity::{is_completion_id, new_completion_id, now_timestamp};
use crate::presentation::auth::{
    check_auth, grants_access, header_text, Refusal, UNAUTHORIZED_BODY,
};
use crate::text::{
    from_chars, remove_all, same_text, texts_of, to_chars, trim, trimmed, without,
};

verus! {

// ---------------------------------------------------------------------------
// Prompt
// ---------------------------------------------------------------------------

/// A message of a conversation.
pub struct PlainMessage {
    pub role: String,
    pub content: String,
}

/// A chat request. A temperature may be given; the sampler is greedy all the
/// same.
pub struct PlainRequest {
    pub model: String,
    pub messages: Vec<PlainMessage>,
    pub max_tokens: Option<u32>,
    pub temperature: Option<Real32>,
    pub stream: Option<bool>,
}

/// The role under which a message stands in the prompt: an unknown one counts
/// as the user's.
pub open spec fn served_role(role: Seq<char>) -> Seq<char> {
    if role == "system"@ || role == "assistant"@ {
        role
    } else {
        "user"@
    }
}

/// A message as it stands in the prompt.
pub open spec fn message_text(m: PlainMessage) -> Seq<char> {
    "<|im_start|>"@ + served_role(m.role@) + "\n"@ + m.content@ + "<|im_end|>\n"@
}

/// The messages as they stand in the prompt.
pub open spec fn messages_text(messages: Seq<PlainMessage>) -> Seq<char> {
    joined(messages.map_values(|m: PlainMessage| message_text(m)))
}

/// Build the prompt of a conversation, up to where the assistant begins.
pub fn build_prompt(messages: &[PlainMessage]) -> (prompt: String)
    ensures
        prompt@ == messages_text(messages@)
            + "<|im_start|>assistant\n<think>\n\n</think>\n\n"@,
{
    let mut prompt = String::new();
    let ghost f = |m: PlainMessage| message_text(m);
    let ghost all = messages@.map_values(f);
    for i in 0..messages.len()
        invariant
            f == (|m: PlainMessage| message_text(m)),
            all == messages@.map_values(f),
            prompt@ == joined(all.take(i as int)),
    {
        let ghost before = prompt@;
        let m = &messages[i];
        let role: &str = if same_text(m.role.as_str(), "system") {
            "system"
        } else if same_text(m.role.as_str(), "assistant") {
            "assistant"
        } else {
            "user"
        };
        prompt.append("<|im_start|>");
        prompt.append(role);
        prompt.append("\n");
        prompt.append(m.content.as_str());
        prompt.append("<|im_end|>\n");
        assert(prompt@ =~= before + message_text(*m));
        assert(all.take(i + 1).drop_last() =~= all.take(i as int));
        assert(all.take(i + 1).last() == message_text(*m));
    }
    assert(all.take(messages@.len() as int) =~= all);
    prompt.append("<|im_start|>assistant\n<think>\n\n</think>\n\n");
    prompt
}

/// The number of tokens that a request may generate: what it asks for, 256
/// where it does not say, and no more than 1024.
pub open spec fn granted_tokens(asked: Option<u32>) -> u32 {
    match asked {
        Some(k) => if k < 1024 {
            k
        } else {
            1024
        },
        None => 256,
    }
}

/// The number of tokens that a request may generate.
pub fn token_limit(asked: Option<u32>) -> (n: u32)
    ensures
        n == granted_tokens(asked),
        n <= 1024,
{
    match asked {
        Some(k) => if k < 1024 {
            k
        } else {
            1024
        },
        None => 256,
    }
}

/// What a request gets that was let in.
pub struct PlainPlan {
    pub id: String,
    pub created: i64,
    pub max_tokens: u32,
    pub prompt: String,
    pub streaming: bool,
}

/// POST /v1/chat/completions — what the request gets, under an identifier and
/// a time of its own, if its header gives access.
pub fn chat_completions(api_key: &str, header: &Option<String>, req: &PlainRequest) -> (r: Result<
    PlainPlan,
    Refusal,
>)
    ensures
        r is Ok <==> grants_access(api_key@, header_text(*header)),
        r matches Ok(plan) ==> {
            &&& is_completion_id(plan.id@)
            &&& plan.max_tokens == granted_tokens(req.max_tokens)
            &&& plan.prompt@ == messages_text(req.messages@)
                + "<|im_start|>assistant\n<think>\n\n</think>\n\n"@
            &&& plan.streaming == (req.stream == Some(true))
        },
        r matches Err(refusal) ==> refusal.status == 401 && refusal.body@ == UNAUTHORIZED_BODY@,
{
    match check_auth(api_key, header) {
        Err(refusal) => Err(refusal),
        Ok(_) => {
            let streaming = match req.stream {
                Some(b) => b,
                None => false,
            };
            Ok(
                PlainPlan {
                    id: new_completion_id(),
                    created: now_timestamp(),
                    max_tokens: token_limit(req.max_tokens),
                    prompt: build_prompt(req.messages.as_slice()),
                    streaming,
                },
            )
        },
    }
}

// ---------------------------------------------------------------------------
// Text
// ---------------------------------------------------------------------------

/// A text without its tags, trimmed.
pub open spec fn plain_text(s: Seq<char>) -> Seq<char> {
    trim(
        remove_all(
            remove_all(
                remove_all(remove_all(s, "<|im_end|>"@), "<|im_start|>"@),
                "<think>"@,
            ),
            "</think>"@,
        ),
    )
}

/// Remove special tokens from generated text.
pub fn clean_text(text: &str) -> (r: String)
    ensures
        r@ == plain_text(text@),
{
    proof {
        reveal_strlit("<|im_end|>");
        reveal_strlit("<|im_start|>");
        reveal_strlit("<think>");
        reveal_strlit("</think>");
    }
    let chars = to_chars(text);
    let a = without(chars.as_slice(), "<|im_end|>");
    let b = without(a.as_slice(), "<|im_start|>");
    let c = without(b.as_slice(), "<think>");
    let d = without(c.as_slice(), "</think>");
    from_chars(trimmed(d.as_slice()))
}

/// The answer that the pieces of text of the tokens make.
pub fn decode_tokens(pieces: &Vec<String>) -> (r: String)
    ensures
        r@ == plain_text(joined(texts_of(pieces@))),
{
    let out = join_pieces(pieces);
    clean_text(out.as_str())
}

// ---------------------------------------------------------------------------
// Generation
// ---------------------------------------------------------------------------

/// What a run waits for.
#[derive(Debug, Clone, Copy, PartialEq, Eq, Structural)]
pub enum PlainPhase {
    /// The next token.
    Sampling,
    /// That the last token was sent and fed.
    Feeding,
    /// Nothing: the answer is complete.
    Done(FinishReason),
    /// Nothing: the run broke off.
    Failed,
}

/// What is to be done next.
#[derive(Debug, Clone, Copy, PartialEq, Eq, Structural)]
pub enum PlainAction {
    /// Sample a token.
    Sample,
    /// Send the text of a token where it is streamed, and feed the token at a
    /// position.
    Feed(i32, i32),
    /// Answer that the generation ended for a reason.
    Finish(FinishReason),
    /// Break off.
    Fail,
}

/// What happened.
pub enum PlainEvent {
    /// The model gave a token, which ends the generation or not.
    Sampled { token: i32, end: bool },
    /// The token was taken, or the client or the model failed to.
    Fed { ok: bool },
}

/// How far a run is.
pub struct PlainProgress {
    pub prompt_len: nat,
    pub max_tokens: nat,
    pub streaming: bool,
    pub output: Seq<i32>,
    pub phase: PlainPhase,
}

/// A run in progress.
pub struct PlainRun {
    pub prompt_len: usize,
    pub max_tokens: u32,
    pub streaming: bool,
    pub output: Vec<i32>,
    pub phase: PlainPhase,
}

impl View for PlainRun {
    type V = PlainProgress;

    open spec fn view(&self) -> PlainProgress {
        PlainProgress {
            prompt_len: self.prompt_len as nat,
            max_tokens: self.max_tokens as nat,
            streaming: self.streaming,
            output: self.output@,
            phase: self.phase,
        }
    }
}

/// What a run waits for before the next token. A stream looks first whether it
/// may have one more; an answer that is not streamed samples ahead and looks
/// then.
pub open spec fn before_token(streaming: bool, count: nat, max_tokens: nat) -> PlainPhase {
    if streaming && count >= max_tokens {
        PlainPhase::Done(FinishReason::Length)
    } else {
        PlainPhase::Sampling
    }
}

/// A run whose prompt has been fed.
pub open spec fn started(prompt_len: nat, max_tokens: nat, streaming: bool) -> PlainProgress {
    PlainProgress {
        prompt_len,
        max_tokens,
        streaming,
        output: Seq::empty(),
        phase: before_token(streaming, 0, max_tokens),
    }
}

/// The event is what the run waits for.
pub open spec fn expected(g: PlainProgress, e: PlainEvent) -> bool {
    match e {
        PlainEvent::Sampled { .. } => g.phase is Sampling,
        PlainEvent::Fed { .. } => g.phase is Feeding,
    }
}

/// The progress after an event.
pub open spec fn next(g: PlainProgress, e: PlainEvent) -> PlainProgress {
    match e {
        PlainEvent::Sampled { token, end } => if g.output.len() >= g.max_tokens {
            PlainProgress { phase: PlainPhase::Done(FinishReason::Length), ..g }
        } else if end {
            PlainProgress { phase: PlainPhase::Done(FinishReason::Stop), ..g }
        } else {
            PlainProgress { output: g.output.push(token), phase: PlainPhase::Feeding, ..g }
        },
        PlainEvent::Fed { ok } => PlainProgress {
            phase: if ok {
                before_token(g.streaming, g.output.len(), g.max_tokens)
            } else {
                PlainPhase::Failed
            },
            ..g
        },
    }
}

/// What is to be done next: the tokens of the answer follow the prompt, each at
/// a position of its own.
pub open spec fn action_of(g: PlainProgress) -> PlainAction {
    match g.phase {
        PlainPhase::Sampling => PlainAction::Sample,
        PlainPhase::Feeding => PlainAction::Feed(
            g.output.last(),
            (g.prompt_len + g.output.len() - 1) as i32,
        ),
        PlainPhase::Done(reason) => PlainAction::Finish(reason),
        PlainPhase::Failed => PlainAction::Fail,
    }
}

/// What holds of every run.
pub open spec fn well_formed(g: PlainProgress) -> bool {
    &&& g.output.len() <= g.max_tokens
    &&& g.phase is Feeding ==> g.output.len() > 0
    &&& g.prompt_len <= i32::MAX
    &&& g.output.len() > 0 ==> g.prompt_len + g.output.len() - 1 <= i32::MAX
}

impl PlainRun {
    fn phase_before_token(&self) -> (p: PlainPhase)
        ensures
            p == before_token(self.streaming, self.output@.len(), self.max_tokens as nat),
    {
        if self.streaming && self.output.len() >= self.max_tokens as usize {
            PlainPhase::Done(FinishReason::Length)
        } else {
            PlainPhase::Sampling
        }
    }

    /// A run whose prompt has been fed.
    pub fn start(prompt_len: usize, max_tokens: u32, streaming: bool) -> (g: Self)
        requires
            prompt_len <= i32::MAX,
        ensures
            g@ == started(prompt_len as nat, max_tokens as nat, streaming),
            well_formed(g@),
    {
        let mut g = PlainRun {
            prompt_len,
            max_tokens,
            streaming,
            output: Vec::new(),
            phase: PlainPhase::Sampling,
        };
        g.phase = g.phase_before_token();
        g
    }

    /// What is to be done next.
    pub fn action(&self) -> (a: PlainAction)
        requires
            well_formed(self@),
        ensures
            a == action_of(self@),
    {
        match self.phase {
            PlainPhase::Sampling => PlainAction::Sample,
            PlainPhase::Feeding => {
                let last: usize = self.output.len() - 1;
                PlainAction::Feed(self.output[last], self.prompt_len as i32 + last as i32)
            },
            PlainPhase::Done(reason) => PlainAction::Finish(reason),
            PlainPhase::Failed => PlainAction::Fail,
        }
    }

    /// Whether the position of the next token is a number of 32 bits.
    pub fn has_room(&self) -> (r: bool)
        requires
            well_formed(self@),
        ensures
            r == (self@.prompt_len + self@.output.len() <= i32::MAX),
    {
        let n: usize = self.output.len();
        n <= 0x7fff_ffff && self.prompt_len <= 0x7fff_ffff - n
    }

    /// The model gave a token.
    pub fn sampled(&mut self, token: i32, end: bool)
        requires
            well_formed(old(self)@),
            old(self)@.phase is Sampling,
            old(self)@.prompt_len + old(self)@.output.len() <= i32::MAX,
        ensures
            final(self)@ == next(old(self)@, PlainEvent::Sampled { token, end }),
            well_formed(final(self)@),
    {
        if self.output.len() >= self.max_tokens as usize {
            self.phase = PlainPhase::Done(FinishReason::Length);
        } else if end {
            self.phase = PlainPhase::Done(FinishReason::Stop);
        } else {
            self.output.push(token);
            self.phase = PlainPhase::Feeding;
        }
    }

    /// The last token was sent and fed, or not.
    pub fn fed(&mut self, ok: bool)
        requires
            well_formed(old(self)@),
            old(self)@.phase is Feeding,
        ensures
            final(self)@ == next(old(self)@, PlainEvent::Fed { ok }),
            well_formed(final(self)@),
    {
        if ok {
            self.phase = self.phase_before_token();
        } else {
            self.phase = PlainPhase::Failed;
        }
    }
}

/// The progress after a number of events.
pub open spec fn run(g: PlainProgress, events: Seq<PlainEvent>) -> PlainProgress
    decreases events.len(),
{
    if events.len() == 0 {
        g
    } else {
        next(run(g, events.drop_last()), events.last())
    }
}

/// Every event was what the run waited for.
pub open spec fn valid_run(g: PlainProgress, events: Seq<PlainEvent>) -> bool
    decreases events.len(),
{
    events.len() == 0 || (valid_run(g, events.drop_last()) && expected(
        run(g, events.drop_last()),
        events.last(),
    ))
}

/// A run never generates more tokens than it may, and the number of tokens
/// tells why it ended: with fewer than it may it was stopped, with as many it
/// was cut short. Streamed or not makes no difference.
pub proof fn law_count_tells_reason(
    prompt_len: nat,
    max_tokens: nat,
    streaming: bool,
    events: Seq<PlainEvent>,
)
    requires
        valid_run(started(prompt_len, max_tokens, streaming), events),
    ensures
        ({
            let g = run(started(prompt_len, max_tokens, streaming), events);
            &&& g.output.len() <= max_tokens
            &&& g.phase matches PlainPhase::Done(reason) ==> reason == (if g.output.len()
                < max_tokens {
                FinishReason::Stop
            } else {
                FinishReason::Length
            })
        }),
{
    lemma_run(prompt_len, max_tokens, streaming, events);
}

proof fn lemma_run(
    prompt_len: nat,
    max_tokens: nat,
    streaming: bool,
    events: Seq<PlainEvent>,
)
    requires
        valid_run(started(prompt_len, max_tokens, streaming), events),
    ensures
        ({
            let g = run(started(prompt_len, max_tokens, streaming), events);
            &&& g.prompt_len == prompt_len
            &&& g.max_tokens == max_tokens
            &&& g.streaming == streaming
            &&& g.output.len() <= max_tokens
            &&& streaming && g.phase is Sampling ==> g.output.len() < max_tokens
            &&& g.phase matches PlainPhase::Done(reason) ==> reason == (if g.output.len()
                < max_tokens {
                FinishReason::Stop
            } else {
                FinishReason::Length
            })
        }),
    decreases events.len(),
{
    if events.len() > 0 {
        lemma_run(prompt_len, max_tokens, streaming, events.drop_last());
    }
}

// ---------------------------------------------------------------------------
// Answers
// ---------------------------------------------------------------------------

/// The chunk that announces the assistant.
pub fn role_chunk(id: String, created: i64, model: String) -> (c: SseChunk)
    ensures
        c@ == delta_chunk(
            id@,
            created,
            model@,
            (SseDeltaView { role: Some("assistant"@), ..empty_delta() }),
        ),
{
    SseChunk::delta(
        id,
        created,
        model,
        SseDelta {
            role: Some("assistant".to_string()),
            content: None,
            reasoning_content: None,
            tool_calls: None,
        },
    )
}

/// The chunk of a piece of text, cleaned; none where nothing is left of it.
pub fn piece_chunk(id: String, created: i64, model: String, piece: &str) -> (c: Option<SseChunk>)
    ensures
        match c {
            Some(chunk) => plain_text(piece@).len() > 0 && chunk@ == delta_chunk(
                id@,
                created,
                model@,
                (SseDeltaView { content: Some(plain_text(piece@)), ..empty_delta() }),
            ),
            None => plain_text(piece@).len() == 0,
        },
{
    let content = clean_text(piece);
    if content.as_str().is_empty() {
        return None;
    }
    Some(
        SseChunk::delta(
            id,
            created,
            model,
            SseDelta {
                role: None,
                content: Some(content),
                reasoning_content: None,
                tool_calls: None,
            },
        ),
    )
}

/// The chunk that tells why a stream ends.
pub fn end_chunk(id: String, created: i64, model: String, reason: FinishReason) -> (c: SseChunk)
    ensures
        c@ == finish_chunk(id@, created, model@, reason.text()),
{
    SseChunk::finish(id, created, model, reason.as_str())
}

/// The response of an answer that is not streamed.
pub open spec fn response_view(
    id: Seq<char>,
    created: i64,
    model: Seq<char>,
    prompt_tokens: u32,
    max_tokens: u32,
    pieces: Seq<Seq<char>>,
) -> ChatResponseView {
    ChatResponseView {
        id,
        object: "chat.completion"@,
        created,
        model,
        choices: seq![
            ChoiceView {
                index: 0,
                message: ResponseMessageView {
                    role: "assistant"@,
                    content: Some(plain_text(joined(pieces))),
                    reasoning_content: None,
                    tool_calls: None,
                },
                finish_reason: if pieces.len() < max_tokens {
                    "stop"@
                } else {
                    "length"@
                },
            },
        ],
        usage: Usage {
            prompt_tokens,
            completion_tokens: pieces.len() as u32,
            total_tokens: (prompt_tokens + pieces.len()) as u32,
            duration_ms: None,
            tokens_per_second: None,
        },
    }
}

/// The response of an answer that is not streamed, from the pieces of text of
/// its tokens.
pub fn respond(
    id: String,
    created: i64,
    model: String,
    prompt_tokens: u32,
    max_tokens: u32,
    pieces: &Vec<String>,
) -> (r: ChatResponse)
    requires
        prompt_tokens + pieces@.len() <= u32::MAX,
    ensures
        r@ == response_view(
            id@,
            created,
            model@,
            prompt_tokens,
            max_tokens,
            texts_of(pieces@),
        ),
{
    let completion_tokens: u32 = pieces.len() as u32;
    let reason: &str = if completion_tokens < max_tokens {
        "stop"
    } else {
        "length"
    };
    let message = ResponseMessage {
        role: "assistant".to_string(),
        content: Some(decode_tokens(pieces)),
        reasoning_content: None,
        tool_calls: None,
    };
    let r = ChatResponse {
        id,
        object: "chat.completion".to_string(),
        created,
        model,
        choices: vec![Choice { index: 0, message, finish_reason: reason.to_string() }],
        usage: Usage {
            prompt_tokens,
            completion_tokens,
            total_tokens: prompt_tokens + completion_tokens,
            duration_ms: None,
            tokens_per_second: None,
        },
    };
    assert(r@.choices =~= response_view(
        id@,
        created,
        model@,
        prompt_tokens,
        max_tokens,
        texts_of(pieces@),
    ).choices);
    r
}

/// Where the model failed.
#[derive(Debug, Clone, Copy, PartialEq, Eq, Structural)]
pub enum Stage {
    Tokenize,
    Prefill,
    Decode,
}

/// What the message of a failure begins with.
pub open spec fn stage_text(stage: Stage) -> Seq<char> {
    match stage {
        Stage::Tokenize => Seq::empty(),
        Stage::Prefill => "Prefill: "@,
        Stage::Decode => "Decode: "@,
    }
}

/// How a failure of the model is answered.
pub fn engine_failure(stage: Stage, message: &str) -> (r: Refusal)
    ensures
        r.status == 500,
        r.body@ == stage_text(stage) + message@,
{
    let body = match stage {
        Stage::Tokenize => message.to_string(),
        Stage::Prefill => "Prefill: ".to_string().concat(message),
        Stage::Decode => "Decode: ".to_string().concat(message),
    };
    assert(body@ =~= stage_text(stage) + message@);
    Refusal { status: 500, body }
}

} // verus!
