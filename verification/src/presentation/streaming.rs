//! Streamed chat completions.
//!
//! The answer is sent in chunks while it is generated: the role first, then
//! reasoning and content as they come, the tool calls, the reason for the end,
//! the usage, and a terminator. Text that may be the start of a tag is kept
//! back until the rest has come, so that no tag reaches the client in parts.

use vstd::prelude::*;
use vstd::slice::slice_subrange;

use super::chat::{record_outcome, recorded, report_reason, reported_reason};
use super::metrics::{count_error, Metrics};
use crate::application::chat::cleaning::lemma_no_tag;
use crate::application::chat::markup::{
    boundary_in, fragment_parts, lemma_settled, settled, settled_len, split_stream_chunk,
    strip_markup, stripped,
};
use crate::application::chat::tool_calls::{calls_in, calls_match, parse_tool_calls};
use crate::domain::entity::{
    calls_view, delta_chunk, empty_delta, finish_chunk, usage_chunk, usage_of, FinishReason,
    SseChunk, SseChunkView, SseDelta, SseDeltaView, ToolCall, ToolCallView, Usage,
};
use crate::domain::error::LlmError;
use crate::identity::{is_completion_id, new_completion_id, now_timestamp};
use crate::infrastructure::generation::GenerationOutcome;
use crate::json::{
    insert_entry, json_text, new_object, object_value, text_before, text_value, value_text,
    value_view, with_entry, Json,
};
use crate::text::{
    byte_len, char_at_byte, find, from_chars, index_at_byte, is_boundary, is_offset,
    lemma_byte_len_add, lemma_find, lemma_find_append, lemma_offset_unique, lemma_offsets_grow,
    search, text_bytes, text_of, to_chars,
};

verus! {

/// The data of the event that ends a stream.
pub const DONE: &'static str = "[DONE]";

// ---------------------------------------------------------------------------
// What is sent
// ---------------------------------------------------------------------------

/// The byte offset in a text at which its content begins: right after the
/// first `</think>`. None while the model is still thinking.
pub open spec fn think_end(text: Seq<char>) -> Option<nat> {
    match find(text, "</think>"@) {
        Some(i) => Some(byte_len(text.take(i + "</think>"@.len()))),
        None => None,
    }
}

/// A delta that announces the assistant.
pub open spec fn role_delta() -> SseDeltaView {
    SseDeltaView { role: Some("assistant"@), ..empty_delta() }
}

/// A delta that adds to the reasoning.
pub open spec fn reasoning_delta(s: Seq<char>) -> SseDeltaView {
    SseDeltaView { reasoning_content: Some(s), ..empty_delta() }
}

/// A delta that adds to the content.
pub open spec fn content_delta(s: Seq<char>) -> SseDeltaView {
    SseDeltaView { content: Some(s), ..empty_delta() }
}

/// A delta that carries tool calls.
pub open spec fn calls_delta(calls: Seq<ToolCallView>) -> SseDeltaView {
    SseDeltaView { tool_calls: Some(calls), ..empty_delta() }
}

/// A delta of content, or none where there is none.
pub open spec fn content_deltas(s: Seq<char>) -> Seq<SseDeltaView> {
    if s.len() > 0 {
        seq![content_delta(s)]
    } else {
        seq![]
    }
}

/// The deltas of a reasoning and a content.
pub open spec fn part_deltas(parts: (Option<Seq<char>>, Seq<char>)) -> Seq<SseDeltaView> {
    let reasoning = match parts.0 {
        Some(r) => seq![reasoning_delta(r)],
        None => seq![],
    };
    reasoning + content_deltas(parts.1)
}

/// What of a text was sent, and what is kept back.
pub struct Flow {
    pub sent: Seq<char>,
    pub held: Seq<char>,
}

/// Nothing was sent and nothing is kept back.
pub open spec fn no_flow() -> Flow {
    Flow { sent: Seq::empty(), held: Seq::empty() }
}

/// How much of the text `new`, which comes after `sent`, is sent: everything
/// but what may become markup. Where the thinking ends in it, the text up to
/// there is sent in any case.
pub open spec fn ready(sent: Seq<char>, new: Seq<char>) -> int {
    match think_end(sent + new) {
        Some(at) => if at > byte_len(sent) {
            let b = char_at_byte(new, boundary_in(new, byte_len(sent), at));
            b + settled(new.skip(b))
        } else {
            settled(new)
        },
        None => settled(new),
    }
}

/// What is sent and kept back after one more piece.
pub open spec fn after_piece(flow: Flow, piece: Seq<char>) -> Flow {
    let new = flow.held + piece;
    let n = ready(flow.sent, new);
    Flow { sent: flow.sent + new.take(n), held: new.skip(n) }
}

/// The deltas that one more piece gives.
pub open spec fn piece_deltas(flow: Flow, piece: Seq<char>) -> Seq<SseDeltaView> {
    let new = flow.held + piece;
    part_deltas(
        fragment_parts(
            new.take(ready(flow.sent, new)),
            byte_len(flow.sent),
            think_end(flow.sent + new),
        ),
    )
}

/// The deltas that come when everything is generated. What was kept back is
/// sent. Where the model never closed its thinking, everything was sent as
/// reasoning; it is sent as content too, so that the client always receives the
/// answer.
pub open spec fn closing_deltas(flow: Flow, calls: Seq<ToolCallView>) -> Seq<SseDeltaView> {
    let text = flow.sent + flow.held;
    let kept = part_deltas(fragment_parts(flow.held, byte_len(flow.sent), think_end(text)));
    let flushed = if think_end(text) is None {
        content_deltas(stripped(text))
    } else {
        seq![]
    };
    let called = if calls.len() > 0 {
        seq![calls_delta(calls)]
    } else {
        seq![]
    };
    kept + flushed + called
}

/// The chunks of deltas.
pub open spec fn delta_chunks(
    id: Seq<char>,
    created: i64,
    model: Seq<char>,
    deltas: Seq<SseDeltaView>,
) -> Seq<SseChunkView> {
    deltas.map_values(|d: SseDeltaView| delta_chunk(id, created, model, d))
}

/// The chunks that end a stream.
pub open spec fn closing_chunks(
    id: Seq<char>,
    created: i64,
    model: Seq<char>,
    flow: Flow,
    calls: Seq<ToolCallView>,
    finish: FinishReason,
    usage: Usage,
) -> Seq<SseChunkView> {
    delta_chunks(id, created, model, closing_deltas(flow, calls)).push(
        finish_chunk(id, created, model, reported_reason(finish, calls.len() > 0)),
    ).push(usage_chunk(id, created, model, usage))
}

/// The texts of chunks.
pub open spec fn chunks_view(chunks: Seq<SseChunk>) -> Seq<SseChunkView> {
    chunks.map_values(|c: SseChunk| c@)
}

// ---------------------------------------------------------------------------
// The code
// ---------------------------------------------------------------------------

/// A stream in progress.
pub struct StreamState {
    pub id: String,
    pub created: i64,
    pub model: String,
    /// Everything that was generated so far.
    pub text_buf: String,
    /// How many bytes of it were sent.
    pub sent_len: usize,
    /// Byte offset in `text_buf` where the content phase begins (right after
    /// the first `</think>`); None while still thinking.
    pub content_start: Option<usize>,
}

/// An optional offset as a number.
pub open spec fn offset_view(at: Option<usize>) -> Option<nat> {
    match at {
        Some(n) => Some(n as nat),
        None => None,
    }
}

impl StreamState {
    /// What was sent ends between two characters, the content begins where the
    /// thinking ends, and no text is kept back from before there.
    pub open spec fn well_formed(self) -> bool {
        &&& is_boundary(self.text_buf@, self.sent_len as int)
        &&& offset_view(self.content_start) == think_end(self.text_buf@)
        &&& self.content_start matches Some(at) ==> at <= self.sent_len
    }

    /// What was sent and what is kept back.
    pub open spec fn flow(self) -> Flow {
        let c = char_at_byte(self.text_buf@, self.sent_len as int);
        Flow { sent: self.text_buf@.take(c), held: self.text_buf@.skip(c) }
    }

    /// A stream in which nothing was sent yet.
    pub fn new(id: String, created: i64, model: String) -> (s: Self)
        ensures
            s.well_formed(),
            s.id@ == id@,
            s.created == created,
            s.model@ == model@,
            s.text_buf@ == Seq::<char>::empty(),
            s.flow() == no_flow(),
    {
        proof {
            reveal_strlit("</think>");
            lemma_no_tag(Seq::empty(), "</think>"@);
            let empty = Seq::<char>::empty();
            assert(empty.take(0) =~= empty);
            assert(empty.skip(0) =~= empty);
            assert(is_offset(empty, 0, 0));
            lemma_offset_unique(empty, 0, 0);
        }
        StreamState {
            id,
            created,
            model,
            text_buf: String::new(),
            sent_len: 0,
            content_start: None,
        }
    }

    fn chunk(&self, delta: SseDelta) -> (c: SseChunk)
        ensures
            c@ == delta_chunk(self.id@, self.created, self.model@, delta@),
    {
        SseChunk::delta(self.id.clone(), self.created, self.model.clone(), delta)
    }

    fn content_chunk(&self, content: String) -> (c: SseChunk)
        ensures
            c@ == delta_chunk(self.id@, self.created, self.model@, content_delta(content@)),
    {
        self.chunk(
            SseDelta {
                role: None,
                content: Some(content),
                tool_calls: None,
                reasoning_content: None,
            },
        )
    }

    /// The first chunk: announces the assistant role.
    pub fn role_chunk(&self) -> (c: SseChunk)
        ensures
            c@ == delta_chunk(self.id@, self.created, self.model@, role_delta()),
    {
        self.chunk(
            SseDelta {
                role: Some("assistant".to_string()),
                content: None,
                tool_calls: None,
                reasoning_content: None,
            },
        )
    }

    /// Takes a generated piece, and gives the chunks to send now.
    pub fn push_piece(&mut self, piece: &str) -> (chunks: Vec<SseChunk>)
        requires
            old(self).well_formed(),
        ensures
            final(self).well_formed(),
            final(self).id@ == old(self).id@,
            final(self).created == old(self).created,
            final(self).model@ == old(self).model@,
            final(self).text_buf@ == old(self).text_buf@ + piece@,
            final(self).flow() == after_piece(old(self).flow(), piece@),
            chunks_view(chunks@) == delta_chunks(
                old(self).id@,
                old(self).created,
                old(self).model@,
                piece_deltas(old(self).flow(), piece@),
            ),
    {
        let ghost flow = self.flow();
        let ghost new = flow.held + piece@;
        let ghost before = self.text_buf@;
        let ghost c = char_at_byte(before, self.sent_len as int);
        let sent: usize = self.sent_len;
        proof {
            assert(is_offset(before, sent as int, c));
            assert(flow.sent + flow.held =~= before);
            if think_end(before) is Some {
                law_thinking_ends_once(before, piece@);
            }
        }
        self.text_buf.append(piece);
        self.content_start = self.find_content();
        let chars = to_chars(self.text_buf.as_str());
        let total: usize = chars.len();
        proof {
            assert(self.text_buf@.take(c) =~= before.take(c));
            assert(is_offset(self.text_buf@, sent as int, c));
            lemma_offset_unique(self.text_buf@, sent as int, c);
            assert(flow.sent + new =~= self.text_buf@);
        }
        let from: usize = index_at_byte(chars.as_slice(), sent);
        let fresh = slice_subrange(chars.as_slice(), from, total);
        assert(fresh@ =~= new);
        assert(self.text_buf@.take(self.text_buf@.len() - new.len()) =~= flow.sent);
        assert(self.text_buf@.skip(self.text_buf@.len() - new.len()) =~= new);
        let n: usize = self.ready_len(fresh);
        let part = slice_subrange(fresh, 0, n);
        assert(part@ == new.take(n as int));
        let fragment = from_chars(part);
        proof {
            lemma_ready(flow.sent, new);
        }
        let (reasoning, content) = split_stream_chunk(fragment.as_str(), sent, self.content_start);
        let ghost text = self.text_buf@;
        proof {
            let upto = c + n;
            assert(text.take(upto) =~= flow.sent + new.take(n as int));
            lemma_byte_len_add(flow.sent, new.take(n as int));
            lemma_offsets_grow(text, upto, text.len() as int);
            assert(text.take(text.len() as int) =~= text);
            assert(is_offset(text, sent + byte_len(fragment@), upto));
            lemma_offset_unique(text, sent + byte_len(fragment@), upto);
            assert(text.skip(upto) =~= new.skip(n as int));
        }
        let whole: usize = text_bytes(self.text_buf.as_str());
        let more: usize = text_bytes(fragment.as_str());
        assert(sent + more <= whole);
        self.sent_len = sent + more;
        self.part_chunks(reasoning, content)
    }

    /// The chunks of a reasoning and a content.
    fn part_chunks(&self, reasoning: Option<String>, content: String) -> (chunks: Vec<SseChunk>)
        ensures
            chunks_view(chunks@) == delta_chunks(
                self.id@,
                self.created,
                self.model@,
                part_deltas((text_of(reasoning), content@)),
            ),
    {
        let mut chunks: Vec<SseChunk> = Vec::new();
        if let Some(r) = reasoning {
            chunks.push(
                self.chunk(
                    SseDelta {
                        role: None,
                        content: None,
                        tool_calls: None,
                        reasoning_content: Some(r),
                    },
                ),
            );
        }
        if !content.as_str().is_empty() {
            chunks.push(self.content_chunk(content));
        }
        assert(chunks_view(chunks@) =~= delta_chunks(
            self.id@,
            self.created,
            self.model@,
            part_deltas((text_of(reasoning), content@)),
        ));
        chunks
    }

    /// How much of the text that was not sent is sent now.
    fn ready_len(&self, new: &[char]) -> (n: usize)
        requires
            self.text_buf@.len() >= new@.len(),
            self.text_buf@.skip(self.text_buf@.len() - new@.len()) == new@,
            byte_len(self.text_buf@.take(self.text_buf@.len() - new@.len())) == self.sent_len,
            offset_view(self.content_start) == think_end(self.text_buf@),
        ensures
            n == ready(self.text_buf@.take(self.text_buf@.len() - new@.len()), new@),
            n <= new@.len(),
    {
        let end: usize = new.len();
        let ghost sent = self.text_buf@.take(self.text_buf@.len() - new@.len());
        proof {
            assert(sent + new@ =~= self.text_buf@);
            lemma_boundary_in_piece(sent, new@);
        }
        match self.content_start {
            Some(at) => {
                if at > self.sent_len {
                    let b: usize = index_at_byte(new, at - self.sent_len);
                    let rest = slice_subrange(new, b, end);
                    assert(rest@ == new@.skip(b as int));
                    b + settled_len(rest)
                } else {
                    settled_len(new)
                }
            },
            None => settled_len(new),
        }
    }

    /// Where the content begins in what was generated so far. Once known it
    /// stays. The whole text is searched: a `</think>` tag may be split across
    /// pieces.
    fn find_content(&self) -> (at: Option<usize>)
        requires
            self.content_start matches Some(n) ==> think_end(self.text_buf@) == Some(n as nat),
        ensures
            offset_view(at) == think_end(self.text_buf@),
    {
        match self.content_start {
            Some(n) => Some(n),
            None => {
                let chars = to_chars(self.text_buf.as_str());
                let tag = to_chars("</think>");
                let end: usize = chars.len();
                match search(chars.as_slice(), tag.as_slice()) {
                    Some(i) => {
                        let upto = vstd::slice::slice_subrange(
                            chars.as_slice(),
                            0,
                            i + tag.len(),
                        );
                        assert(upto@ == self.text_buf@.take(i + tag@.len()));
                        Some(text_bytes(from_chars(upto).as_str()))
                    },
                    None => None,
                }
            },
        }
    }

    /// The chunks that end the stream, given the tool calls that were read.
    pub fn close(&self, calls: Vec<ToolCall>, finish: FinishReason, usage: Usage) -> (chunks: Vec<
        SseChunk,
    >)
        requires
            self.well_formed(),
        ensures
            chunks_view(chunks@) == closing_chunks(
                self.id@,
                self.created,
                self.model@,
                self.flow(),
                calls_view(calls@),
                finish,
                usage,
            ),
    {
        let ghost f = |d: SseDeltaView| delta_chunk(self.id@, self.created, self.model@, d);
        let ghost flow = self.flow();
        let ghost c = char_at_byte(self.text_buf@, self.sent_len as int);
        assert(is_offset(self.text_buf@, self.sent_len as int, c));
        assert(flow.sent + flow.held =~= self.text_buf@);
        let chars = to_chars(self.text_buf.as_str());
        let total: usize = chars.len();
        let from: usize = index_at_byte(chars.as_slice(), self.sent_len);
        let held = slice_subrange(chars.as_slice(), from, total);
        assert(held@ =~= flow.held);
        let kept = from_chars(held);
        let (reasoning, content) = split_stream_chunk(
            kept.as_str(),
            self.sent_len,
            self.content_start,
        );
        let mut chunks: Vec<SseChunk> = self.part_chunks(reasoning, content);
        let ghost kept_deltas = part_deltas(
            fragment_parts(flow.held, byte_len(flow.sent), think_end(self.text_buf@)),
        );
        assert(chunks_view(chunks@) =~= kept_deltas.map_values(f));
        let ghost first = chunks@;
        let ghost flushed_deltas: Seq<SseDeltaView> = if think_end(self.text_buf@) is None {
            content_deltas(stripped(self.text_buf@))
        } else {
            seq![]
        };
        if self.content_start.is_none() {
            let flushed = strip_markup(self.text_buf.as_str());
            if !flushed.as_str().is_empty() {
                chunks.push(self.content_chunk(flushed));
            }
        }
        let ghost second = chunks@;
        proof {
            let a = kept_deltas.map_values(f);
            let b = flushed_deltas.map_values(f);
            assert((kept_deltas + flushed_deltas).map_values(f) =~= a + b);
            if second.len() > first.len() {
                assert(chunks_view(second) =~= chunks_view(first).push(second.last()@));
                assert(b =~= seq![second.last()@]);
            } else {
                assert(b =~= Seq::<SseChunkView>::empty());
            }
            assert(chunks_view(second) =~= a + b);
        }
        let called = calls.len() > 0;
        if called {
            chunks.push(
                self.chunk(
                    SseDelta {
                        role: None,
                        content: None,
                        tool_calls: Some(calls),
                        reasoning_content: None,
                    },
                ),
            );
        }
        let ghost deltas = closing_deltas(flow, calls_view(calls@));
        proof {
            let ab = (kept_deltas + flushed_deltas).map_values(f);
            if called {
                let d = calls_delta(calls_view(calls@));
                assert(deltas =~= (kept_deltas + flushed_deltas).push(d));
                assert(deltas.map_values(f) =~= ab.push(f(d)));
                assert(chunks_view(chunks@) =~= chunks_view(second).push(f(d)));
            } else {
                assert(deltas =~= kept_deltas + flushed_deltas);
            }
        }
        let reason = report_reason(finish, called);
        chunks.push(SseChunk::finish(self.id.clone(), self.created, self.model.clone(), reason));
        chunks.push(SseChunk::usage(self.id.clone(), self.created, self.model.clone(), usage));
        assert(chunks_view(chunks@) =~= closing_chunks(
            self.id@,
            self.created,
            self.model@,
            flow,
            calls_view(calls@),
            finish,
            usage,
        ));
        chunks
    }

    /// The chunks that end the stream of a generation. The tool calls are read
    /// where the generation stopped at one.
    pub fn finish(&self, outcome: &GenerationOutcome, usage: Usage) -> (chunks: Vec<SseChunk>)
        requires
            self.well_formed(),
        ensures
            exists|calls: Seq<ToolCallView>|
                read_at_end(calls, *outcome) && chunks_view(chunks@) == #[trigger] closing_chunks(
                    self.id@,
                    self.created,
                    self.model@,
                    self.flow(),
                    calls,
                    outcome.finish,
                    usage,
                ),
    {
        let calls = if outcome.finish == FinishReason::ToolCalls {
            let (_answer, calls) = parse_tool_calls(outcome.text.as_str());
            calls
        } else {
            Vec::new()
        };
        assert(read_at_end(calls_view(calls@), *outcome));
        self.close(calls, outcome.finish, usage)
    }
}

/// `calls` are the tool calls that a stream reports at its end.
pub open spec fn read_at_end(calls: Seq<ToolCallView>, outcome: GenerationOutcome) -> bool {
    if outcome.finish == FinishReason::ToolCalls {
        calls_match(calls, calls_in(outcome.text@))
    } else {
        calls.len() == 0
    }
}

/// Begins the stream of an answer of `model`, under an identifier and a time of
/// its own.
pub fn start_stream(model: String) -> (s: StreamState)
    ensures
        s.well_formed(),
        is_completion_id(s.id@),
        s.model@ == model@,
        s.text_buf@ == Seq::<char>::empty(),
        s.flow() == no_flow(),
{
    let id = new_completion_id();
    StreamState::new(id, now_timestamp(), model)
}

/// The event that tells the client of an error instead of silently ending the
/// stream.
pub open spec fn error_event_json(message: Seq<char>) -> Json {
    Json::Object(
        seq![
            (
                "error"@,
                Json::Object(
                    seq![
                        ("message"@, Json::Text(message)),
                        ("type"@, Json::Text("server_error"@)),
                    ],
                ),
            ),
        ],
    )
}

/// The data of the event that tells the client of an error.
pub fn error_event(e: &LlmError) -> (data: String)
    ensures
        data@ == json_text(error_event_json(e.text())),
{
    let mut detail = new_object();
    insert_entry(&mut detail, "message".to_string(), text_value(e.message()));
    insert_entry(&mut detail, "type".to_string(), text_value("server_error".to_string()));
    proof {
        reveal_strlit("message");
        reveal_strlit("type");
        assert(text_before("message"@, "type"@));
    }
    let mut body = new_object();
    insert_entry(&mut body, "error".to_string(), object_value(detail));
    let value = object_value(body);
    proof {
        let inner = seq![("message"@, Json::Text(e.text()))];
        assert(with_entry(Seq::empty(), "message"@, Json::Text(e.text())) =~= inner);
        assert(with_entry(inner, "type"@, Json::Text("server_error"@)) =~= inner.push(
            ("type"@, Json::Text("server_error"@)),
        ));
        assert(inner.push(("type"@, Json::Text("server_error"@))) =~= seq![
            ("message"@, Json::Text(e.text())),
            ("type"@, Json::Text("server_error"@)),
        ]);
        assert(value_view(value) == error_event_json(e.text()));
    }
    value_text(&value)
}

// ---------------------------------------------------------------------------
// The end of a stream
// ---------------------------------------------------------------------------

/// An event of a stream: a chunk, or a text that stands for itself.
pub enum StreamEvent {
    Chunk(SseChunk),
    Text(String),
}

/// The texts of an event.
pub enum StreamEventView {
    Chunk(SseChunkView),
    Text(Seq<char>),
}

impl View for StreamEvent {
    type V = StreamEventView;

    open spec fn view(&self) -> StreamEventView {
        match self {
            StreamEvent::Chunk(c) => StreamEventView::Chunk(c@),
            StreamEvent::Text(s) => StreamEventView::Text(s@),
        }
    }
}

/// The events that end a stream.
pub struct StreamEnd {
    pub events: Vec<StreamEvent>,
}

/// The texts of events.
pub open spec fn events_view(events: Seq<StreamEvent>) -> Seq<StreamEventView> {
    events.map_values(|e: StreamEvent| e@)
}

/// The events of chunks.
pub open spec fn chunk_events(chunks: Seq<SseChunkView>) -> Seq<StreamEventView> {
    chunks.map_values(|c: SseChunkView| StreamEventView::Chunk(c))
}

/// `events` end a stream: after a generation the closing chunks, after an error
/// the event that tells of it, and then the terminator.
pub open spec fn ends_stream(
    events: Seq<StreamEventView>,
    id: Seq<char>,
    created: i64,
    model: Seq<char>,
    flow: Flow,
    outcome: Result<GenerationOutcome, LlmError>,
    prompt_tokens: u32,
    duration_ms: u64,
) -> bool {
    match outcome {
        Ok(o) => exists|calls: Seq<ToolCallView>|
            read_at_end(calls, o) && events == chunk_events(
                #[trigger] closing_chunks(
                    id,
                    created,
                    model,
                    flow,
                    calls,
                    o.finish,
                    usage_of(prompt_tokens, o.tokens@.len() as u32, duration_ms),
                ),
            ).push(StreamEventView::Text(DONE@)),
        Err(e) => events == seq![
            StreamEventView::Text(json_text(error_event_json(e.text()))),
            StreamEventView::Text(DONE@),
        ],
    }
}

/// The counters after a stream: a generation is counted, or an error.
pub open spec fn streamed(
    m: Metrics,
    outcome: Result<GenerationOutcome, LlmError>,
    prompt_tokens: u32,
    duration_ms: u64,
) -> Metrics {
    match outcome {
        Ok(o) => recorded(m, prompt_tokens, o, duration_ms),
        Err(_) => m.after_error(),
    }
}

/// The events that end a stream, for what the generation came to. The
/// generation or the error is counted.
pub fn end_stream(
    metrics: &mut Metrics,
    s: &StreamState,
    outcome: Result<GenerationOutcome, LlmError>,
    prompt_tokens: u32,
    duration_ms: u64,
) -> (end: StreamEnd)
    requires
        s.well_formed(),
        outcome matches Ok(o) ==> prompt_tokens + o.tokens@.len() <= u32::MAX,
    ensures
        ends_stream(
            events_view(end.events@),
            s.id@,
            s.created,
            s.model@,
            s.flow(),
            outcome,
            prompt_tokens,
            duration_ms,
        ),
        *final(metrics) == streamed(*old(metrics), outcome, prompt_tokens, duration_ms),
{
    let mut events: Vec<StreamEvent> = Vec::new();
    match outcome {
        Ok(o) => {
            record_outcome(metrics, prompt_tokens, &o, duration_ms);
            let usage = Usage::measured(prompt_tokens, o.tokens.len() as u32, duration_ms);
            let chunks = s.finish(&o, usage);
            let ghost calls = choose|calls: Seq<ToolCallView>|
                read_at_end(calls, o) && chunks_view(chunks@) == #[trigger] closing_chunks(
                    s.id@,
                    s.created,
                    s.model@,
                    s.flow(),
                    calls,
                    o.finish,
                    usage,
                );
            let ghost all = closing_chunks(
                s.id@,
                s.created,
                s.model@,
                s.flow(),
                calls,
                o.finish,
                usage,
            );
            let ghost list = chunks@;
            for chunk in it: chunks
                invariant
                    it.seq() == list,
                    chunks_view(list) == all,
                    events_view(events@) == chunk_events(all).take(it.index() as int),
            {
                let ghost before = events@;
                assert(chunk@ == all[it.index() as int]);
                events.push(StreamEvent::Chunk(chunk));
                assert(events_view(events@) =~= events_view(before).push(
                    StreamEventView::Chunk(chunk@),
                ));
                assert(chunk_events(all).take(it.index() + 1) =~= chunk_events(all).take(
                    it.index() as int,
                ).push(chunk_events(all)[it.index() as int]));
            }
            assert(chunk_events(all).take(all.len() as int) =~= chunk_events(all));
            let ghost before = events@;
            events.push(StreamEvent::Text(DONE.to_string()));
            assert(events_view(events@) =~= events_view(before).push(
                StreamEventView::Text(DONE@),
            ));
        },
        Err(e) => {
            count_error(metrics);
            events.push(StreamEvent::Text(error_event(&e)));
            events.push(StreamEvent::Text(DONE.to_string()));
            assert(events_view(events@) =~= seq![
                StreamEventView::Text(json_text(error_event_json(e.text()))),
                StreamEventView::Text(DONE@),
            ]);
        },
    }
    StreamEnd { events }
}

// ---------------------------------------------------------------------------
// Where the thinking ends
// ---------------------------------------------------------------------------

/// Once the thinking has ended, what comes later does not change where.
pub proof fn law_thinking_ends_once(before: Seq<char>, piece: Seq<char>)
    requires
        think_end(before) is Some,
    ensures
        think_end(before + piece) == think_end(before),
        think_end(before)->0 <= byte_len(before),
{
    reveal_strlit("</think>");
    lemma_find(before, "</think>"@);
    lemma_find_append(before, piece, "</think>"@);
    let n = find(before, "</think>"@)->0 + "</think>"@.len();
    assert((before + piece).take(n) =~= before.take(n));
    lemma_offsets_grow(before, n, before.len() as int);
    assert(before.take(before.len() as int) =~= before);
}

/// Where the thinking ends within a piece, it ends between two characters of
/// the piece.
pub proof fn lemma_boundary_in_piece(before: Seq<char>, piece: Seq<char>)
    ensures
        think_end(before) is Some ==> think_end(before + piece) == think_end(before),
        think_end(before + piece) matches Some(at) ==> at > byte_len(before) ==> {
            &&& is_boundary(piece, boundary_in(piece, byte_len(before), at))
            &&& boundary_in(piece, byte_len(before), at) == at - byte_len(before)
        },
        byte_len(before + piece) == byte_len(before) + byte_len(piece),
{
    reveal_strlit("</think>");
    let all = before + piece;
    let tag = "</think>"@;
    lemma_byte_len_add(before, piece);
    if think_end(before) is Some {
        law_thinking_ends_once(before, piece);
    }
    lemma_find(all, tag);
    if let Some(i) = find(all, tag) {
        let n = i + tag.len();
        let at = byte_len(all.take(n));
        if at > byte_len(before) {
            if n < before.len() {
                lemma_offsets_grow(all, n, before.len() as int);
                assert(all.take(before.len() as int) =~= before);
            }
            let k = n - before.len();
            assert(all.take(n) =~= before + piece.take(k));
            lemma_byte_len_add(before, piece.take(k));
            lemma_offsets_grow(piece, k, piece.len() as int);
            assert(piece.take(piece.len() as int) =~= piece);
            assert(is_offset(piece, at - byte_len(before), k));
        }
    }
}

/// How much is sent lies within the text, and reaches the end of the thinking
/// where that lies in it.
pub proof fn lemma_ready(sent: Seq<char>, new: Seq<char>)
    ensures
        0 <= ready(sent, new) <= new.len(),
        think_end(sent + new) matches Some(at) ==> at > byte_len(sent) ==> ({
            let part = new.take(ready(sent, new));
            let b = char_at_byte(new, boundary_in(new, byte_len(sent), at));
            &&& 0 <= b <= part.len()
            &&& is_offset(new, at - byte_len(sent), b)
            &&& boundary_in(part, byte_len(sent), at) == at - byte_len(sent)
            &&& is_boundary(part, at - byte_len(sent))
            &&& char_at_byte(part, at - byte_len(sent)) == b
            &&& at <= byte_len(sent + part)
        }),
{
    lemma_boundary_in_piece(sent, new);
    lemma_settled(new, Seq::empty());
    if let Some(at) = think_end(sent + new) {
        if at > byte_len(sent) {
            let rel = at - byte_len(sent);
            let b = char_at_byte(new, rel);
            assert(is_offset(new, rel, b));
            lemma_settled(new.skip(b), Seq::empty());
            let part = new.take(ready(sent, new));
            assert(part.take(b) =~= new.take(b));
            assert(is_offset(part, rel, b));
            lemma_offset_unique(part, rel, b);
            lemma_offsets_grow(part, b, part.len() as int);
            assert(part.take(part.len() as int) =~= part);
            lemma_byte_len_add(sent, part);
        }
    }
}

} // verus!
