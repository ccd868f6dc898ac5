//! What an answer says of what was generated, and what it counts.

use vstd::prelude::*;

use super::chat::{
    answered_calls, answers, planned, recorded, reported_reason, response_view, ChatPlan,
};
use super::error::AppError;
use super::metrics::Metrics;
use super::stream_laws::{all_deltas, flow_after, stream_deltas, stream_events};
use super::streaming::{
    chunk_events, closing_chunks, closing_deltas, delta_chunks, ends_stream, error_event_json,
    streamed, StreamEventView, DONE,
};
use crate::application::chat::cleaning::reasoning_and_answer;
use crate::application::chat::request::granted_tokens;
use crate::application::chat::tool_calls::{answer_beside_calls, calls_in};
use crate::domain::entity::{
    usage_of, ChatRequest, ChatResponseView, FinishReason, SseDeltaView, ToolCallView, Usage,
};
use crate::domain::error::LlmError;
use crate::identity::{is_completion_id, is_tool_call_id};
use crate::infrastructure::generation::GenerationOutcome;
use crate::json::{json_text, Json};
use crate::text::texts_of;

verus! {

// ---------------------------------------------------------------------------
// Answers that are not streamed
// ---------------------------------------------------------------------------

/// The reasoning is answered exactly where there is some, whatever tool calls,
/// content and reason for the end stand beside it.
pub proof fn law_reasoning_is_answered(
    id: Seq<char>,
    created: i64,
    model: Seq<char>,
    reasoning: Seq<char>,
    answer: Seq<char>,
    calls: Seq<ToolCallView>,
    finish: FinishReason,
    usage: Usage,
)
    ensures
        ({
            let r = response_view(id, created, model, reasoning, answer, calls, finish, usage);
            &&& r.choices.len() == 1
            &&& r.choices[0].message.reasoning_content is Some <==> reasoning.len() > 0
            &&& reasoning.len() > 0 ==> r.choices[0].message.reasoning_content == Some(reasoning)
        }),
{
}

/// Two answers that differ in their reasoning alone differ in nothing else, and
/// two that differ in their tool calls alone have the same reasoning and the
/// same content.
pub proof fn law_parts_of_an_answer_are_independent(
    id: Seq<char>,
    created: i64,
    model: Seq<char>,
    reasoning: (Seq<char>, Seq<char>),
    answer: Seq<char>,
    calls: (Seq<ToolCallView>, Seq<ToolCallView>),
    finish: FinishReason,
    usage: Usage,
)
    ensures
        ({
            let a = response_view(
                id,
                created,
                model,
                reasoning.0,
                answer,
                calls.0,
                finish,
                usage,
            );
            let b = response_view(
                id,
                created,
                model,
                reasoning.1,
                answer,
                calls.0,
                finish,
                usage,
            );
            let c = response_view(
                id,
                created,
                model,
                reasoning.0,
                answer,
                calls.1,
                finish,
                usage,
            );
            &&& a.choices[0].message.content == b.choices[0].message.content
            &&& a.choices[0].message.tool_calls == b.choices[0].message.tool_calls
            &&& a.choices[0].finish_reason == b.choices[0].finish_reason
            &&& a.choices[0].message.content == c.choices[0].message.content
            &&& a.choices[0].message.reasoning_content == c.choices[0].message.reasoning_content
        }),
{
}

/// The reason for the end as the client is told it.
pub proof fn law_reason_is_told(called: bool)
    ensures
        reported_reason(FinishReason::Stop, called) == "stop"@,
        reported_reason(FinishReason::Aborted, called) == "stop"@,
        reported_reason(FinishReason::Length, called) == "length"@,
        reported_reason(FinishReason::ToolCalls, true) == "tool_calls"@,
        reported_reason(FinishReason::ToolCalls, false) == "stop"@,
{
}

/// The usage counts the tokens of the prompt and of the answer, and their sum;
/// it tells the time, and the rate of the answer where time has passed.
pub proof fn law_usage_adds_up(prompt_tokens: u32, completion_tokens: u32, duration_ms: u64)
    requires
        prompt_tokens + completion_tokens <= u32::MAX,
    ensures
        ({
            let u = usage_of(prompt_tokens, completion_tokens, duration_ms);
            &&& u.prompt_tokens == prompt_tokens
            &&& u.completion_tokens == completion_tokens
            &&& u.total_tokens == u.prompt_tokens + u.completion_tokens
            &&& u.duration_ms == Some(duration_ms)
            &&& u.tokens_per_second is Some <==> duration_ms > 0
            &&& u.tokens_per_second matches Some(rate) ==> rate.tokens == completion_tokens
                && rate.ms == duration_ms
        }),
{
}

/// An answer that is not streamed says all of what was generated, and nothing
/// else: one choice, by the assistant, with the reasoning where there is some,
/// the answer, a tool call for each call that was read in it, and why the
/// generation ended; and the tokens that the request took.
pub proof fn law_answer_is_complete(
    r: ChatResponseView,
    model: Seq<char>,
    prompt_tokens: u32,
    outcome: GenerationOutcome,
    duration_ms: u64,
)
    requires
        answers(r, model, prompt_tokens, outcome, duration_ms),
        prompt_tokens + outcome.tokens@.len() <= u32::MAX,
    ensures
        ({
            let (reasoning, cleaned) = reasoning_and_answer(outcome.text@);
            let read = calls_in(cleaned);
            let choice = r.choices[0];
            &&& is_completion_id(r.id)
            &&& r.object == "chat.completion"@
            &&& r.model == model
            &&& r.choices.len() == 1
            &&& choice.index == 0
            &&& choice.message.role == "assistant"@
            &&& choice.message.content == Some(answer_beside_calls(cleaned))
            &&& choice.message.reasoning_content == if reasoning.len() > 0 {
                Some(reasoning)
            } else {
                None
            }
            &&& choice.message.tool_calls is None <==> read.len() == 0
            &&& choice.message.tool_calls matches Some(calls) ==> calls.len() == read.len()
                && forall|i: int|
                #![trigger calls[i]]
                0 <= i < calls.len() ==> {
                    &&& is_tool_call_id(calls[i].id)
                    &&& calls[i].call_type == "function"@
                    &&& calls[i].name == read[i].name
                    &&& calls[i].arguments == json_text(Json::Object(read[i].entries))
                }
            &&& choice.finish_reason == match outcome.finish {
                FinishReason::Length => "length"@,
                FinishReason::ToolCalls => if read.len() > 0 {
                    "tool_calls"@
                } else {
                    "stop"@
                },
                _ => "stop"@,
            }
            &&& r.usage.prompt_tokens == prompt_tokens
            &&& r.usage.completion_tokens == outcome.tokens@.len()
            &&& r.usage.total_tokens == prompt_tokens + outcome.tokens@.len()
            &&& r.usage.duration_ms == Some(duration_ms)
        }),
{
    let calls = answered_calls(r);
    assert(calls.len() == calls_in(reasoning_and_answer(outcome.text@).1).len());
}

// ---------------------------------------------------------------------------
// What is counted
// ---------------------------------------------------------------------------

/// A generation counts its tokens and its time, and one aborted request where it
/// was aborted; it counts no request, no stream and no error. An error in place
/// of it counts one error and nothing else.
pub proof fn law_generation_is_counted(
    m: Metrics,
    prompt_tokens: u32,
    outcome: GenerationOutcome,
    e: LlmError,
    duration_ms: u64,
)
    requires
        outcome.tokens@.len() <= u32::MAX,
        m.prompt_tokens_total + prompt_tokens <= u64::MAX,
        m.completion_tokens_total + outcome.tokens@.len() <= u64::MAX,
        m.generation_ms_total + duration_ms <= u64::MAX,
        m.aborted_total < u64::MAX,
        m.errors_total < u64::MAX,
    ensures
        ({
            let n = recorded(m, prompt_tokens, outcome, duration_ms);
            &&& n == streamed(m, Ok(outcome), prompt_tokens, duration_ms)
            &&& n.prompt_tokens_total == m.prompt_tokens_total + prompt_tokens
            &&& n.completion_tokens_total == m.completion_tokens_total + outcome.tokens@.len()
            &&& n.generation_ms_total == m.generation_ms_total + duration_ms
            &&& n.aborted_total == m.aborted_total + if outcome.finish == FinishReason::Aborted {
                1int
            } else {
                0
            }
            &&& n.requests_total == m.requests_total
            &&& n.streaming_total == m.streaming_total
            &&& n.errors_total == m.errors_total
        }),
        ({
            let n = streamed(m, Err(e), prompt_tokens, duration_ms);
            &&& n.errors_total == m.errors_total + 1
            &&& n == (Metrics { errors_total: n.errors_total, ..m })
        }),
{
}

/// Every request is counted once, as a stream only where it asks for one, and
/// an error is counted exactly where it fails.
pub proof fn law_request_is_counted(m: Metrics, streaming: bool, failed: bool)
    requires
        m.requests_total < u64::MAX,
        m.streaming_total < u64::MAX,
        m.errors_total < u64::MAX,
    ensures
        ({
            let n = m.after_request(streaming).after_answer(failed);
            &&& n.requests_total == m.requests_total + 1
            &&& n.streaming_total == m.streaming_total + if streaming {
                1int
            } else {
                0
            }
            &&& n.errors_total == m.errors_total + if failed {
                1int
            } else {
                0
            }
            &&& n.aborted_total == m.aborted_total
            &&& n.prompt_tokens_total == m.prompt_tokens_total
            &&& n.completion_tokens_total == m.completion_tokens_total
            &&& n.generation_ms_total == m.generation_ms_total
        }),
{
}

// ---------------------------------------------------------------------------
// What a request is granted
// ---------------------------------------------------------------------------

/// A request gets the number of tokens that it asks for, or 256, unless the cap
/// is less: the greatest number that exceeds neither. Asking for more never
/// gives less.
pub proof fn law_tokens_are_granted(asked: Option<u32>, more: u32, cap: u32)
    ensures
        asked matches Some(k) ==> granted_tokens(asked, cap) <= k && (cap == 0 || k <= cap
            ==> granted_tokens(asked, cap) == k) && (k <= more ==> granted_tokens(asked, cap)
            <= granted_tokens(Some(more), cap)),
        asked is None ==> granted_tokens(asked, cap) == granted_tokens(Some(256), cap),
        cap > 0 ==> granted_tokens(asked, cap) <= cap,
        asked matches Some(k) && cap > 0 && k > cap ==> granted_tokens(asked, cap) == cap,
{
}

/// A request whose prompt was built gets that prompt, its own stop sequences in
/// their order, and a stream exactly where it asks for one. One whose prompt
/// could not be built gets a fault of the server.
pub proof fn law_request_gets_what_it_asks(
    r: Result<ChatPlan, AppError>,
    req: ChatRequest,
    cap: u32,
    prompt: Result<Seq<char>, Seq<char>>,
)
    requires
        planned(r, req, cap, prompt),
    ensures
        r is Ok <==> prompt is Ok,
        r matches Ok(plan) ==> {
            &&& Ok::<Seq<char>, Seq<char>>(plan.prompt@) == prompt
            &&& plan.streaming <==> req.stream == Some(true)
            &&& req.stop is None ==> plan.stop@.len() == 0
            &&& req.stop matches Some(stop) ==> plan.stop@.len() == stop@.len() && forall|i: int|
                0 <= i < stop@.len() ==> (#[trigger] plan.stop@[i])@ == stop@[i]@
            &&& cap > 0 ==> plan.max_tokens <= cap
        },
        r matches Err(e) ==> e.reply_view().status == 500,
{
    if let Ok(plan) = r {
        if let Some(stop) = req.stop {
            assert(texts_of(plan.stop@).len() == texts_of(stop@).len());
            assert forall|i: int| 0 <= i < stop@.len() implies (#[trigger] plan.stop@[i])@
                == stop@[i]@ by {
                assert(texts_of(plan.stop@)[i] == texts_of(stop@)[i]);
            }
        } else {
            assert(texts_of(plan.stop@).len() == 0);
        }
    }
}

// ---------------------------------------------------------------------------
// Streams
// ---------------------------------------------------------------------------

/// The delta adds nothing to an answer.
pub open spec fn adds_nothing(d: SseDeltaView) -> bool {
    &&& d.role is None
    &&& d.content is None
    &&& d.reasoning_content is None
    &&& d.tool_calls is None
}

/// The delta adds one thing to an answer, and no empty one: to its reasoning, to
/// its content, or its tool calls.
pub open spec fn adds_one_thing(d: SseDeltaView) -> bool {
    &&& d.role is None
    &&& {
        ||| d.reasoning_content is Some && d.content is None && d.tool_calls is None
        ||| d.reasoning_content is None && d.content is Some && d.tool_calls is None
        ||| d.reasoning_content is None && d.content is None && d.tool_calls is Some
    }
    &&& d.reasoning_content matches Some(s) ==> s.len() > 0
    &&& d.content matches Some(s) ==> s.len() > 0
    &&& d.tool_calls matches Some(calls) ==> calls.len() > 0
}

proof fn lemma_pieces_add_one_thing(pieces: Seq<Seq<char>>, i: int)
    requires
        0 <= i < stream_deltas(pieces).len(),
    ensures
        adds_one_thing(stream_deltas(pieces)[i]),
    decreases pieces.len(),
{
    if pieces.len() > 0 {
        let first = stream_deltas(pieces.drop_last());
        if i < first.len() {
            lemma_pieces_add_one_thing(pieces.drop_last(), i);
        }
    }
}

/// Every delta of a stream adds one thing to the answer, and no empty one.
pub proof fn law_each_delta_adds_one_thing(
    pieces: Seq<Seq<char>>,
    calls: Seq<ToolCallView>,
    i: int,
)
    requires
        0 <= i < all_deltas(pieces, calls).len(),
    ensures
        adds_one_thing(all_deltas(pieces, calls)[i]),
{
    if i < stream_deltas(pieces).len() {
        lemma_pieces_add_one_thing(pieces, i);
    }
}

/// A chunk that carries a delta carries it alone, under the identifier, the time
/// and the model of its stream.
pub proof fn law_chunk_carries_delta(
    id: Seq<char>,
    created: i64,
    model: Seq<char>,
    deltas: Seq<SseDeltaView>,
    i: int,
)
    requires
        0 <= i < deltas.len(),
    ensures
        delta_chunks(id, created, model, deltas).len() == deltas.len(),
        ({
            let c = delta_chunks(id, created, model, deltas)[i];
            &&& c.id == id && c.created == created && c.model == model
            &&& c.object == "chat.completion.chunk"@
            &&& c.choices.len() == 1
            &&& c.choices[0].index == 0
            &&& c.choices[0].delta == deltas[i]
            &&& c.choices[0].finish_reason is None
            &&& c.usage is None
        }),
{
}

/// The tool calls that an event carries.
pub open spec fn event_calls(e: StreamEventView) -> Option<Seq<ToolCallView>> {
    match e {
        StreamEventView::Chunk(c) => if c.choices.len() == 0 {
            None
        } else {
            c.choices[0].delta.tool_calls
        },
        StreamEventView::Text(_) => None,
    }
}

/// A stream begins by announcing the assistant, and nothing else.
pub proof fn law_stream_announces_assistant(
    id: Seq<char>,
    created: i64,
    model: Seq<char>,
    pieces: Seq<Seq<char>>,
    end: Seq<StreamEventView>,
)
    ensures
        stream_events(id, created, model, pieces, end)[0] matches StreamEventView::Chunk(c) && {
            &&& c.choices.len() == 1
            &&& c.choices[0].index == 0
            &&& c.choices[0].delta.role == Some("assistant"@)
            &&& c.choices[0].delta.content is None
            &&& c.choices[0].delta.reasoning_content is None
            &&& c.choices[0].delta.tool_calls is None
            &&& c.choices[0].finish_reason is None
        },
{
}

proof fn lemma_no_calls_in_pieces(pieces: Seq<Seq<char>>, i: int)
    requires
        0 <= i < stream_deltas(pieces).len(),
    ensures
        stream_deltas(pieces)[i].tool_calls is None,
        stream_deltas(pieces)[i].role is None,
    decreases pieces.len(),
{
    if pieces.len() > 0 {
        let first = stream_deltas(pieces.drop_last());
        if i < first.len() {
            lemma_no_calls_in_pieces(pieces.drop_last(), i);
        }
    }
}

/// A stream that stopped at tool calls carries the calls that were read from
/// the whole text, if any, in one event right before the reason for its end; a
/// stream that ended for another reason carries none. The reason tells of tool
/// calls exactly where the stream carries some, and the usage comes last.
pub proof fn law_stream_carries_calls(
    id: Seq<char>,
    created: i64,
    model: Seq<char>,
    pieces: Seq<Seq<char>>,
    o: GenerationOutcome,
    prompt_tokens: u32,
    duration_ms: u64,
    end: Seq<StreamEventView>,
)
    requires
        ends_stream(
            end,
            id,
            created,
            model,
            flow_after(pieces),
            Ok(o),
            prompt_tokens,
            duration_ms,
        ),
    ensures
        ({
            let events = stream_events(id, created, model, pieces, end);
            let n = events.len() as int;
            let read = if o.finish == FinishReason::ToolCalls {
                calls_in(o.text@)
            } else {
                Seq::empty()
            };
            &&& n >= 4
            &&& forall|i: int|
                0 <= i < n && event_calls(#[trigger] events[i]) is Some ==> i == n - 4
            &&& read.len() == 0 ==> event_calls(events[n - 4]) is None
            &&& read.len() > 0 ==> (event_calls(events[n - 4]) matches Some(calls) && calls.len()
                == read.len() && forall|k: int|
                #![trigger calls[k]]
                0 <= k < calls.len() ==> {
                    &&& is_tool_call_id(calls[k].id)
                    &&& calls[k].call_type == "function"@
                    &&& calls[k].name == read[k].name
                    &&& calls[k].arguments == json_text(Json::Object(read[k].entries))
                })
            &&& events[n - 3] matches StreamEventView::Chunk(c) && c.choices.len() == 1
                && c.choices[0].index == 0 && adds_nothing(c.choices[0].delta) && c.usage is None
                && c.choices[0].finish_reason == Some(
                match o.finish {
                    FinishReason::Length => "length"@,
                    FinishReason::ToolCalls => if read.len() > 0 {
                        "tool_calls"@
                    } else {
                        "stop"@
                    },
                    _ => "stop"@,
                },
            )
            &&& events[n - 2] matches StreamEventView::Chunk(c) && c.choices.len() == 0 && (
            c.usage matches Some(u) && u.prompt_tokens == prompt_tokens && u.duration_ms == Some(
                duration_ms,
            ))
            &&& events[n - 1] == StreamEventView::Text("[DONE]"@)
        }),
{
    let events = stream_events(id, created, model, pieces, end);
    let n = events.len() as int;
    let usage = usage_of(prompt_tokens, o.tokens@.len() as u32, duration_ms);
    let flow = flow_after(pieces);
    let calls = choose|calls: Seq<ToolCallView>|
        super::streaming::read_at_end(calls, o) && end == chunk_events(
            #[trigger] closing_chunks(id, created, model, flow, calls, o.finish, usage),
        ).push(StreamEventView::Text(DONE@));
    let closing = closing_chunks(id, created, model, flow, calls, o.finish, usage);
    let deltas = closing_deltas(flow, calls);
    let last = delta_chunks(id, created, model, deltas);
    let first = delta_chunks(id, created, model, stream_deltas(pieces));
    let k = 1 + first.len() as int;
    assert(end.len() == last.len() + 3);
    assert(n == k + end.len());
    assert forall|i: int| 0 <= i < k implies event_calls(#[trigger] events[i]) is None by {
        if i > 0 {
            lemma_no_calls_in_pieces(pieces, i - 1);
            assert(events[i] == chunk_events(first)[i - 1]);
        }
    }
    assert forall|i: int| k <= i < n - 3 implies event_calls(#[trigger] events[i]) == deltas[i
        - k].tool_calls by {
        assert(events[i] == end[i - k]);
        assert(end[i - k] == StreamEventView::Chunk(last[i - k]));
    }
    assert(events[n - 1] == end[end.len() - 1]);
    assert(events[n - 2] == end[end.len() - 2]);
    assert(events[n - 3] == end[end.len() - 3]);
    let d = deltas.len() as int;
    assert(forall|i: int| 0 <= i < d - 1 ==> (#[trigger] deltas[i]).tool_calls is None);
    if calls.len() > 0 {
        assert(d > 0 && deltas[d - 1].tool_calls == Some(calls));
    } else {
        assert(forall|i: int| 0 <= i < d ==> (#[trigger] deltas[i]).tool_calls is None);
    }
}

/// The event that tells of an error is one JSON object, `error`, with the
/// message of the error and the type `server_error`; the terminator follows.
pub proof fn law_stream_tells_of_error(
    end: Seq<StreamEventView>,
    id: Seq<char>,
    created: i64,
    model: Seq<char>,
    pieces: Seq<Seq<char>>,
    e: LlmError,
    prompt_tokens: u32,
    duration_ms: u64,
)
    requires
        ends_stream(
            end,
            id,
            created,
            model,
            flow_after(pieces),
            Err(e),
            prompt_tokens,
            duration_ms,
        ),
    ensures
        end.len() == 2,
        end[1] == StreamEventView::Text("[DONE]"@),
        exists|body: Seq<(Seq<char>, Json)>, detail: Seq<(Seq<char>, Json)>|
            {
                &&& end[0] == StreamEventView::Text(#[trigger] json_text(Json::Object(body)))
                &&& body.len() == 1
                &&& body[0] == ("error"@, Json::Object(detail))
                &&& detail.len() == 2
                &&& #[trigger] detail.contains(("message"@, Json::Text(e.text())))
                &&& detail.contains(("type"@, Json::Text("server_error"@)))
            },
{
    let body = error_event_json(e.text())->Object_0;
    let detail = body[0].1->Object_0;
    assert(detail[0] == ("message"@, Json::Text(e.text())));
    assert(detail[1] == ("type"@, Json::Text("server_error"@)));
    assert(detail.contains(("message"@, Json::Text(e.text()))));
    assert(detail.contains(("type"@, Json::Text("server_error"@))));
    assert(body[0] == ("error"@, Json::Object(detail)));
    assert(body.len() == 1 && detail.len() == 2);
    assert(error_event_json(e.text()) == Json::Object(body));
    assert(end[0] == StreamEventView::Text(json_text(Json::Object(body))));
}

} // verus!
