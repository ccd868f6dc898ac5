//! Streamed answers.

use llm_api::domain::entity::{FinishReason, SseChunk, SseDelta, Usage};
use llm_api::domain::error::LlmError;
use llm_api::infrastructure::generation::GenerationOutcome;
use llm_api::presentation::metrics::Metrics;
use llm_api::presentation::streaming::{
    end_stream, error_event, start_stream, StreamEvent, StreamState, DONE,
};

fn stream() -> StreamState {
    StreamState::new("id".into(), 5, "m".into())
}

fn reasoning(chunks: &[SseChunk]) -> String {
    let mut s = String::new();
    for c in chunks {
        for choice in &c.choices {
            s.push_str(choice.delta.reasoning_content.as_deref().unwrap_or(""));
        }
    }
    s
}

fn content(chunks: &[SseChunk]) -> String {
    let mut s = String::new();
    for c in chunks {
        for choice in &c.choices {
            s.push_str(choice.delta.content.as_deref().unwrap_or(""));
        }
    }
    s
}

fn push_all(s: &mut StreamState, pieces: &[&str]) -> Vec<SseChunk> {
    let mut all = Vec::new();
    for p in pieces {
        all.extend(s.push_piece(p));
    }
    all
}

fn outcome(text: &str, finish: FinishReason) -> GenerationOutcome {
    GenerationOutcome { tokens: vec![], text: text.to_string(), finish }
}

#[test]
fn streams_start_with_the_role() {
    let s = start_stream("m".into());
    let c = s.role_chunk();
    assert!(c.id.starts_with("chatcmpl-"));
    assert_eq!(c.object, "chat.completion.chunk");
    assert_eq!(c.model, "m");
    assert_eq!(c.choices[0].delta.role.as_deref(), Some("assistant"));
    assert!(c.choices[0].delta.content.is_none());
    assert!(c.choices[0].finish_reason.is_none());
    assert!(c.usage.is_none());
}

#[test]
fn streams_keep_spaces_between_pieces() {
    let mut s = stream();
    let sent = push_all(&mut s, &["Let", " me", "  think", "", "\n"]);
    assert_eq!(reasoning(&sent), "Let me  think\n");
    assert_eq!(content(&sent), "");
    assert_eq!(sent.len(), 4);
    assert_eq!(s.content_start, None);
    assert_eq!(s.sent_len, 14);
}

#[test]
fn streams_split_at_the_closing_tag() {
    let mut s = stream();
    let sent = push_all(&mut s, &["héé ", "why?\n</think>\n\nBe", "cause ", "it is."]);
    assert_eq!(reasoning(&sent), "héé why?");
    assert_eq!(content(&sent), "Because it is.");
    assert_eq!(s.content_start, Some("héé why?\n</think>".len()));
    for c in &sent {
        assert_eq!((c.id.as_str(), c.created, c.model.as_str()), ("id", 5, "m"));
    }
}

#[test]
fn streams_find_a_tag_split_across_pieces() {
    let mut s = stream();
    let sent = push_all(&mut s, &["a</thi", "nk>b", "c"]);
    assert_eq!(reasoning(&sent), "a");
    assert_eq!(content(&sent), "bc");
    assert_eq!(s.content_start, Some(9));
}

#[test]
fn streams_do_not_depend_on_the_cut() {
    let text = "<think>sö <b>so</b> \n</think>\n it <|im_end|>is <tool_call><function=f x>y</function> 1 < 2 <par";
    let expected_reasoning = "sö <b>so</b>";
    let expected_content = "it is y 1 < 2 <par";
    let chars: Vec<char> = text.chars().collect();
    for size in 1..=chars.len() {
        let mut s = stream();
        let mut sent = Vec::new();
        for piece in chars.chunks(size) {
            let piece: String = piece.iter().collect();
            sent.extend(s.push_piece(&piece));
        }
        sent.extend(s.finish(&outcome(text, FinishReason::Stop), Usage::measured(0, 0, 0)));
        assert_eq!(reasoning(&sent).trim(), expected_reasoning, "{}", size);
        assert_eq!(content(&sent).trim(), expected_content, "{}", size);
    }
}

#[test]
fn streams_keep_back_the_start_of_a_tag() {
    let mut s = stream();
    assert_eq!(reasoning(&s.push_piece("a <|im")), "a ");
    assert_eq!(s.sent_len, 2);
    assert!(s.push_piece("_end|").is_empty());
    assert_eq!(reasoning(&s.push_piece("> b <")), " b ");
    // What is no tag after all is sent.
    assert_eq!(reasoning(&s.push_piece("3")), "<3");
    // What is kept back at the end is sent then.
    assert!(s.push_piece("<thi").is_empty());
    let end = s.finish(&outcome("", FinishReason::Stop), Usage::measured(0, 0, 0));
    assert_eq!(reasoning(&end), "<thi");
    assert_eq!(content(&end), "a  b <3<thi");
}

#[test]
fn streams_do_not_think_twice() {
    let mut s = stream();
    let sent = push_all(&mut s, &["a</think>b", "c</think>d"]);
    assert_eq!(reasoning(&sent), "a");
    assert_eq!(content(&sent), "bcd");
    assert_eq!(s.content_start, Some(9));
}

#[test]
fn streams_agree_with_answers_that_are_not_streamed() {
    let pieces = ["  so ", "what \n</think> \t", "it ", "is \n"];
    let mut s = stream();
    let sent = push_all(&mut s, &pieces);
    let (r, a) = llm_api::application::chat::clean_text(&pieces.concat());
    assert_eq!(reasoning(&sent).trim(), r);
    assert_eq!(content(&sent).trim(), a);
}

#[test]
fn streams_end_with_reason_and_usage() {
    let mut s = stream();
    push_all(&mut s, &["a</think>b"]);
    let usage = Usage::measured(3, 4, 5);
    let end = s.finish(&outcome("a</think>b", FinishReason::Length), usage);
    assert_eq!(end.len(), 2);
    assert_eq!(end[0].choices[0].finish_reason.as_deref(), Some("length"));
    assert!(end[0].usage.is_none());
    assert!(end[1].choices.is_empty());
    assert_eq!(end[1].usage, Some(usage));
    for c in &end {
        assert_eq!((c.id.as_str(), c.created, c.model.as_str()), ("id", 5, "m"));
    }
}

#[test]
fn streams_flush_unclosed_thinking() {
    let mut s = stream();
    push_all(&mut s, &["<think>all", " of it"]);
    let end = s.finish(&outcome("<think>all of it", FinishReason::Stop), Usage::measured(0, 0, 0));
    assert_eq!(end.len(), 3);
    assert_eq!(content(&end), "all of it");
    assert_eq!(end[1].choices[0].finish_reason.as_deref(), Some("stop"));
    // Nothing is flushed where nothing is left.
    let mut s = stream();
    push_all(&mut s, &["<think>"]);
    let end = s.finish(&outcome("<think>", FinishReason::Stop), Usage::measured(0, 0, 0));
    assert_eq!(end.len(), 2);
}

#[test]
fn streams_report_tool_calls() {
    let text = "x</think><tool_call>\n<function=f>\n<parameter=a>b</parameter>\n</function>\n</tool_call>";
    let mut s = stream();
    push_all(&mut s, &[text]);
    let end = s.finish(&outcome(text, FinishReason::ToolCalls), Usage::measured(0, 0, 0));
    assert_eq!(end.len(), 3);
    let calls = end[0].choices[0].delta.tool_calls.as_ref().unwrap();
    assert_eq!(calls[0].function.name, "f");
    assert_eq!(calls[0].function.arguments, "{\"a\":\"b\"}");
    assert_eq!(end[1].choices[0].finish_reason.as_deref(), Some("tool_calls"));
    // Tool calls are reported only where the generation stopped at one.
    let end = s.finish(&outcome(text, FinishReason::Stop), Usage::measured(0, 0, 0));
    assert_eq!(end.len(), 2);
    let end = s.finish(&outcome("none", FinishReason::ToolCalls), Usage::measured(0, 0, 0));
    assert_eq!(end[0].choices[0].finish_reason.as_deref(), Some("stop"));
}

#[test]
fn streams_report_errors() {
    assert_eq!(
        error_event(&LlmError::Model("Prefill: \"x\"".into())),
        "{\"error\":{\"message\":\"Model error: Prefill: \\\"x\\\"\",\"type\":\"server_error\"}}"
    );
    assert_eq!(DONE, "[DONE]");
}

fn texts(events: &[StreamEvent]) -> Vec<String> {
    events
        .iter()
        .map(|e| match e {
            StreamEvent::Chunk(c) => match c.choices.first() {
                Some(choice) => choice.finish_reason.clone().unwrap_or("delta".to_string()),
                None => "usage".to_string(),
            },
            StreamEvent::Text(t) => t.clone(),
        })
        .collect()
}

#[test]
fn streams_end_after_a_generation() {
    let mut s = stream();
    push_all(&mut s, &["a</think>b"]);
    let mut m = Metrics::new();
    let o = GenerationOutcome {
        tokens: vec![1, 2],
        text: "a</think>b".into(),
        finish: FinishReason::Aborted,
    };
    let end = end_stream(&mut m, &s, Ok(o), 5, 10);
    assert_eq!(texts(&end.events), vec!["stop", "usage", "[DONE]"]);
    match &end.events[1] {
        StreamEvent::Chunk(c) => assert_eq!(c.usage, Some(Usage::measured(5, 2, 10))),
        StreamEvent::Text(_) => panic!("text"),
    }
    assert_eq!((m.prompt_tokens_total, m.completion_tokens_total), (5, 2));
    assert_eq!((m.generation_ms_total, m.aborted_total, m.errors_total), (10, 1, 0));
}

#[test]
fn streams_end_after_an_error() {
    let mut m = Metrics::new();
    let end = end_stream(&mut m, &stream(), Err(LlmError::Model("x".into())), 5, 10);
    assert_eq!(
        texts(&end.events),
        vec![
            "{\"error\":{\"message\":\"Model error: x\",\"type\":\"server_error\"}}",
            "[DONE]",
        ]
    );
    assert_eq!((m.errors_total, m.prompt_tokens_total), (1, 0));
}

#[test]
fn chunks_have_the_shape_of_the_api() {
    let delta = SseDelta {
        role: None,
        content: Some("x".into()),
        reasoning_content: None,
        tool_calls: None,
    };
    let c = SseChunk::delta("i".into(), 1, "m".into(), delta);
    assert_eq!(c.object, "chat.completion.chunk");
    assert_eq!(c.choices.len(), 1);
    assert_eq!(c.choices[0].index, 0);
    assert_eq!(c.choices[0].delta.content.as_deref(), Some("x"));
    let c = SseChunk::finish("i".into(), 1, "m".into(), "stop");
    assert_eq!(c.choices[0].finish_reason.as_deref(), Some("stop"));
    assert!(c.choices[0].delta.content.is_none());
    let c = SseChunk::usage("i".into(), 1, "m".into(), Usage::measured(1, 2, 3));
    assert!(c.choices.is_empty());
    assert_eq!(c.usage.unwrap().total_tokens, 3);
}

#[test]
fn reasoning_comes_before_content() {
    for pieces in [vec!["a", "b</think>c", "d<"], vec!["<think>a", "b<"], vec!["</think>", "x"]] {
        let mut s = stream();
        let mut sent = push_all(&mut s, &pieces);
        sent.extend(s.finish(&outcome("", FinishReason::Stop), Usage::measured(0, 0, 0)));
        let mut answered = false;
        for c in &sent {
            for choice in &c.choices {
                assert!(!(answered && choice.delta.reasoning_content.is_some()));
                answered = answered || choice.delta.content.is_some();
            }
        }
        assert!(answered);
    }
}
