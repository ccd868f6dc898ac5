//! The plain server.

use llm_api::domain::entity::FinishReason;
use llm_api::plain::{
    build_prompt, chat_completions, clean_text, decode_tokens, end_chunk, engine_failure,
    piece_chunk, respond, role_chunk, token_limit, PlainAction, PlainMessage, PlainRequest,
    PlainRun, Stage,
};

fn message(role: &str, content: &str) -> PlainMessage {
    PlainMessage { role: role.into(), content: content.into() }
}

#[test]
fn plain_prompt_is_exact() {
    assert_eq!(
        build_prompt(&[
            message("system", "Be brief."),
            message("user", "Hi"),
            message("assistant", "Yo"),
            message("tool", "x"),
        ]),
        "<|im_start|>system\nBe brief.<|im_end|>\n<|im_start|>user\nHi<|im_end|>\n<|im_start|>assistant\nYo<|im_end|>\n<|im_start|>user\nx<|im_end|>\n<|im_start|>assistant\n<think>\n\n</think>\n\n"
    );
    assert_eq!(build_prompt(&[]), "<|im_start|>assistant\n<think>\n\n</think>\n\n");
}

#[test]
fn plain_token_limit() {
    assert_eq!(token_limit(None), 256);
    assert_eq!(token_limit(Some(0)), 0);
    assert_eq!(token_limit(Some(1024)), 1024);
    assert_eq!(token_limit(Some(1025)), 1024);
}

#[test]
fn plain_text_is_cleaned() {
    assert_eq!(clean_text(" <think>a</think> b<|im_end|>\n"), "a b");
    assert_eq!(clean_text("<|im_start|>"), "");
    assert_eq!(decode_tokens(&vec!["<thi".into(), "nk>a".into(), " b ".into()]), "a b");
}

fn request(stream: Option<bool>) -> PlainRequest {
    PlainRequest {
        model: "m".into(),
        messages: vec![message("user", "Hi")],
        max_tokens: Some(2000),
        temperature: None,
        stream,
    }
}

#[test]
fn plain_requests_are_planned() {
    let plan = chat_completions("", &None, &request(Some(true))).ok().unwrap();
    assert!(plan.id.starts_with("chatcmpl-"));
    assert!(plan.created > 1_600_000_000);
    assert_eq!(plan.max_tokens, 1024);
    assert!(plan.streaming);
    assert_eq!(plan.prompt, build_prompt(&[message("user", "Hi")]));
    let refusal = chat_completions("k", &None, &request(None)).err().unwrap();
    assert_eq!(refusal.status, 401);
    let plan = chat_completions("k", &Some("k".into()), &request(None)).ok().unwrap();
    assert!(!plan.streaming);
}

const END: i32 = -1;

fn run(max: u32, streaming: bool, tokens: &[i32], feeds: usize) -> (Vec<i32>, PlainAction, Vec<i32>, usize) {
    let mut r = PlainRun::start(4, max, streaming);
    let mut sampled = 0;
    let mut positions = Vec::new();
    loop {
        match r.action() {
            PlainAction::Sample => {
                let token = if sampled < tokens.len() { tokens[sampled] } else { END };
                sampled += 1;
                assert!(r.has_room());
                r.sampled(token, token == END);
            }
            PlainAction::Feed(_, pos) => {
                positions.push(pos);
                r.fed(positions.len() < feeds);
            }
            last => return (r.output, last, positions, sampled),
        }
    }
}

#[test]
fn plain_runs_end_at_the_end_token() {
    for streaming in [true, false] {
        let (out, last, positions, _) = run(9, streaming, &[7, 8, END], 99);
        assert_eq!(out, vec![7, 8]);
        assert_eq!(last, PlainAction::Finish(FinishReason::Stop));
        assert_eq!(positions, vec![4, 5]);
        let (out, last, _, _) = run(9, streaming, &[END], 99);
        assert!(out.is_empty());
        assert_eq!(last, PlainAction::Finish(FinishReason::Stop));
    }
}

#[test]
fn plain_runs_end_when_tokens_are_used_up() {
    for streaming in [true, false] {
        let (out, last, _, sampled) = run(2, streaming, &[7, 8, END], 99);
        assert_eq!(out, vec![7, 8]);
        assert_eq!(last, PlainAction::Finish(FinishReason::Length));
        assert_eq!(sampled, if streaming { 2 } else { 3 });
        let (out, last, _, _) = run(0, streaming, &[END], 99);
        assert!(out.is_empty());
        assert_eq!(last, PlainAction::Finish(FinishReason::Length));
    }
}

#[test]
fn plain_runs_break_off() {
    let (out, last, positions, _) = run(9, true, &[7, 8, 9], 2);
    assert_eq!(out, vec![7, 8]);
    assert_eq!(last, PlainAction::Fail);
    assert_eq!(positions, vec![4, 5]);
}

#[test]
fn plain_chunks() {
    let c = role_chunk("i".into(), 1, "m".into());
    assert_eq!(c.choices[0].delta.role.as_deref(), Some("assistant"));
    let c = piece_chunk("i".into(), 1, "m".into(), " word<|im_end|>").unwrap();
    assert_eq!(c.choices[0].delta.content.as_deref(), Some("word"));
    assert!(c.choices[0].delta.role.is_none());
    assert!(piece_chunk("i".into(), 1, "m".into(), " <think> ").is_none());
    let c = end_chunk("i".into(), 1, "m".into(), FinishReason::Length);
    assert_eq!(c.choices[0].finish_reason.as_deref(), Some("length"));
}

#[test]
fn plain_responses() {
    let pieces = vec!["<think>".to_string(), "</think> Yes".to_string(), ".".to_string()];
    let r = respond("i".into(), 1, "m".into(), 5, 4, &pieces);
    assert_eq!(r.object, "chat.completion");
    assert_eq!(r.choices[0].message.content.as_deref(), Some("Yes."));
    assert_eq!(r.choices[0].finish_reason, "stop");
    assert_eq!((r.usage.prompt_tokens, r.usage.completion_tokens, r.usage.total_tokens), (5, 3, 8));
    assert_eq!(r.usage.duration_ms, None);
    let r = respond("i".into(), 1, "m".into(), 5, 3, &pieces);
    assert_eq!(r.choices[0].finish_reason, "length");
}

#[test]
fn plain_failures() {
    let f = |s: Stage| {
        let r = engine_failure(s, "x");
        (r.status, r.body)
    };
    assert_eq!(f(Stage::Tokenize), (500, "x".to_string()));
    assert_eq!(f(Stage::Prefill), (500, "Prefill: x".to_string()));
    assert_eq!(f(Stage::Decode), (500, "Decode: x".to_string()));
}
