//! The generation loop, token texts and batches.

use llm_api::domain::entity::FinishReason;
use llm_api::infrastructure::generation::{Action, Generation, GenerationOutcome};
use llm_api::infrastructure::pieces::{
    join_pieces, prefill_batch, read_piece, read_retried_piece, BatchEntry, PieceReply, PieceStep,
};

const END: i32 = -1;

/// Runs a generation in which the model gives `tokens`, then ends; a token's
/// text is in `texts` under its number. Gives the outcome and what was fed.
fn generate(
    prompt_len: usize,
    max_tokens: u32,
    stop: &[&str],
    tokens: &[i32],
    texts: &[&str],
    wanted: usize,
    feeds: usize,
) -> (GenerationOutcome, Vec<(i32, i32)>) {
    let mut g = Generation::start(
        prompt_len,
        max_tokens,
        stop.iter().map(|s| s.to_string()).collect(),
    );
    let mut next = 0;
    let mut read = 0;
    let mut fed: Vec<(i32, i32)> = Vec::new();
    loop {
        match g.action() {
            Action::Sample => {
                let token = if next < tokens.len() { tokens[next] } else { END };
                next += 1;
                assert!(g.has_room());
                g.sampled(token, token == END);
            }
            Action::Read(token) => {
                read += 1;
                g.read(texts[token as usize], read < wanted);
            }
            Action::Feed(token, pos) => {
                fed.push((token, pos));
                let ok = fed.len() < feeds;
                g.fed(ok);
            }
            Action::Finish(reason) => {
                let outcome = g.into_outcome().unwrap();
                assert_eq!(outcome.finish, reason);
                return (outcome, fed);
            }
        }
    }
}

#[test]
fn generation_ends_at_the_end_token() {
    let (o, fed) = generate(10, 100, &[], &[0, 1, END], &["Hello", " world"], 99, 99);
    assert_eq!(o.tokens, vec![0, 1]);
    assert_eq!(o.text, "Hello world");
    assert_eq!(o.finish, FinishReason::Stop);
    assert_eq!(fed, vec![(0, 10), (1, 11)]);
}

#[test]
fn generation_ends_when_tokens_are_used_up() {
    let (o, fed) = generate(3, 2, &[], &[0, 0, 0], &["a"], 99, 99);
    assert_eq!(o.tokens, vec![0, 0]);
    assert_eq!(o.finish, FinishReason::Length);
    assert_eq!(fed, vec![(0, 3), (0, 4)]);
    // An end token right after the last token changes nothing.
    let (o, _) = generate(3, 2, &[], &[0, 0, END], &["a"], 99, 99);
    assert_eq!(o.finish, FinishReason::Length);
}

#[test]
fn generation_of_no_tokens() {
    let (o, _) = generate(3, 0, &[], &[0], &["a"], 99, 99);
    assert_eq!(o.tokens, Vec::<i32>::new());
    assert_eq!(o.finish, FinishReason::Length);
    let (o, fed) = generate(3, 0, &[], &[END], &["a"], 99, 1);
    assert_eq!(o.finish, FinishReason::Length);
    assert_eq!(fed, vec![(END, 3)]);
}

#[test]
fn generation_skips_leading_end_tokens() {
    let (o, fed) = generate(5, 9, &[], &[END, END, 0, END], &["a"], 99, 99);
    assert_eq!(o.text, "a");
    assert_eq!(o.finish, FinishReason::Stop);
    assert_eq!(fed, vec![(END, 5), (END, 5), (0, 5)]);
    let (o, _) = generate(5, 9, &[], &[END, 0], &["a"], 99, 1);
    assert_eq!(o.text, "");
    assert_eq!(o.finish, FinishReason::Stop);
}

#[test]
fn generation_stops_at_a_stop_sequence() {
    let (o, fed) = generate(0, 9, &["zzz", "END"], &[0, 1, 2, 3], &["x", " E", "ND", "y"], 99, 99);
    assert_eq!(o.text, "x END");
    assert_eq!(o.tokens, vec![0, 1, 2]);
    assert_eq!(o.finish, FinishReason::Stop);
    assert_eq!(fed, vec![(0, 0), (1, 1)]);
}

#[test]
fn generation_stops_at_a_complete_tool_call() {
    let texts = ["<tool_call>", "x", "</tool_call>", "y"];
    let (o, _) = generate(0, 9, &[], &[0, 1, 2, 3], &texts, 99, 99);
    assert_eq!(o.text, "<tool_call>x</tool_call>");
    assert_eq!(o.finish, FinishReason::ToolCalls);
    // A second one that is open keeps it going.
    let (o, _) = generate(
        0,
        9,
        &[],
        &[0, 1, 2],
        &["<tool_call>a<tool_call>", "</tool_call>", "</tool_call>"],
        99,
        99,
    );
    assert_eq!(o.tokens.len(), 3);
    assert_eq!(o.finish, FinishReason::ToolCalls);
    // A closing tag alone is no call.
    let (o, _) = generate(0, 9, &[], &[2, END], &texts, 99, 99);
    assert_eq!(o.finish, FinishReason::Stop);
}

#[test]
fn generation_is_aborted() {
    let (o, fed) = generate(0, 9, &[], &[0, 1], &["a", "b"], 2, 99);
    assert_eq!(o.text, "ab");
    assert_eq!(o.finish, FinishReason::Aborted);
    assert_eq!(fed, vec![(0, 0)]);
    let (o, _) = generate(0, 9, &[], &[0, 1], &["a", "b"], 99, 1);
    assert_eq!(o.text, "a");
    assert_eq!(o.finish, FinishReason::Aborted);
}

#[test]
fn generation_in_progress_has_no_outcome() {
    assert!(Generation::start(1, 1, vec![]).into_outcome().is_none());
}

#[test]
fn generation_knows_when_positions_run_out() {
    let mut g = Generation::start(i32::MAX as usize, 9, vec![]);
    assert!(g.has_room());
    g.sampled(1, false);
    g.read("x", true);
    assert_eq!(g.action(), Action::Feed(1, i32::MAX));
    g.fed(true);
    assert!(!g.has_room());
}

#[test]
fn finish_reasons_have_names() {
    assert_eq!(FinishReason::Stop.as_str(), "stop");
    assert_eq!(FinishReason::Length.as_str(), "length");
    assert_eq!(FinishReason::ToolCalls.as_str(), "tool_calls");
    assert_eq!(FinishReason::Aborted.as_str(), "stop");
}

fn text_of(step: PieceStep) -> String {
    match step {
        PieceStep::Text(s) => s,
        PieceStep::Retry(_) => panic!("retry"),
    }
}

#[test]
fn pieces_are_read_from_utf8() {
    assert_eq!(text_of(read_piece(PieceReply::Bytes("é€😀".as_bytes().to_vec()))), "é€😀");
    assert_eq!(text_of(read_piece(PieceReply::Bytes(vec![0xff]))), "");
    assert_eq!(text_of(read_piece(PieceReply::Bytes(vec![0xe2, 0x82]))), "");
    assert_eq!(text_of(read_piece(PieceReply::Failed)), "");
}

#[test]
fn pieces_are_asked_for_again() {
    match read_piece(PieceReply::TooSmall(-40)) {
        PieceStep::Retry(n) => assert_eq!(n, 40),
        PieceStep::Text(_) => panic!("text"),
    }
    match read_piece(PieceReply::TooSmall(3)) {
        PieceStep::Retry(n) => assert_eq!(n, 0),
        PieceStep::Text(_) => panic!("text"),
    }
    assert_eq!(read_retried_piece(PieceReply::Bytes(b"ok".to_vec())), "ok");
    assert_eq!(read_retried_piece(PieceReply::Bytes(vec![0x80])), "");
    assert_eq!(read_retried_piece(PieceReply::TooSmall(-1)), "");
    assert_eq!(read_retried_piece(PieceReply::Failed), "");
}

#[test]
fn pieces_are_joined_in_order() {
    assert_eq!(join_pieces(&vec![]), "");
    assert_eq!(join_pieces(&vec!["a".to_string(), "".to_string(), " b".to_string()]), "a b");
}

#[test]
fn prefill_asks_after_the_last_token() {
    assert_eq!(prefill_batch(&[]), Vec::<BatchEntry>::new());
    assert_eq!(
        prefill_batch(&[7, 8, 9]),
        vec![
            BatchEntry { token: 7, pos: 0, logits: false },
            BatchEntry { token: 8, pos: 1, logits: false },
            BatchEntry { token: 9, pos: 2, logits: true },
        ]
    );
}

#[test]
fn outcomes_are_answers() {
    let call = "<tool_call>\n<function=f>\n<parameter=x>1</parameter>\n</function>\n</tool_call>";
    let o = GenerationOutcome {
        tokens: vec![1],
        text: format!("<think>hm</think> See: {}<|im_end|>", call),
        finish: FinishReason::ToolCalls,
    };
    let a = o.answer();
    assert_eq!(a.reasoning, "hm");
    assert_eq!(a.cleaned, format!("See: {}", call));
    assert_eq!(a.tool_calls.len(), 1);
    assert_eq!(a.tool_calls[0].function.name, "f");
    assert_eq!(a.tool_calls[0].function.arguments, "{\"x\":\"1\"}");
    assert!(a.content.starts_with("See:"));
    assert!(!a.content.contains("<tool_call>"));
}

#[test]
fn end_tokens_are_not_kept() {
    let (o, _) = generate(5, 9, &[], &[END, 0, END, 0], &["a"], 99, 99);
    assert!(!o.tokens.contains(&END));
    assert_eq!(o.tokens, vec![0]);
}
