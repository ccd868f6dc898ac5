//! The text processing of chat completions.

use llm_api::application::chat::history::{append_history, read_members};
use llm_api::application::chat::prompt::finish_prompt;
use llm_api::application::chat::sampler::SamplerStage;
use llm_api::application::chat::tool_calls::assemble_tool_call;
use llm_api::application::chat::{
    build_prompt, build_sampler, clean_text, parse_tool_calls, split_stream_chunk, strip_markup,
    token_limit, validate_model, SamplerParams,
};
use llm_api::config::MODEL_ID;
use llm_api::domain::entity::{
    ChatMessage, ChatRequest, Real32, ToolCallFunction, ToolCallResponse, ToolDef, ToolFunction,
};
use llm_api::template::Rendering;

fn real32(x: f32) -> Real32 {
    Real32 { bits: x.to_bits() }
}

fn msg(role: &str, content: &str) -> ChatMessage {
    ChatMessage {
        role: role.into(),
        content: Some(content.into()),
        tool_calls: None,
        tool_call_id: None,
        name: None,
    }
}

fn tool_def() -> ToolDef {
    ToolDef {
        tool_type: "function".into(),
        function: ToolFunction {
            name: "get_weather".into(),
            description: "Get weather for a city".into(),
            parameters: serde_json::from_str(
                r#"{
                    "type": "object",
                    "properties": {
                        "city": { "type": "string" }
                    },
                    "required": ["city"]
                }"#,
            )
            .unwrap(),
        },
    }
}

// ── split_stream_chunk ──

#[test]
fn split_chunk_before_think_is_reasoning() {
    let (reasoning, content) = split_stream_chunk("Hello ", 0, None);
    assert_eq!(reasoning.as_deref(), Some("Hello "));
    assert_eq!(content, "");
}

#[test]
fn split_chunk_preserves_internal_spaces() {
    // Trimming every fragment would eat inter-word spaces.
    let (r1, _) = split_stream_chunk("Hello", 0, None);
    let (r2, _) = split_stream_chunk(" world", 5, None);
    assert_eq!(format!("{}{}", r1.unwrap(), r2.unwrap()), "Hello world");
}

#[test]
fn split_chunk_boundary_trims_only_edges() {
    // text_buf = "question\n</think>\n\nAnswer "; boundary right after the
    // tag at byte 17.
    let (reasoning, content) = split_stream_chunk("question\n</think>\n\nAnswer ", 0, Some(17));
    assert_eq!(reasoning.as_deref(), Some("question"));
    assert_eq!(content, "Answer ");
}

#[test]
fn split_chunk_after_think_is_content() {
    let (reasoning, content) = split_stream_chunk(" answer", 0, Some(0));
    assert_eq!(reasoning, None);
    assert_eq!(content, " answer");
}

#[test]
fn split_chunk_stray_think_tag_is_stripped_not_split() {
    // A second </think> (already past the boundary) must not restart
    // reasoning classification.
    let (reasoning, content) = split_stream_chunk("...</think>more", 0, Some(0));
    assert_eq!(reasoning, None);
    assert_eq!(content, "...more");
}

#[test]
fn split_chunk_boundary_straddling_tokens() {
    // `</think>` split as "</think" + ">" across two fragments: the boundary
    // is detected on the full buffer, so the answer still becomes content.
    let (r1, _) = split_stream_chunk("reasoning...</think", 0, None);
    assert!(r1.is_some());
    let (r2, c2) = split_stream_chunk("\n\n2 + 2 = 4.", 18, Some(18));
    assert_eq!(r2, None);
    assert_eq!(c2, "\n\n2 + 2 = 4.");
}

#[test]
fn split_chunk_strips_special_and_markup() {
    // boundary at byte 30 (right after "</think>").
    let (reasoning, content) = split_stream_chunk(
        "<|im_end|><think>Hello</think>\n<tool_call><function=get_weather>",
        0,
        Some(30),
    );
    assert_eq!(reasoning.as_deref(), Some("Hello"));
    assert_eq!(content, "");
}

// ── clean_text ──

#[test]
fn clean_text_splits_reasoning_and_answer() {
    let (reasoning, answer) =
        clean_text("<think>Let me think\nabout it</think>\nThe answer is 42.");
    assert_eq!(reasoning, "Let me think\nabout it");
    assert_eq!(answer, "The answer is 42.");
}

#[test]
fn clean_text_no_think_returns_answer() {
    let (reasoning, answer) = clean_text("Just an answer");
    assert_eq!(reasoning, "");
    assert_eq!(answer, "Just an answer");
}

// ── parse_tool_calls ──

#[test]
fn parse_single_tool_call() {
    let text = "I'll look that up.\n<tool_call>\n<function=get_weather>\n<parameter=city>Jakarta</parameter>\n</function>\n</tool_call>";
    let (cleaned, calls) = parse_tool_calls(text);
    assert_eq!(calls.len(), 1);
    assert_eq!(calls[0].function.name, "get_weather");
    assert!(calls[0].function.arguments.contains("Jakarta"));
    assert!(!cleaned.contains("<tool_call>"));
}

#[test]
fn parse_multiple_tool_calls() {
    let text = "<tool_call>\n<function=a>\n<parameter=x>1</parameter>\n</function>\n</tool_call>\n<tool_call>\n<function=b>\n<parameter=y>2</parameter>\n</function>\n</tool_call>";
    let (_cleaned, calls) = parse_tool_calls(text);
    assert_eq!(calls.len(), 2);
    assert_eq!(calls[0].function.name, "a");
    assert_eq!(calls[1].function.name, "b");
}

#[test]
fn parse_malformed_tool_call_returns_empty() {
    let (cleaned, calls) = parse_tool_calls("no calls here");
    assert!(calls.is_empty());
    assert_eq!(cleaned, "no calls here");
}

// ── validate_model ──

#[test]
fn validate_model_accepts_served_id() {
    assert!(validate_model(MODEL_ID).is_ok());
}

#[test]
fn validate_model_rejects_unknown_id() {
    assert!(validate_model("minicpm-v-4.6").is_err());
}

#[test]
fn validate_model_names_both_models() {
    assert_eq!(
        validate_model("gpt-4"),
        Err("Unknown model 'gpt-4'. Available: minicpm5-1b-fable5-v2-thinking".to_string())
    );
    assert!(validate_model("").is_err());
    assert!(validate_model("minicpm5-1b-fable5-v2-thinking ").is_err());
}

#[test]
fn token_limit_is_capped() {
    assert_eq!(token_limit(None, 2048), 256);
    assert_eq!(token_limit(None, 100), 100);
    assert_eq!(token_limit(Some(5000), 2048), 2048);
    assert_eq!(token_limit(Some(7), 2048), 7);
    assert_eq!(token_limit(Some(0), 2048), 0);
}

#[test]
fn token_limit_without_cap() {
    assert_eq!(token_limit(Some(u32::MAX), 0), u32::MAX);
    assert_eq!(token_limit(None, 0), 256);
}

// ── build_sampler (smoke — no model required) ──

#[test]
fn build_sampler_constructs_for_common_params() {
    let params = SamplerParams {
        temperature: Some(real32(0.8)),
        top_p: Some(real32(0.9)),
        top_k: Some(40),
        min_p: Some(real32(0.05)),
        repeat_penalty: Some(real32(1.1)),
        frequency_penalty: Some(real32(0.0)),
        presence_penalty: Some(real32(0.0)),
        seed: Some(42),
    };
    let _ = build_sampler(&params);

    let greedy = SamplerParams {
        temperature: Some(real32(0.0)),
        ..params
    };
    let _ = build_sampler(&greedy);
}

fn no_params() -> SamplerParams {
    SamplerParams {
        temperature: None,
        top_p: None,
        top_k: None,
        min_p: None,
        repeat_penalty: None,
        frequency_penalty: None,
        presence_penalty: None,
        seed: None,
    }
}

#[test]
fn build_sampler_orders_the_stages() {
    let params = SamplerParams {
        temperature: Some(real32(0.8)),
        top_p: Some(real32(0.9)),
        top_k: Some(40),
        min_p: Some(real32(0.05)),
        repeat_penalty: Some(real32(1.1)),
        frequency_penalty: Some(real32(0.25)),
        presence_penalty: None,
        seed: Some(42),
    };
    assert_eq!(
        build_sampler(&params),
        vec![
            SamplerStage::Penalties(64, real32(1.1), real32(0.25), real32(0.0)),
            SamplerStage::TopK(40),
            SamplerStage::TopP(real32(0.9), 1),
            SamplerStage::MinP(real32(0.05), 1),
            SamplerStage::Temp(real32(0.8)),
            SamplerStage::Dist(42),
        ]
    );
}

#[test]
fn build_sampler_is_greedy_by_default() {
    assert_eq!(build_sampler(&no_params()), vec![SamplerStage::Greedy]);
    let cold = SamplerParams { temperature: Some(real32(-1.0)), ..no_params() };
    assert_eq!(build_sampler(&cold), vec![SamplerStage::Greedy]);
    let zero = SamplerParams { temperature: Some(real32(-0.0)), ..no_params() };
    assert_eq!(build_sampler(&zero), vec![SamplerStage::Greedy]);
}

#[test]
fn build_sampler_at_temperature_one_only_draws() {
    let one = SamplerParams { temperature: Some(real32(1.0)), ..no_params() };
    assert_eq!(build_sampler(&one), vec![SamplerStage::Dist(0)]);
    let nan = SamplerParams { temperature: Some(real32(f32::NAN)), ..no_params() };
    assert_eq!(build_sampler(&nan), vec![SamplerStage::Dist(0)]);
}

#[test]
fn build_sampler_wraps_a_large_top_k() {
    let params = SamplerParams { top_k: Some(u32::MAX), ..no_params() };
    assert_eq!(build_sampler(&params), vec![SamplerStage::TopK(-1), SamplerStage::Greedy]);
    let params = SamplerParams { top_k: Some(0x8000_0000), ..no_params() };
    assert_eq!(build_sampler(&params)[0], SamplerStage::TopK(i32::MIN));
}

fn interesting_floats() -> Vec<f32> {
    let mut v = vec![
        0.0, -0.0, 1.0, -1.0, 0.5, 2.0, 1.5, 1e-6, 1e-45, -1e-45, 3.4e38, -3.4e38,
        f32::INFINITY, f32::NEG_INFINITY, f32::NAN, f32::MIN_POSITIVE, 0.999_999, 1.000_001,
    ];
    let one = 1.0f32.to_bits();
    for d in 0..40u32 {
        v.push(f32::from_bits(one + d));
        v.push(f32::from_bits(one - d));
    }
    for k in 0..4096u32 {
        v.push(f32::from_bits(k.wrapping_mul(1_048_583)));
    }
    v.push(f32::from_bits(0xffff_ffff));
    v.push(f32::from_bits(0x7fff_ffff));
    v.push(f32::from_bits(0x7f80_0001));
    v.push(f32::from_bits(0xff80_0001));
    v
}

#[test]
fn comparisons_are_those_of_floats() {
    for x in interesting_floats() {
        let r = real32(x);
        assert_eq!(r.above_zero(), x > 0.0, "{:?}", x);
        assert_eq!(r.not_above_zero(), x <= 0.0, "{:?}", x);
        assert_eq!(r.far_from_one(), (x - 1.0).abs() > 1e-6, "{:?}", x);
    }
}

#[test]
fn sampler_params_copy_the_request() {
    let req = ChatRequest {
        model: MODEL_ID.into(),
        messages: vec![],
        max_tokens: Some(1),
        temperature: Some(real32(0.1)),
        top_p: Some(real32(0.2)),
        top_k: Some(3),
        min_p: Some(real32(0.4)),
        frequency_penalty: Some(real32(0.5)),
        presence_penalty: Some(real32(0.6)),
        repeat_penalty: Some(real32(0.7)),
        seed: Some(8),
        stream: None,
        stop: None,
        tools: None,
        tool_choice: None,
    };
    let p = SamplerParams::from_request(&req);
    assert_eq!(p.temperature, Some(real32(0.1)));
    assert_eq!(p.top_p, Some(real32(0.2)));
    assert_eq!(p.top_k, Some(3));
    assert_eq!(p.min_p, Some(real32(0.4)));
    assert_eq!(p.frequency_penalty, Some(real32(0.5)));
    assert_eq!(p.presence_penalty, Some(real32(0.6)));
    assert_eq!(p.repeat_penalty, Some(real32(0.7)));
    assert_eq!(p.seed, Some(8));
}

// ── build_prompt ──

#[test]
fn build_prompt_renders_messages() {
    let messages = vec![msg("system", "You are helpful."), msg("user", "Hi!")];
    let prompt = build_prompt(&messages, &None).unwrap();
    assert!(prompt.starts_with("<s>"));
    assert!(prompt.contains("<|im_start|>system\nYou are helpful."));
    assert!(prompt.contains("<|im_start|>user\nHi!"));
    assert!(prompt.contains("<|im_start|>assistant\n<think>\n"));
}

#[test]
fn build_prompt_includes_tool_definitions() {
    let messages = vec![msg("user", "What's the weather?")];
    let prompt = build_prompt(&messages, &Some(vec![tool_def()])).unwrap();
    assert!(prompt.contains("<tools>"));
    assert!(prompt.contains("get_weather"));
    assert!(prompt.contains("Tool usage guidelines"));
}

#[test]
fn build_prompt_wraps_tool_response_once() {
    let messages = vec![msg("user", "Weather?"), msg("tool", "Sunny")];
    let prompt = build_prompt(&messages, &None).unwrap();
    assert_eq!(prompt.matches("<tool_response>").count(), 1);
    assert_eq!(prompt.matches("</tool_response>").count(), 1);
}

#[test]
fn build_prompt_renders_assistant_tool_calls_history() {
    let assistant = ChatMessage {
        role: "assistant".into(),
        content: Some("".into()),
        tool_calls: Some(vec![ToolCallResponse {
            id: "call_1".into(),
            call_type: "function".into(),
            function: ToolCallFunction {
                name: "get_weather".into(),
                arguments: r#"{"city":"Jakarta"}"#.into(),
            },
        }]),
        tool_call_id: None,
        name: None,
    };
    let prompt = build_prompt(&[assistant], &None).unwrap();
    assert!(prompt.contains("<function=get_weather>"));
    assert!(prompt.contains("<parameter=city>Jakarta</parameter>"));
}

#[test]
fn build_prompt_is_exact() {
    let messages = vec![msg("system", "You are helpful."), msg("user", "Hi!")];
    assert_eq!(
        build_prompt(&messages, &None).unwrap(),
        "<s><|im_start|>system\nYou are helpful.<|im_end|>\n<|im_start|>user\nHi!<|im_end|>\n<|im_start|>assistant\n<think>\n"
    );
    // An empty list of tools counts as none.
    assert_eq!(
        build_prompt(&messages, &Some(vec![])).unwrap(),
        build_prompt(&messages, &None).unwrap()
    );
    assert_eq!(
        build_prompt(&[], &None).unwrap(),
        "<s><|im_start|>assistant\n<think>\n"
    );
}

#[test]
fn build_prompt_wraps_the_content_of_a_tool() {
    let prompt = build_prompt(&[msg("tool", "Sunny")], &None).unwrap();
    assert_eq!(
        prompt,
        "<s><|im_start|>user\n<tool_response>\nSunny\n</tool_response><|im_end|>\n<|im_start|>assistant\n<think>\n"
    );
}

#[test]
fn build_prompt_writes_tools_as_json() {
    let messages = vec![msg("system", "Be brief."), msg("user", "Hi!")];
    let prompt = build_prompt(&messages, &Some(vec![tool_def()])).unwrap();
    assert!(prompt.contains(
        "<tools>\n{\"type\":\"function\",\"function\":{\"name\":\"get_weather\",\"description\":\"Get weather for a city\",\"parameters\":{\"properties\":{\"city\":{\"type\":\"string\"}},\"required\":[\"city\"],\"type\":\"object\"}}}\n</tools>"
    ));
    // The system message stands in front of the tools, and only there.
    assert!(prompt.starts_with("<s><|im_start|>system\nBe brief.\n\n# Tools"));
    assert_eq!(prompt.matches("Be brief.").count(), 1);
}

#[test]
fn build_prompt_does_not_escape_text() {
    let prompt = build_prompt(&[msg("user", "<b> & \"quotes\" {{ x }}")], &None).unwrap();
    assert!(prompt.contains("<b> & \"quotes\" {{ x }}"));
}

#[test]
fn build_prompt_writes_calls_of_the_assistant_only() {
    let mut m = msg("user", "Hi");
    m.tool_calls = Some(vec![history_call("function", "f", "{}")]);
    let prompt = build_prompt(&[m], &None).unwrap();
    assert!(!prompt.contains("<function=f>"));
    let mut m = msg("assistant", "Wait.");
    m.tool_calls = Some(vec![
        history_call("other", "g", "{}"),
        history_call("function", "f", "{\"a\":1,\"b\":\"x\"}"),
    ]);
    let prompt = build_prompt(&[m], &None).unwrap();
    assert!(prompt.contains(
        "Wait.\n<tool_call>\n<function=f>\n<parameter=a>1</parameter>\n<parameter=b>x</parameter>\n</function>\n</tool_call><|im_end|>"
    ));
    assert!(!prompt.contains("<function=g>"));
}

#[test]
fn prompt_errors_name_the_step() {
    assert_eq!(finish_prompt(Rendering::Text("p".into())), Ok("p".to_string()));
    assert_eq!(
        finish_prompt(Rendering::AddFailed("x".into())),
        Err("Template add error: x".to_string())
    );
    assert_eq!(
        finish_prompt(Rendering::GetFailed("x".into())),
        Err("Template get error: x".to_string())
    );
    assert_eq!(
        finish_prompt(Rendering::RenderFailed("x".into())),
        Err("Template render error: x".to_string())
    );
}

// ── history and the way back ──

fn history_call(kind: &str, name: &str, arguments: &str) -> ToolCallResponse {
    ToolCallResponse {
        id: "call_1".into(),
        call_type: kind.into(),
        function: ToolCallFunction { name: name.into(), arguments: arguments.into() },
    }
}

#[test]
fn history_is_read_back() {
    let arguments = r#"{"city":"Jakarta","note":"two\nlines","q":"a \"b\" \\ é"}"#;
    let mut text = String::from("Let me see.");
    append_history(
        &mut text,
        &vec![
            history_call("function", "get_weather", arguments),
            history_call("function", "noop", "{}"),
        ],
    );
    let (_, calls) = parse_tool_calls(&text);
    assert_eq!(calls.len(), 2);
    assert_eq!(calls[0].function.name, "get_weather");
    assert_eq!(calls[0].function.arguments, arguments);
    assert_eq!(calls[1].function.name, "noop");
    assert_eq!(calls[1].function.arguments, "{}");
}

#[test]
fn history_members_of_bad_arguments_are_none() {
    assert!(read_members("not json").is_empty());
    assert!(read_members("[1,2]").is_empty());
    assert!(read_members("\"text\"").is_empty());
    // An object that begins with the mark of a raw value is none.
    assert!(read_members("{\"$serde_json::private::RawValue\":\"123\"}").is_empty());
    assert!(read_members("{\"$serde_json::private::RawValue\":\"abc\"}").is_empty());
    assert_eq!(
        read_members("{\"$a\":\"1\",\"$serde_json::private::RawValue\":\"2\"}").len(),
        2
    );
    assert_eq!(
        read_members("{\"b\":[1, 2],\"a\":null,\"c\":1.50}"),
        vec![
            ("a".to_string(), "null".to_string()),
            ("b".to_string(), "[1,2]".to_string()),
            ("c".to_string(), "1.5".to_string()),
        ]
    );
}

#[test]
fn parse_gives_exact_arguments() {
    let text = "<tool_call>\n<function=get_weather>\n<parameter=city>Jakarta</parameter>\n</function>\n</tool_call>";
    let (answer, calls) = parse_tool_calls(text);
    assert_eq!(calls[0].function.arguments, r#"{"city":"Jakarta"}"#);
    assert_eq!(calls[0].call_type, "function");
    assert!(!answer.contains("tool_call"));
}

#[test]
fn parse_escapes_arguments() {
    let text = "<tool_call>\n<function=f>\n<parameter=x>a \"b\" \\ \u{1}\t</parameter>\n</function>\n</tool_call>";
    let (_, calls) = parse_tool_calls(text);
    assert_eq!(calls[0].function.arguments, "{\"x\":\"a \\\"b\\\" \\\\ \\u0001\"}");
}

#[test]
fn parse_ignores_an_unclosed_block() {
    let (_, calls) = parse_tool_calls("text <tool_call>\n<function=f>\n");
    assert!(calls.is_empty());
}

#[test]
fn tool_call_ids_are_hexadecimal_and_new() {
    let text = "<tool_call>\n<function=a>\n</function>\n</tool_call><tool_call>\n<function=b>\n</function>\n</tool_call>";
    let (_, calls) = parse_tool_calls(text);
    for c in &calls {
        assert_eq!(c.id.len(), 37);
        assert!(c.id.starts_with("call_"));
        assert!(c.id[5..].chars().all(|c| c.is_ascii_hexdigit() && !c.is_ascii_uppercase()));
    }
    assert_ne!(calls[0].id, calls[1].id);
}

#[test]
fn tool_call_of_a_given_uuid() {
    let call = assemble_tool_call(
        "f".into(),
        "{}".into(),
        "01234567-89ab-4cde-8f01-23456789abcd",
    );
    assert_eq!(call.id, "call_0123456789ab4cde8f0123456789abcd");
    assert_eq!(call.call_type, "function");
    assert_eq!(call.function.name, "f");
    assert_eq!(call.function.arguments, "{}");
}

// ── stripping ──

#[test]
fn strip_removes_every_kind_of_markup() {
    assert_eq!(
        strip_markup(
            "a<|im_start|>b<|im_end|>c<think>d</think>e<tool_call>f</tool_call>g<function=x y>h</function>i<parameter=k>j</parameter>k"
        ),
        "abcdefghijk"
    );
}

#[test]
fn strip_keeps_what_is_no_markup() {
    for s in ["", "1 < 2 > 0", "<b>bold</b>", "<function=open", "</thi", " spaced  out ", "<<think>"] {
        let expected = if s == "<<think>" { "<" } else { s };
        assert_eq!(strip_markup(s), expected);
    }
}

#[test]
fn strip_does_not_look_twice() {
    assert_eq!(strip_markup("<thi<think>nk>"), "<think>");
}

// ── cleaning ──

#[test]
fn clean_text_unclosed_thinking_is_reasoning() {
    assert_eq!(
        clean_text("<think>still thinking"),
        ("still thinking".to_string(), String::new())
    );
}

#[test]
fn clean_text_strips_turn_tokens_and_stray_tags() {
    assert_eq!(
        clean_text("<|im_start|> a </think> b <think> c </think><|im_end|> "),
        ("a".to_string(), "b  c".to_string())
    );
    assert_eq!(clean_text(""), (String::new(), String::new()));
    assert_eq!(clean_text(" \u{a0}plain\u{3000}"), (String::new(), "plain".to_string()));
}

// ── what is kept back ──

#[test]
fn settled_text_ends_before_an_open_tag() {
    let settled = |s: &str| {
        let chars: Vec<char> = s.chars().collect();
        llm_api::application::chat::markup::settled_len(&chars)
    };
    assert_eq!(settled(""), 0);
    assert_eq!(settled("plain"), 5);
    assert_eq!(settled("a<"), 1);
    assert_eq!(settled("a</thi"), 1);
    assert_eq!(settled("a<|im_"), 1);
    assert_eq!(settled("a<function=f"), 1);
    assert_eq!(settled("a<param"), 1);
    assert_eq!(settled("a<think>b"), 9);
    assert_eq!(settled("a < b"), 5);
    assert_eq!(settled("<b><tool_call"), 3);
    assert_eq!(settled("<<"), 1);
}
