//! Errors, authentication, health, models and chat answers.

use llm_api::config::{listen_address, AppConfig, EnvVars, MODEL_ID};
use llm_api::domain::entity::{
    ChatMessage, ChatRequest, FinishReason, Rate, ToolCall, ToolCallFunction, Usage,
};
use llm_api::domain::error::LlmError;
use llm_api::identity::{completion_id, new_completion_id};
use llm_api::infrastructure::generation::GenerationOutcome;
use llm_api::presentation::auth::{auth_middleware, check_auth};
use llm_api::presentation::chat::{
    assemble_response, chat_completions, generation_result, handle_non_streaming, plan_chat,
    report_reason, tokenize_result,
};
use llm_api::presentation::error::AppError;
use llm_api::presentation::health::health_check;
use llm_api::presentation::metrics::Metrics;
use llm_api::presentation::models::{list_models, models_at};

fn no_vars() -> EnvVars {
    EnvVars {
        model_path: None,
        api_key: None,
        server_port: None,
        rust_log: None,
        n_ctx: None,
        n_batch: None,
        n_threads: None,
        max_tokens: None,
    }
}

#[test]
fn config_defaults() {
    let c = AppConfig::load(no_vars(), "/models/default.gguf");
    assert_eq!(c.model_path, "/models/default.gguf");
    assert_eq!(c.api_key, "");
    assert_eq!(c.server_port, 4010);
    assert_eq!(c.log_level, "info");
    assert_eq!((c.n_ctx, c.n_batch, c.n_threads, c.max_tokens), (8192, 512, 4, 2048));
}

#[test]
fn config_reads_variables() {
    let s = |t: &str| Some(t.to_string());
    let c = AppConfig::load(
        EnvVars {
            model_path: s("/m.gguf"),
            api_key: s("k"),
            server_port: s("8080"),
            rust_log: s("debug"),
            n_ctx: s("+4096"),
            n_batch: s("64"),
            n_threads: s("-1"),
            max_tokens: s("0"),
        },
        "/models/default.gguf",
    );
    assert_eq!(c.model_path, "/m.gguf");
    assert_eq!(c.api_key, "k");
    assert_eq!(c.server_port, 8080);
    assert_eq!(c.log_level, "debug");
    assert_eq!((c.n_ctx, c.n_batch, c.n_threads, c.max_tokens), (4096, 64, -1, 0));
}

#[test]
fn config_falls_back_on_bad_numbers() {
    for bad in ["", "x", "65536", "-1", "80 ", " 80", "1e3", "+", "99999999999999999999999"] {
        let vars = EnvVars { server_port: Some(bad.to_string()), ..no_vars() };
        assert_eq!(AppConfig::load(vars, "").server_port, 4010, "{:?}", bad);
        assert!(bad.parse::<u16>().is_err());
    }
    for n in [0u16, 1, 80, 65535] {
        let vars = EnvVars { server_port: Some(format!("{}", n)), ..no_vars() };
        assert_eq!(AppConfig::load(vars, "").server_port, n);
    }
    for n in [i32::MIN, -1, 0, i32::MAX] {
        let vars = EnvVars { n_threads: Some(format!("{}", n)), ..no_vars() };
        assert_eq!(AppConfig::load(vars, "").n_threads, n);
    }
    for bad in ["2147483648", "-2147483649", "--1", "-", "1-"] {
        let vars = EnvVars { n_threads: Some(bad.to_string()), ..no_vars() };
        assert_eq!(AppConfig::load(vars, "").n_threads, 4, "{:?}", bad);
        assert!(bad.parse::<i32>().is_err());
    }
}

#[test]
fn listen_address_is_every_interface() {
    assert_eq!(listen_address(4010), "0.0.0.0:4010");
    assert_eq!(listen_address(0), "0.0.0.0:0");
    assert_eq!(listen_address(65535), "0.0.0.0:65535");
}

#[test]
fn errors_as_replies() {
    let reply = |e: AppError| {
        let r = e.into_reply();
        (r.status, r.error, r.message)
    };
    let t = |s: u16, e: &str, m: &str| (s, e.to_string(), m.to_string());
    assert_eq!(reply(AppError::BadRequest("m".into())), t(400, "bad_request", "m"));
    assert_eq!(reply(AppError::NotFound("m".into())), t(404, "not_found", "m"));
    assert_eq!(reply(AppError::Unauthorized), t(401, "unauthorized", "Invalid API key"));
    let fault = t(500, "internal_error", "Internal server error");
    assert_eq!(reply(AppError::LlmError("secret".into())), fault);
    assert_eq!(reply(AppError::Internal("other".into())), fault);
}

#[test]
fn errors_as_messages() {
    assert_eq!(AppError::BadRequest("m".into()).message(), "Bad request: m");
    assert_eq!(AppError::NotFound("m".into()).message(), "Not found: m");
    assert_eq!(AppError::Unauthorized.message(), "Authentication failed");
    assert_eq!(AppError::LlmError("m".into()).message(), "Model error: m");
    assert_eq!(AppError::Internal("m".into()).message(), "Internal error: m");
    assert_eq!(LlmError::InvalidRequest("m".into()).message(), "Invalid request: m");
    assert_eq!(LlmError::Model("m".into()).message(), "Model error: m");
    assert_eq!(LlmError::Unauthorized.message(), "Authentication failed");
    assert_eq!(LlmError::Internal("m".into()).message(), "Internal error: m");
}

#[test]
fn errors_convert() {
    assert_eq!(
        AppError::from(LlmError::InvalidRequest("m".into())).message(),
        "Bad request: m"
    );
    assert_eq!(AppError::from(LlmError::Model("m".into())).message(), "Model error: m");
    assert_eq!(AppError::from(LlmError::Unauthorized).message(), "Authentication failed");
    assert_eq!(AppError::from(LlmError::Internal("m".into())).message(), "Internal error: m");
    assert_eq!(AppError::from("m").message(), "Internal error: m");
    assert_eq!(AppError::from("m".to_string()).message(), "Internal error: m");
    assert_eq!(LlmError::from("m").message(), "Internal error: m");
    assert_eq!(LlmError::from("m".to_string()).message(), "Internal error: m");
}

#[test]
fn auth_is_off_without_a_key() {
    assert!(check_auth("", &None).is_ok());
    assert!(check_auth("", &Some("anything".into())).is_ok());
}

#[test]
fn auth_accepts_the_key() {
    assert!(check_auth("k3y", &Some("Bearer k3y".into())).is_ok());
    assert!(check_auth("k3y", &Some("k3y".into())).is_ok());
}

#[test]
fn auth_refuses_the_rest() {
    for h in ["", "Bearer", "Bearer ", "bearer k3y", "Bearer k3y ", "k3", "Bearer  k3y"] {
        let refusal = check_auth("k3y", &Some(h.to_string())).err().unwrap();
        assert_eq!(refusal.status, 401);
        assert_eq!(refusal.body, "{\"error\":\"unauthorized\",\"message\":\"Invalid API key\"}");
        let body: serde_json::Value = serde_json::from_str(&refusal.body).unwrap();
        let reply = AppError::Unauthorized.into_reply();
        assert_eq!(body["error"], reply.error);
        assert_eq!(body["message"], reply.message);
    }
    assert!(check_auth("k3y", &None).is_err());
}

#[test]
fn auth_protects_completions_only() {
    let mut m = Metrics::new();
    for path in ["/", "/health", "/metrics", "/v1/models"] {
        assert!(auth_middleware(&mut m, path, "k3y", &None).is_ok());
    }
    assert!(auth_middleware(&mut m, "/v1/chat/completions", "k3y", &None).is_err());
    assert!(auth_middleware(&mut m, "/v1/chat/completions", "k3y", &Some("Bearer k3y".into())).is_ok());
    assert!(auth_middleware(&mut m, "/v1/chat/completions", "", &None).is_ok());
    // Only the refused one was counted here.
    assert_eq!((m.requests_total, m.streaming_total, m.errors_total), (1, 0, 1));
}

#[test]
fn health_reports_the_model() {
    let h = health_check(1234, 8192);
    assert_eq!(h.status, "ok");
    assert_eq!(h.model, "minicpm5-1b-fable5-v2-thinking");
    assert_eq!(h.uptime_s, 1234);
    assert_eq!(h.n_ctx, 8192);
    assert_eq!(h.version, "0.1.0");
}

#[test]
fn models_lists_the_model() {
    let m = models_at(99);
    assert_eq!(m.object, "list");
    assert_eq!(m.data.len(), 1);
    assert_eq!(m.data[0].id, MODEL_ID);
    assert_eq!(m.data[0].object, "model");
    assert_eq!(m.data[0].created, 99);
    assert_eq!(m.data[0].owned_by, "asepharyana");
    // The clock of this century.
    assert!(list_models().data[0].created > 1_600_000_000);
}

fn request(model: &str) -> ChatRequest {
    ChatRequest {
        model: model.into(),
        messages: vec![ChatMessage {
            role: "user".into(),
            content: Some("Hello!".into()),
            tool_calls: None,
            tool_call_id: None,
            name: None,
        }],
        max_tokens: None,
        temperature: None,
        top_p: None,
        top_k: None,
        min_p: None,
        frequency_penalty: None,
        presence_penalty: None,
        repeat_penalty: None,
        seed: None,
        stream: None,
        stop: None,
        tools: None,
        tool_choice: None,
    }
}

#[test]
fn unknown_models_are_bad_requests() {
    let mut m = Metrics::new();
    let r = chat_completions(&mut m, &request("gpt-4"), 2048).err().unwrap().into_reply();
    assert_eq!((m.requests_total, m.streaming_total, m.errors_total), (1, 0, 1));
    assert_eq!(r.status, 400);
    assert_eq!(r.error, "bad_request");
    assert_eq!(
        r.message,
        "Unknown model 'gpt-4'. Available: minicpm5-1b-fable5-v2-thinking"
    );
}

#[test]
fn known_models_are_planned() {
    let mut req = request(MODEL_ID);
    req.max_tokens = Some(9999);
    req.stop = Some(vec!["a".into(), "b".into()]);
    req.stream = Some(true);
    let mut m = Metrics::new();
    let plan = chat_completions(&mut m, &req, 2048).ok().unwrap();
    assert_eq!((m.requests_total, m.streaming_total, m.errors_total), (1, 1, 0));
    assert_eq!(plan.max_tokens, 2048);
    assert_eq!(plan.stop, vec!["a".to_string(), "b".to_string()]);
    assert!(plan.streaming);
    assert!(plan.prompt.contains("<|im_start|>user\nHello!<|im_end|>"));
    let plan = chat_completions(&mut m, &request(MODEL_ID), 2048).ok().unwrap();
    assert_eq!((m.requests_total, m.streaming_total, m.errors_total), (2, 1, 0));
    assert_eq!(plan.max_tokens, 256);
    assert!(plan.stop.is_empty());
    assert!(!plan.streaming);
}

#[test]
fn a_prompt_that_fails_is_a_model_error() {
    let e = plan_chat(&request(MODEL_ID), 1, Err("x".into())).err().unwrap();
    assert_eq!(e.message(), "Model error: x");
    let plan = plan_chat(&request(MODEL_ID), 1, Ok("p".into())).ok().unwrap();
    assert_eq!(plan.prompt, "p");
    assert_eq!(plan.max_tokens, 1);
}

#[test]
fn generation_failures_are_errors() {
    let mut m = Metrics::new();
    let e = generation_result(&mut m, Err("boom".into())).err().unwrap();
    assert_eq!(e.message(), "Internal error: Generation task panicked: boom");
    let e = generation_result(&mut m, Ok(Err(LlmError::Model("Prefill: x".into())))).err().unwrap();
    assert_eq!(e.message(), "Model error: Prefill: x");
    let o = GenerationOutcome { tokens: vec![4], text: "t".into(), finish: FinishReason::Stop };
    let o = generation_result(&mut m, Ok(Ok(o))).ok().unwrap();
    assert_eq!((o.tokens, o.text, o.finish), (vec![4], "t".to_string(), FinishReason::Stop));
    assert_eq!(m.errors_total, 2);
}

#[test]
fn tokenization_failures_are_model_errors() {
    let mut m = Metrics::new();
    assert_eq!(tokenize_result(&mut m, Ok(vec![1, 2])).ok().unwrap(), vec![1, 2]);
    assert_eq!(m.errors_total, 0);
    let e = tokenize_result(&mut m, Err(LlmError::Model("Tokenization failed: x".into())))
        .err()
        .unwrap();
    assert_eq!(e.message(), "Model error: Model error: Tokenization failed: x");
    assert_eq!(m.errors_total, 1);
}

#[test]
fn one_model_is_served() {
    let id = list_models().data[0].id.clone();
    assert_eq!(health_check(0, 0).model, id);
    assert!(llm_api::application::chat::validate_model(&id).is_ok());
}

#[test]
fn reasons_are_reported() {
    assert_eq!(report_reason(FinishReason::ToolCalls, true), "tool_calls");
    assert_eq!(report_reason(FinishReason::ToolCalls, false), "stop");
    assert_eq!(report_reason(FinishReason::Length, true), "length");
    assert_eq!(report_reason(FinishReason::Stop, false), "stop");
    assert_eq!(report_reason(FinishReason::Aborted, false), "stop");
}

#[test]
fn completion_ids() {
    assert_eq!(completion_id("u"), "chatcmpl-u");
    let a = new_completion_id();
    let b = new_completion_id();
    assert_eq!(a.len(), 45);
    assert!(a.starts_with("chatcmpl-"));
    assert_eq!(&a[23..24], "4");
    assert_ne!(a, b);
}

#[test]
fn usage_is_measured() {
    let u = Usage::measured(10, 20, 500);
    assert_eq!(u.total_tokens, 30);
    assert_eq!(u.duration_ms, Some(500));
    assert_eq!(u.tokens_per_second, Some(Rate { tokens: 20, ms: 500 }));
    assert_eq!(Usage::measured(1, 0, 0).tokens_per_second, None);
}

#[test]
fn answers_are_split() {
    let outcome = GenerationOutcome {
        tokens: vec![1, 2, 3],
        text: "<think>hm</think>\nYes.<|im_end|>".into(),
        finish: FinishReason::Stop,
    };
    let r = handle_non_streaming("m".into(), 7, outcome, 1000);
    assert_eq!(r.object, "chat.completion");
    assert_eq!(r.model, "m");
    assert!(r.id.starts_with("chatcmpl-"));
    assert_eq!(r.choices.len(), 1);
    let c = &r.choices[0];
    assert_eq!(c.index, 0);
    assert_eq!(c.message.role, "assistant");
    assert_eq!(c.message.content.as_deref(), Some("Yes."));
    assert_eq!(c.message.reasoning_content.as_deref(), Some("hm"));
    assert!(c.message.tool_calls.is_none());
    assert_eq!(c.finish_reason, "stop");
    assert_eq!(r.usage, Usage::measured(7, 3, 1000));
}

#[test]
fn answers_carry_tool_calls() {
    let call = "<tool_call>\n<function=f>\n<parameter=x>1</parameter>\n</function>\n</tool_call>";
    let outcome = |text: &str| GenerationOutcome {
        tokens: vec![],
        text: text.to_string(),
        finish: FinishReason::ToolCalls,
    };
    let r = handle_non_streaming("m".into(), 7, outcome(call), 0);
    let c = &r.choices[0];
    assert_eq!(c.finish_reason, "tool_calls");
    let calls = c.message.tool_calls.as_ref().unwrap();
    assert_eq!(calls.len(), 1);
    assert_eq!(calls[0].function.name, "f");
    assert_eq!(calls[0].function.arguments, "{\"x\":\"1\"}");
    assert!(c.message.reasoning_content.is_none());
    // A call in the reasoning is none of the answer.
    let r = handle_non_streaming("m".into(), 7, outcome(&format!("{}</think>ok", call)), 0);
    assert_eq!(r.choices[0].finish_reason, "stop");
    assert!(r.choices[0].message.tool_calls.is_none());
}

#[test]
fn responses_are_assembled() {
    let call = ToolCall {
        id: "i".into(),
        call_type: "function".into(),
        function: ToolCallFunction { name: "n".into(), arguments: "{}".into() },
    };
    let r = assemble_response(
        "id".into(),
        5,
        "m".into(),
        "".into(),
        "a".into(),
        vec![call],
        FinishReason::ToolCalls,
        Usage::measured(1, 2, 3),
    );
    assert_eq!((r.id.as_str(), r.created, r.model.as_str()), ("id", 5, "m"));
    assert_eq!(r.choices[0].finish_reason, "tool_calls");
    assert_eq!(r.choices[0].message.reasoning_content, None);
    assert_eq!(r.choices[0].message.tool_calls.as_ref().unwrap()[0].id, "i");
}
