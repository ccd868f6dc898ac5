//! Building the prompt from the conversation.

use vstd::prelude::*;

use super::history::{append_history, history_view, written_history};
use crate::domain::entity::{ChatMessage, ToolDef, ToolFunction};
use crate::json::value_view;
use crate::template::{
    flag_template_value, json_template_value, lemma_record, list_template_value,
    record_template_value, render_template, rendered, serialized_view, template_view,
    text_template_value, Rendering, RenderingView, TemplateView,
};
use crate::text::same_text;

verus! {

/// The chat template. It owns the `<s>` token that begins a prompt, so
/// tokenization must not add another one, and it wraps the content of a tool
/// message in `<tool_response>`.
pub const CHAT_TEMPLATE: &'static str = "{{ bos_token }}{% if tools %}<|im_start|>system\n{% if messages and messages[0].role == 'system' %}{{ messages[0].content }}\n\n{% endif %}# Tools\n\nYou may call one or more functions. Their signatures stand between the tools tags:\n<tools>\n{% for tool in tools %}{{ tool | tojson }}\n{% endfor %}</tools>\n\nTo call a function, write:\n<tool_call>\n<function=name>\n<parameter=key>value</parameter>\n</function>\n</tool_call>\n\nTool usage guidelines:\n- Call a function only when it helps to answer.\n- Give every required parameter, one per line.\n- After the call, wait for the tool response.<|im_end|>\n{% endif %}{% for message in messages %}{% if message.role == 'tool' %}<|im_start|>user\n<tool_response>\n{{ message.content }}\n</tool_response><|im_end|>\n{% elif not (tools and loop.first and message.role == 'system') %}<|im_start|>{{ message.role }}\n{{ message.content }}<|im_end|>\n{% endif %}{% endfor %}{% if add_generation_prompt %}<|im_start|>assistant\n{% if enable_thinking %}<think>\n{% endif %}{% endif %}";

// ---------------------------------------------------------------------------
// What the template is given
// ---------------------------------------------------------------------------

/// The content of a message: its text and, for the assistant, the calls of the
/// history in the format that the model is told to emit.
pub open spec fn prompt_content(m: ChatMessage) -> Seq<char> {
    let text = match m.content {
        Some(s) => s@,
        None => Seq::empty(),
    };
    if m.role@ == "assistant"@ {
        match m.tool_calls {
            Some(calls) => text + written_history(history_view(calls@)),
            None => text,
        }
    } else {
        text
    }
}

/// What the template sees of a message.
pub open spec fn message_view(m: ChatMessage) -> TemplateView {
    TemplateView::Record(
        seq![
            ("role"@, TemplateView::Text(m.role@)),
            ("content"@, TemplateView::Text(prompt_content(m))),
        ],
    )
}

/// What the template sees of the function of a tool.
pub open spec fn function_view(f: ToolFunction) -> TemplateView {
    TemplateView::Record(
        seq![
            ("name"@, TemplateView::Text(f.name@)),
            ("description"@, TemplateView::Text(f.description@)),
            ("parameters"@, serialized_view(value_view(f.parameters))),
        ],
    )
}

/// What the template sees of a tool.
pub open spec fn tool_view(t: ToolDef) -> TemplateView {
    TemplateView::Record(
        seq![
            ("type"@, TemplateView::Text(t.tool_type@)),
            ("function"@, function_view(t.function)),
        ],
    )
}

/// What the template is given: the token that begins a prompt, the messages,
/// the switches of the generation prompt, and the tools where there are any.
pub open spec fn prompt_context(messages: Seq<ChatMessage>, tools: Option<Vec<ToolDef>>) -> TemplateView {
    let base = seq![
        ("bos_token"@, TemplateView::Text("<s>"@)),
        ("messages"@, TemplateView::List(messages.map_values(|m: ChatMessage| message_view(m)))),
        ("add_generation_prompt"@, TemplateView::Flag(true)),
        ("enable_thinking"@, TemplateView::Flag(true)),
    ];
    match tools {
        Some(list) => if list@.len() == 0 {
            TemplateView::Record(base)
        } else {
            TemplateView::Record(
                base.push(
                    ("tools"@, TemplateView::List(list@.map_values(|t: ToolDef| tool_view(t)))),
                ),
            )
        },
        None => TemplateView::Record(base),
    }
}

/// The prompt that a rendering gives, or the error that it is reported as.
pub open spec fn prompt_of(r: RenderingView) -> Result<Seq<char>, Seq<char>> {
    match r {
        RenderingView::Text(s) => Ok(s),
        RenderingView::AddFailed(e) => Err("Template add error: "@ + e),
        RenderingView::GetFailed(e) => Err("Template get error: "@ + e),
        RenderingView::RenderFailed(e) => Err("Template render error: "@ + e),
    }
}

/// The texts of a prompt or an error.
pub open spec fn prompt_view(r: Result<String, String>) -> Result<Seq<char>, Seq<char>> {
    match r {
        Ok(s) => Ok(s@),
        Err(e) => Err(e@),
    }
}

// ---------------------------------------------------------------------------
// The code
// ---------------------------------------------------------------------------

fn content_of(m: &ChatMessage) -> (content: String)
    ensures
        content@ == prompt_content(*m),
{
    let mut content = match &m.content {
        Some(s) => s.clone(),
        None => String::new(),
    };
    if same_text(m.role.as_str(), "assistant") {
        match &m.tool_calls {
            Some(calls) => {
                append_history(&mut content, calls);
            },
            None => {},
        }
    }
    content
}

fn message_value(m: &ChatMessage) -> (v: minijinja::Value)
    ensures
        template_view(v) == message_view(*m),
{
    let role = text_template_value(m.role.clone());
    let content = text_template_value(content_of(m));
    let mut entries: Vec<(String, minijinja::Value)> = Vec::new();
    entries.push(("role".to_string(), role));
    entries.push(("content".to_string(), content));
    proof {
        reveal_strlit("role");
        reveal_strlit("content");
        let es = entries@.map_values(|e: (String, minijinja::Value)| (e.0@, template_view(e.1)));
        assert(es[0].0.len() == 4 && es[1].0.len() == 7);
        lemma_record(es);
        assert(es =~= message_view(*m)->Record_0);
    }
    record_template_value(entries)
}

fn function_value(f: &ToolFunction) -> (v: minijinja::Value)
    ensures
        template_view(v) == function_view(*f),
{
    let mut entries: Vec<(String, minijinja::Value)> = Vec::new();
    entries.push(("name".to_string(), text_template_value(f.name.clone())));
    entries.push(("description".to_string(), text_template_value(f.description.clone())));
    entries.push(("parameters".to_string(), json_template_value(&f.parameters)));
    proof {
        reveal_strlit("name");
        reveal_strlit("description");
        reveal_strlit("parameters");
        let es = entries@.map_values(|e: (String, minijinja::Value)| (e.0@, template_view(e.1)));
        assert(es[0].0.len() == 4 && es[1].0.len() == 11 && es[2].0.len() == 10);
        lemma_record(es);
        assert(es =~= function_view(*f)->Record_0);
    }
    record_template_value(entries)
}

fn tool_value(t: &ToolDef) -> (v: minijinja::Value)
    ensures
        template_view(v) == tool_view(*t),
{
    let mut entries: Vec<(String, minijinja::Value)> = Vec::new();
    entries.push(("type".to_string(), text_template_value(t.tool_type.clone())));
    entries.push(("function".to_string(), function_value(&t.function)));
    proof {
        reveal_strlit("type");
        reveal_strlit("function");
        let es = entries@.map_values(|e: (String, minijinja::Value)| (e.0@, template_view(e.1)));
        assert(es[0].0.len() == 4 && es[1].0.len() == 8);
        lemma_record(es);
        assert(es =~= tool_view(*t)->Record_0);
    }
    record_template_value(entries)
}

fn messages_value(messages: &[ChatMessage]) -> (v: minijinja::Value)
    ensures
        template_view(v) == TemplateView::List(
            messages@.map_values(|m: ChatMessage| message_view(m)),
        ),
{
    let mut items: Vec<minijinja::Value> = Vec::new();
    for i in 0..messages.len()
        invariant
            items@.len() == i,
            forall|j: int|
                0 <= j < i ==> template_view(#[trigger] items@[j]) == message_view(messages@[j]),
    {
        items.push(message_value(&messages[i]));
    }
    assert(items@.map_values(|x: minijinja::Value| template_view(x)) =~= messages@.map_values(
        |m: ChatMessage| message_view(m),
    ));
    list_template_value(items)
}

fn tools_value(tools: &Vec<ToolDef>) -> (v: minijinja::Value)
    ensures
        template_view(v) == TemplateView::List(tools@.map_values(|t: ToolDef| tool_view(t))),
{
    let mut items: Vec<minijinja::Value> = Vec::new();
    for i in 0..tools.len()
        invariant
            items@.len() == i,
            forall|j: int|
                0 <= j < i ==> template_view(#[trigger] items@[j]) == tool_view(tools@[j]),
    {
        items.push(tool_value(&tools[i]));
    }
    assert(items@.map_values(|x: minijinja::Value| template_view(x)) =~= tools@.map_values(
        |t: ToolDef| tool_view(t),
    ));
    list_template_value(items)
}

fn context_value(messages: &[ChatMessage], tools: &Option<Vec<ToolDef>>) -> (v: minijinja::Value)
    ensures
        template_view(v) == prompt_context(messages@, *tools),
{
    let ghost f = |e: (String, minijinja::Value)| (e.0@, template_view(e.1));
    let mut entries: Vec<(String, minijinja::Value)> = Vec::new();
    entries.push(("bos_token".to_string(), text_template_value("<s>".to_string())));
    entries.push(("messages".to_string(), messages_value(messages)));
    entries.push(("add_generation_prompt".to_string(), flag_template_value(true)));
    entries.push(("enable_thinking".to_string(), flag_template_value(true)));
    match tools {
        Some(list) => {
            if list.len() > 0 {
                entries.push(("tools".to_string(), tools_value(list)));
            }
        },
        None => {},
    }
    proof {
        reveal_strlit("bos_token");
        reveal_strlit("messages");
        reveal_strlit("add_generation_prompt");
        reveal_strlit("enable_thinking");
        reveal_strlit("tools");
        let es = entries@.map_values(f);
        assert(es[0].0.len() == 9 && es[1].0.len() == 8 && es[2].0.len() == 21 && es[3].0.len()
            == 15);
        assert(es.len() == 5 ==> es[4].0.len() == 5);
        lemma_record(es);
        assert(es =~= prompt_context(messages@, *tools)->Record_0);
    }
    record_template_value(entries)
}

/// The prompt that a rendering gives.
pub fn finish_prompt(r: Rendering) -> (p: Result<String, String>)
    ensures
        prompt_view(p) == prompt_of(r@),
{
    match r {
        Rendering::Text(s) => Ok(s),
        Rendering::AddFailed(e) => Err("Template add error: ".to_string().concat(e.as_str())),
        Rendering::GetFailed(e) => Err("Template get error: ".to_string().concat(e.as_str())),
        Rendering::RenderFailed(e) => Err("Template render error: ".to_string().concat(e.as_str())),
    }
}

/// Build a prompt from messages using the chat template.
///
/// Renders the template, passing the message history, optional tool
/// definitions, and the generation-prompt switches.
pub fn build_prompt(messages: &[ChatMessage], tools: &Option<Vec<ToolDef>>) -> (p: Result<
    String,
    String,
>)
    ensures
        prompt_view(p) == prompt_of(
            rendered("chat"@, CHAT_TEMPLATE@, prompt_context(messages@, *tools)),
        ),
{
    let context = context_value(messages, tools);
    finish_prompt(render_template("chat", CHAT_TEMPLATE, &context))
}

} // verus!
