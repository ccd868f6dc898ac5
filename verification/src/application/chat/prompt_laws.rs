//! What the calls of the history and the messages of a conversation look like
//! in the prompt.

use vstd::prelude::*;

use super::history::{
    argument_members, history_view, raw_members, written_body, written_history, written_parameter,
    written_parameters,
};
use super::prompt::{
    message_view, prompt_content, prompt_context, prompt_of, tool_view,
};
use super::round_trip::{
    block_text, law_call_is_read, law_no_call_without_both_tags, lemma_no_call_in_nothing,
    on_one_line, parameter_text, parameters_text, well_written, Parameter,
};
use super::tool_calls::{calls_in, ReadCall};
use crate::domain::entity::{ChatMessage, ToolCallResponse, ToolCallView, ToolDef};
use crate::json::{json_text, keys_ascend, parsed_json, text_before, value_view, Json};
use crate::template::{serialized_view, RenderingView, TemplateView};
use crate::text::{contains, is_trimmed, lemma_trim_trimmed, occurs_at, trim};

verus! {

// ---------------------------------------------------------------------------
// The calls of the history
// ---------------------------------------------------------------------------

/// A value as a call shows it: a string without quotes, another value as JSON.
pub open spec fn shown(j: Json) -> Seq<char> {
    match j {
        Json::Text(s) => s,
        _ => json_text(j),
    }
}

/// The arguments of a call as parameters that stand on one line each.
pub open spec fn shown_parameters(entries: Seq<(Seq<char>, Json)>) -> Seq<Parameter> {
    entries.map_values(
        |e: (Seq<char>, Json)| on_one_line(e.0, shown(e.1)),
    )
}

/// The arguments of a call as they are read from its text: trimmed.
pub open spec fn shown_entries(entries: Seq<(Seq<char>, Json)>) -> Seq<(Seq<char>, Json)> {
    entries.map_values(|e: (Seq<char>, Json)| (e.0, Json::Text(trim(shown(e.1)))))
}

/// The text of the call can be told from the tags around it.
pub open spec fn can_be_read(name: Seq<char>, entries: Seq<(Seq<char>, Json)>) -> bool {
    &&& !name.contains('\n')
    &&& keys_ascend(entries)
    &&& forall|i: int|
        0 <= i < entries.len() ==> well_written(#[trigger] shown_parameters(entries)[i])
    &&& !contains(block_text(name, shown_parameters(entries)), "</tool_call>"@)
}

/// The arguments that the JSON text of a call holds: those of an object, none
/// where it is no object.
pub open spec fn arguments_of(call: ToolCallView) -> Seq<(Seq<char>, Json)> {
    match parsed_json(call.arguments) {
        Some(Json::Object(entries)) => entries,
        _ => Seq::empty(),
    }
}

/// The function calls of a history, as they are read from its text.
pub open spec fn shown_calls(history: Seq<ToolCallView>) -> Seq<ReadCall>
    decreases history.len(),
{
    if history.len() == 0 {
        Seq::empty()
    } else {
        let call = history[0];
        let rest = shown_calls(history.skip(1));
        if call.call_type == "function"@ {
            seq![ReadCall { name: trim(call.name), entries: shown_entries(arguments_of(call)) }]
                + rest
        } else {
            rest
        }
    }
}

proof fn lemma_shown_parameters(entries: Seq<(Seq<char>, Json)>)
    ensures
        written_parameters(raw_members(entries)) == parameters_text(
            shown_parameters(entries),
        ),
    decreases entries.len(),
{
    let members = raw_members(entries);
    let ps = shown_parameters(entries);
    if entries.len() > 0 {
        let e = entries[0];
        assert(members[0] == (e.0, shown(e.1)));
        assert(ps[0] == (on_one_line(e.0, shown(e.1))));
        assert(members.skip(1) =~= raw_members(entries.skip(1)));
        assert(ps.skip(1) =~= shown_parameters(entries.skip(1)));
        lemma_shown_parameters(entries.skip(1));
        assert(written_parameter(members[0].0, members[0].1) =~= parameter_text(
            ps[0],
        ));
    }
}

/// The calls of a history are read back from the text that they are written
/// as, after any content that holds no call itself: the function calls, in
/// their order, and no other; each with the arguments that its JSON text holds,
/// strings as they are and other values as JSON, white space around them aside.
pub proof fn law_calls_are_shown(content: Seq<char>, history: Seq<ToolCallView>)
    requires
        !contains(content, "<tool_call>"@),
        forall|i: int|
            0 <= i < history.len() && (#[trigger] history[i]).call_type == "function"@
                ==> can_be_read(history[i].name, arguments_of(history[i])),
    ensures
        calls_in(content + written_history(history)) == shown_calls(history),
    decreases history.len(),
{
    if history.len() == 0 {
        lemma_nothing_closes();
        law_no_call_without_both_tags(content, Seq::empty());
        assert(content + written_history(history) =~= content);
        assert(calls_in(content) =~= shown_calls(history));
    } else {
        let call = history[0];
        let more = history.skip(1);
        let rest = written_history(more);
        assert forall|i: int|
            0 <= i < more.len() && (#[trigger] more[i]).call_type
                == "function"@ implies can_be_read(more[i].name, arguments_of(more[i])) by {
            assert(more[i] == history[i + 1]);
        }
        if call.call_type == "function"@ {
            let entries = arguments_of(call);
            let ps = shown_parameters(entries);
            let empty = Seq::<char>::empty();
            let before = content.push('\n');
            reveal_strlit("\n<tool_call>");
            reveal_strlit("<tool_call>");
            assert("\n<tool_call>"@ =~= seq!['\n'] + "<tool_call>"@);
            assert(!contains(before, "<tool_call>"@)) by {
                if contains(before, "<tool_call>"@) {
                    let j = choose|j: int| occurs_at(before, "<tool_call>"@, j);
                    if j + 11 <= content.len() {
                        assert(content.subrange(j, j + 11) =~= before.subrange(j, j + 11));
                        assert(occurs_at(content, "<tool_call>"@, j));
                    } else {
                        assert(before.subrange(j, j + 11).last() == '\n');
                    }
                }
            }
            lemma_shown_parameters(entries);
            assert(argument_members(call.arguments) =~= raw_members(entries));
            assert(written_body(call.name, argument_members(call.arguments))
                == block_text(call.name, ps));
            assert(content + written_history(history) =~= before + "<tool_call>"@ + block_text(
                call.name,
                ps,
            ) + "</tool_call>"@ + rest);
            assert forall|i: int, j: int| 0 <= i < j < ps.len() implies text_before(
                (#[trigger] ps[i]).key,
                (#[trigger] ps[j]).key,
            ) by {
                assert(text_before(entries[i].0, entries[j].0));
            }
            law_call_is_read(before, call.name, ps, rest);
            lemma_no_call_in_nothing();
            law_calls_are_shown(empty, more);
            assert(empty + rest =~= rest);
            let calls = calls_in(content + written_history(history));
            assert(calls[0].entries =~= shown_entries(entries));
            assert(calls =~= seq![calls[0]] + calls.skip(1));
        } else {
            assert(content + written_history(history) =~= content + rest);
            law_calls_are_shown(content, more);
        }
    }
}

/// A function call is written in the format that the model is told to use, on
/// lines of its own behind what stands before it, with one line for each
/// argument; calls are written one after the other, and a call of another type
/// is not written.
pub proof fn law_call_is_written_as_told(call: ToolCallView, rest: Seq<ToolCallView>)
    ensures
        call.call_type == "function"@ ==> written_history(seq![call] + rest)
            == "\n<tool_call>\n<function="@ + call.name + ">\n"@ + parameters_text(
            shown_parameters(arguments_of(call)),
        ) + "</function>\n</tool_call>"@ + written_history(rest),
        call.call_type != "function"@ ==> written_history(seq![call] + rest) == written_history(
            rest,
        ),
        written_history(Seq::empty()) == Seq::<char>::empty(),
{
    let entries = arguments_of(call);
    let all = seq![call] + rest;
    assert(all[0] == call);
    assert(all.skip(1) =~= rest);
    if call.call_type == "function"@ {
        lemma_shown_parameters(entries);
        assert(argument_members(call.arguments) =~= raw_members(entries));
        reveal_strlit("\n<tool_call>\n<function=");
        reveal_strlit("\n<tool_call>");
        reveal_strlit("\n<function=");
        reveal_strlit("</function>\n</tool_call>");
        reveal_strlit("</function>\n");
        reveal_strlit("</tool_call>");
        assert("\n<tool_call>\n<function="@ =~= "\n<tool_call>"@ + "\n<function="@);
        assert("</function>\n</tool_call>"@ =~= "</function>\n"@ + "</tool_call>"@);
        assert(written_history(all) =~= "\n<tool_call>\n<function="@ + call.name + ">\n"@
            + parameters_text(shown_parameters(entries)) + "</function>\n</tool_call>"@
            + written_history(rest));
    } else {
        assert(written_history(all) =~= written_history(rest));
    }
}

proof fn lemma_nothing_closes()
    ensures
        !contains(Seq::<char>::empty(), "</tool_call>"@),
{
    reveal_strlit("</tool_call>");
    let empty = Seq::<char>::empty();
    if contains(empty, "</tool_call>"@) {
        let j = choose|j: int| occurs_at(empty, "</tool_call>"@, j);
    }
}

// ---------------------------------------------------------------------------
// The messages
// ---------------------------------------------------------------------------

/// `record` has one entry of that name, and its value is `value`.
pub open spec fn has_field(record: TemplateView, name: Seq<char>, value: TemplateView) -> bool {
    record matches TemplateView::Record(es) && {
        &&& exists|i: int| 0 <= i < es.len() && #[trigger] es[i] == (name, value)
        &&& forall|i: int|
            0 <= i < es.len() && (#[trigger] es[i]).0 == name ==> es[i].1 == value
    }
}

/// `record` has no entry of that name.
pub open spec fn lacks_field(record: TemplateView, name: Seq<char>) -> bool {
    record matches TemplateView::Record(es) && forall|i: int|
        0 <= i < es.len() ==> (#[trigger] es[i]).0 != name
}

/// The text of a message, empty where its content is null.
pub open spec fn given_text(m: ChatMessage) -> Seq<char> {
    match m.content {
        Some(s) => s@,
        None => Seq::empty(),
    }
}

/// The function calls that a message makes; only the assistant calls.
pub open spec fn made_calls(m: ChatMessage) -> Seq<ToolCallView> {
    if m.role@ == "assistant"@ {
        match m.tool_calls {
            Some(calls) => history_view(calls@),
            None => Seq::empty(),
        }
    } else {
        Seq::empty()
    }
}

/// The template is given every message, in its order, with its role and its
/// content. The content begins with the text of the message. A message of the
/// assistant that makes calls ends with them, whether its text is given or
/// null; nothing else is added to any message.
pub proof fn law_every_message_is_given(
    messages: Seq<ChatMessage>,
    tools: Option<Vec<ToolDef>>,
    i: int,
)
    requires
        0 <= i < messages.len(),
    ensures
        exists|list: Seq<TemplateView>, content: Seq<char>|
            {
                &&& #[trigger] has_field(
                    prompt_context(messages, tools),
                    "messages"@,
                    TemplateView::List(list),
                )
                &&& list.len() == messages.len()
                &&& has_field(list[i], "role"@, TemplateView::Text(messages[i].role@))
                &&& #[trigger] has_field(list[i], "content"@, TemplateView::Text(content))
                &&& content.len() == given_text(messages[i]).len() + written_history(
                    made_calls(messages[i]),
                ).len()
                &&& content.take(given_text(messages[i]).len() as int) == given_text(messages[i])
                &&& content.skip(given_text(messages[i]).len() as int) == written_history(
                    made_calls(messages[i]),
                )
            },
{
    reveal_strlit("role");
    reveal_strlit("content");
    lemma_context_names(messages, tools);
    let list = messages.map_values(|m: ChatMessage| message_view(m));
    let m = messages[i];
    let content = prompt_content(m);
    let text = given_text(m);
    let calls = written_history(made_calls(m));
    assert(content =~= text + calls);
    assert(content.take(text.len() as int) =~= text);
    assert(content.skip(text.len() as int) =~= calls);
    assert(list[i] == message_view(m));
    let es = message_view(m)->Record_0;
    assert(es[0] == ("role"@, TemplateView::Text(m.role@)));
    assert(es[1] == ("content"@, TemplateView::Text(content)));
    assert(es[0].0.len() == 4 && es[1].0.len() == 7);
    assert(has_field(list[i], "role"@, TemplateView::Text(m.role@)));
    assert(has_field(list[i], "content"@, TemplateView::Text(content)));
    assert(has_field(prompt_context(messages, tools), "messages"@, TemplateView::List(list)));
}

/// The names in what the template is given.
proof fn lemma_context_names(messages: Seq<ChatMessage>, tools: Option<Vec<ToolDef>>)
    ensures
        ({
            let es = prompt_context(messages, tools)->Record_0;
            &&& prompt_context(messages, tools) is Record
            &&& es.len() == 4 || es.len() == 5
            &&& es[0] == ("bos_token"@, TemplateView::Text("<s>"@))
            &&& es[1] == (
                "messages"@,
                TemplateView::List(messages.map_values(|m: ChatMessage| message_view(m))),
            )
            &&& es[2] == ("add_generation_prompt"@, TemplateView::Flag(true))
            &&& es[3] == ("enable_thinking"@, TemplateView::Flag(true))
            &&& forall|i: int|
                0 <= i < es.len() ==> (#[trigger] es[i]).0.len() == seq![9nat, 8, 21, 15, 5][i]
            &&& "bos_token"@.len() == 9
            &&& "messages"@.len() == 8
            &&& "add_generation_prompt"@.len() == 21
            &&& "enable_thinking"@.len() == 15
            &&& "tools"@.len() == 5
        }),
{
    reveal_strlit("bos_token");
    reveal_strlit("messages");
    reveal_strlit("add_generation_prompt");
    reveal_strlit("enable_thinking");
    reveal_strlit("tools");
}

/// A null content gives the same as an empty one.
pub proof fn law_null_content_is_empty(null: ChatMessage, empty: ChatMessage)
    requires
        null.role@ == empty.role@,
        null.tool_calls == empty.tool_calls,
        null.content is None,
        empty.content matches Some(s) && s@.len() == 0,
    ensures
        message_view(null) == message_view(empty),
{
    assert(given_text(null) =~= given_text(empty));
    assert(prompt_content(null) =~= prompt_content(empty));
}

/// The calls that the model reads in the content that the template is given for
/// a message of the assistant are the function calls of that message, whether
/// its text is given or null.
pub proof fn law_calls_reach_the_prompt(m: ChatMessage, calls: Vec<ToolCallResponse>)
    requires
        m.role@ == "assistant"@,
        m.tool_calls == Some(calls),
        !contains(given_text(m), "<tool_call>"@),
        forall|i: int|
            0 <= i < calls@.len() && (#[trigger] calls@[i]).call_type@ == "function"@
                ==> can_be_read(
                calls@[i].function.name@,
                arguments_of(calls@[i]@),
            ),
    ensures
        exists|content: Seq<char>|
            {
                &&& #[trigger] has_field(
                    message_view(m),
                    "content"@,
                    TemplateView::Text(content),
                )
                &&& calls_in(content) == shown_calls(calls@.map_values(|c: ToolCallResponse| c@))
            },
{
    reveal_strlit("role");
    reveal_strlit("content");
    let history = history_view(calls@);
    let content = given_text(m) + written_history(history);
    assert forall|i: int|
        0 <= i < history.len() && (#[trigger] history[i]).call_type
            == "function"@ implies can_be_read(history[i].name, arguments_of(history[i])) by {
        assert(history[i] == calls@[i]@);
    }
    law_calls_are_shown(given_text(m), history);
    let es = message_view(m)->Record_0;
    assert(es[1] == ("content"@, TemplateView::Text(content)));
    assert(es[0].0.len() == 4 && es[1].0.len() == 7);
    assert(has_field(message_view(m), "content"@, TemplateView::Text(content)));
}

/// The prompt begins with the token `<s>`, invites the assistant to answer, and
/// lets it think.
pub proof fn law_prompt_invites_an_answer(
    messages: Seq<ChatMessage>,
    tools: Option<Vec<ToolDef>>,
)
    ensures
        has_field(prompt_context(messages, tools), "bos_token"@, TemplateView::Text("<s>"@)),
        has_field(
            prompt_context(messages, tools),
            "add_generation_prompt"@,
            TemplateView::Flag(true),
        ),
        has_field(prompt_context(messages, tools), "enable_thinking"@, TemplateView::Flag(true)),
{
    lemma_context_names(messages, tools);
    let es = prompt_context(messages, tools)->Record_0;
    assert(es[0].0 == "bos_token"@ && es[2].0 == "add_generation_prompt"@ && es[3].0
        == "enable_thinking"@);
}

/// The template is given no tools where there are none.
pub proof fn law_no_tools_are_given(messages: Seq<ChatMessage>, tools: Option<Vec<ToolDef>>)
    ensures
        lacks_field(prompt_context(messages, tools), "tools"@) <==> (tools is None || (
        tools matches Some(list) && list@.len() == 0)),
{
    lemma_context_names(messages, tools);
    if tools is Some && tools->0@.len() > 0 {
        let es = prompt_context(messages, tools)->Record_0;
        assert(es[4].0 == "tools"@);
    }
}

/// Where there are tools, the template is given each of them, in its order,
/// with its type and the name, the description and the parameters of its
/// function.
pub proof fn law_every_tool_is_given(messages: Seq<ChatMessage>, tools: Vec<ToolDef>, i: int)
    requires
        0 <= i < tools@.len(),
    ensures
        exists|list: Seq<TemplateView>, function: TemplateView|
            {
                &&& #[trigger] has_field(
                    prompt_context(messages, Some(tools)),
                    "tools"@,
                    TemplateView::List(list),
                )
                &&& list.len() == tools@.len()
                &&& has_field(list[i], "type"@, TemplateView::Text(tools@[i].tool_type@))
                &&& #[trigger] has_field(list[i], "function"@, function)
                &&& has_field(function, "name"@, TemplateView::Text(tools@[i].function.name@))
                &&& has_field(
                    function,
                    "description"@,
                    TemplateView::Text(tools@[i].function.description@),
                )
                &&& has_field(
                    function,
                    "parameters"@,
                    serialized_view(value_view(tools@[i].function.parameters)),
                )
            },
{
    reveal_strlit("type");
    reveal_strlit("function");
    reveal_strlit("name");
    reveal_strlit("description");
    reveal_strlit("parameters");
    lemma_context_names(messages, Some(tools));
    let es = prompt_context(messages, Some(tools))->Record_0;
    let list = tools@.map_values(|t: ToolDef| tool_view(t));
    assert(es[4] == ("tools"@, TemplateView::List(list)));
    let t = tools@[i];
    assert(list[i] == tool_view(t));
    let ts = tool_view(t)->Record_0;
    assert(ts[0] == ("type"@, TemplateView::Text(t.tool_type@)));
    assert(ts[0].0.len() == 4 && ts[1].0.len() == 8);
    let function = ts[1].1;
    assert(ts[1] == ("function"@, function));
    let fs = function->Record_0;
    assert(fs[0] == ("name"@, TemplateView::Text(t.function.name@)));
    assert(fs[1] == ("description"@, TemplateView::Text(t.function.description@)));
    assert(fs[2] == ("parameters"@, serialized_view(value_view(t.function.parameters))));
    assert(fs[0].0.len() == 4 && fs[1].0.len() == 11 && fs[2].0.len() == 10);
    assert(has_field(list[i], "type"@, TemplateView::Text(t.tool_type@)));
    assert(has_field(list[i], "function"@, function));
    assert(has_field(
        prompt_context(messages, Some(tools)),
        "tools"@,
        TemplateView::List(list),
    ));
}

/// A rendering that gave a text is the prompt, unchanged; one that failed is an
/// error that ends with what went wrong, and says at which step it did.
pub proof fn law_failed_rendering_is_reported(text: Seq<char>)
    ensures
        prompt_of(RenderingView::Text(text)) == Ok::<Seq<char>, Seq<char>>(text),
        prompt_of(RenderingView::AddFailed(text)) matches Err(e) && e.len() == 20 + text.len()
            && e.take(20) == "Template add error: "@ && e.skip(20) == text,
        prompt_of(RenderingView::GetFailed(text)) matches Err(e) && e.len() == 20 + text.len()
            && e.take(20) == "Template get error: "@ && e.skip(20) == text,
        prompt_of(RenderingView::RenderFailed(text)) matches Err(e) && e.len() == 23 + text.len()
            && e.take(23) == "Template render error: "@ && e.skip(23) == text,
{
    reveal_strlit("Template add error: ");
    reveal_strlit("Template get error: ");
    reveal_strlit("Template render error: ");
    assert(prompt_of(RenderingView::AddFailed(text))->Err_0.take(20) =~= "Template add error: "@);
    assert(prompt_of(RenderingView::AddFailed(text))->Err_0.skip(20) =~= text);
    assert(prompt_of(RenderingView::GetFailed(text))->Err_0.take(20) =~= "Template get error: "@);
    assert(prompt_of(RenderingView::GetFailed(text))->Err_0.skip(20) =~= text);
    assert(prompt_of(RenderingView::RenderFailed(text))->Err_0.take(23)
        =~= "Template render error: "@);
    assert(prompt_of(RenderingView::RenderFailed(text))->Err_0.skip(23) =~= text);
}

/// A function call whose name is trimmed and whose arguments are trimmed strings
/// comes back as it was: the calls that are read from the text of such calls
/// have the same names and the same arguments.
pub proof fn law_string_arguments_come_back(history: Seq<ToolCallView>)
    requires
        forall|i: int|
            0 <= i < history.len() ==> {
                &&& (#[trigger] history[i]).call_type == "function"@
                &&& is_trimmed(history[i].name)
                &&& trimmed_strings(arguments_of(history[i]))
            },
    ensures
        shown_calls(history).len() == history.len(),
        forall|i: int|
            0 <= i < history.len() ==> (#[trigger] shown_calls(history)[i]).name == history[i].name
                && shown_calls(history)[i].entries == arguments_of(history[i]),
    decreases history.len(),
{
    if history.len() > 0 {
        let more = history.skip(1);
        let call = history[0];
        let entries = arguments_of(call);
        assert forall|i: int| 0 <= i < more.len() implies {
            &&& (#[trigger] more[i]).call_type == "function"@
            &&& is_trimmed(more[i].name)
            &&& trimmed_strings(arguments_of(more[i]))
        } by {
            assert(more[i] == history[i + 1]);
        }
        law_string_arguments_come_back(more);
        lemma_trim_trimmed(call.name);
        assert(shown_entries(entries) =~= entries) by {
            assert forall|k: int| 0 <= k < entries.len() implies #[trigger] shown_entries(entries)[k]
                == entries[k] by {
                assert(entries[k].1 is Text);
                lemma_trim_trimmed(entries[k].1->Text_0);
            }
        }
        assert forall|i: int| 0 <= i < history.len() implies (#[trigger] shown_calls(
            history,
        )[i]).name == history[i].name && shown_calls(history)[i].entries == arguments_of(
            history[i],
        ) by {
            if i > 0 {
                assert(shown_calls(history)[i] == shown_calls(more)[i - 1]);
                assert(more[i - 1] == history[i]);
            }
        }
    }
}

/// Every value is a string without white space around it.
pub open spec fn trimmed_strings(entries: Seq<(Seq<char>, Json)>) -> bool {
    forall|i: int|
        0 <= i < entries.len() ==> ((#[trigger] entries[i]).1 matches Json::Text(s) && is_trimmed(s))
}

} // verus!
