//! The tool calls of the history, written in the format in which the model is
//! told to emit them. That they are read back unchanged is the law of
//! [`super::round_trip`].

use vstd::prelude::*;

use crate::domain::entity::{ToolCallResponse, ToolCallView};
use crate::json::{
    as_text, json_text, object_entries, parse_json, parsed_json, readable, value_text, value_view, Json,
};
use crate::text::same_text;

verus! {

// ---------------------------------------------------------------------------
// Writing: what the text is
// ---------------------------------------------------------------------------

/// A value as it stands in a call: a string is raw, without JSON quotes, and
/// another value is its compact JSON text.
pub open spec fn raw_text(j: Json) -> Seq<char> {
    match j {
        Json::Text(s) => s,
        _ => json_text(j),
    }
}

/// The keys of an object and its values as they stand in a call.
pub open spec fn raw_members(entries: Seq<(Seq<char>, Json)>) -> Seq<(Seq<char>, Seq<char>)> {
    entries.map_values(|e: (Seq<char>, Json)| (e.0, raw_text(e.1)))
}

/// The members that the JSON text of a call's arguments has: those of an
/// object, none for a text that is no JSON object.
pub open spec fn argument_members(arguments: Seq<char>) -> Seq<(Seq<char>, Seq<char>)> {
    match parsed_json(arguments) {
        Some(Json::Object(entries)) => raw_members(entries),
        _ => Seq::empty(),
    }
}

/// One parameter of a call.
pub open spec fn written_parameter(key: Seq<char>, value: Seq<char>) -> Seq<char> {
    "<parameter="@ + key + ">"@ + value + "</parameter>\n"@
}

/// The parameters of a call, one after the other.
pub open spec fn written_parameters(members: Seq<(Seq<char>, Seq<char>)>) -> Seq<char>
    decreases members.len(),
{
    if members.len() == 0 {
        Seq::empty()
    } else {
        written_parameter(members[0].0, members[0].1) + written_parameters(members.skip(1))
    }
}

/// What stands between the tags of a call.
pub open spec fn written_body(name: Seq<char>, members: Seq<(Seq<char>, Seq<char>)>) -> Seq<char> {
    "\n<function="@ + name + ">\n"@ + written_parameters(members) + "</function>\n"@
}

/// A call.
pub open spec fn written_call(name: Seq<char>, members: Seq<(Seq<char>, Seq<char>)>) -> Seq<char> {
    "\n<tool_call>"@ + written_body(name, members) + "</tool_call>"@
}

/// The calls of a history message: those of functions, in their order.
pub open spec fn written_history(calls: Seq<ToolCallView>) -> Seq<char>
    decreases calls.len(),
{
    if calls.len() == 0 {
        Seq::empty()
    } else {
        let head = if calls[0].call_type == "function"@ {
            written_call(calls[0].name, argument_members(calls[0].arguments))
        } else {
            Seq::empty()
        };
        head + written_history(calls.skip(1))
    }
}

// ---------------------------------------------------------------------------
// Writing: the code
// ---------------------------------------------------------------------------

/// The texts of a list of members.
pub open spec fn members_view(members: Seq<(String, String)>) -> Seq<(Seq<char>, Seq<char>)> {
    members.map_values(|m: (String, String)| (m.0@, m.1@))
}

/// Reads the members of a call's arguments. Arguments that are the compact
/// JSON text of a readable object of strings give back exactly those strings.
pub fn read_members(arguments: &str) -> (members: Vec<(String, String)>)
    ensures
        members_view(members@) == argument_members(arguments@),
        forall|entries: Seq<(Seq<char>, Json)>|
            #![trigger json_text(Json::Object(entries))]
            arguments@ == json_text(Json::Object(entries)) && readable(entries) ==> members_view(members@) == raw_members(entries) && parsed_json(arguments@) == Some(
                Json::Object(entries),
            ),
{
    let mut members: Vec<(String, String)> = Vec::new();
    assert(members_view(members@) =~= Seq::empty());
    let value = match parse_json(arguments) {
        Some(v) => v,
        None => {
            return members;
        },
    };
    match object_entries(&value) {
        Some(entries) => {
            let ghost view = value_view(value)->Object_0;
            let ghost f = |e: (String, serde_json::Value)| (e.0@, value_view(e.1));
            assert(entries@.map_values(f) == view);
            for i in 0..entries.len()
                invariant
                    f == (|e: (String, serde_json::Value)| (e.0@, value_view(e.1))),
                    entries@.map_values(f) == view,
                    members_view(members@) == raw_members(view.take(i as int)),
            {
                let ghost before = members@;
                assert(view[i as int] == f(entries@[i as int]));
                let text = match as_text(&entries[i].1) {
                    Some(s) => s,
                    None => value_text(&entries[i].1),
                };
                let key = entries[i].0.clone();
                members.push((key, text));
                proof {
                    assert(members_view(members@) =~= members_view(before).push((key@, text@)));
                    assert(raw_members(view.take(i + 1)) =~= raw_members(view.take(i as int)).push(
                        (key@, text@),
                    ));
                }
            }
            assert(view.take(view.len() as int) =~= view);
        },
        None => {},
    }
    members
}

/// Appends a call.
fn append_call(content: &mut String, name: &str, members: &Vec<(String, String)>)
    ensures
        final(content)@ == old(content)@ + written_call(name@, members_view(members@)),
{
    let ghost start = content@;
    let ghost all = members_view(members@);
    content.append("\n<tool_call>");
    content.append("\n<function=");
    content.append(name);
    content.append(">\n");
    let ghost head = content@;
    assert(all.skip(0) =~= all);
    assert(head + written_parameters(all) =~= content@ + written_parameters(all.skip(0)));
    for i in 0..members.len()
        invariant
            all == members_view(members@),
            head + written_parameters(all) == content@ + written_parameters(all.skip(i as int)),
    {
        let ghost before = content@;
        content.append("<parameter=");
        content.append(members[i].0.as_str());
        content.append(">");
        content.append(members[i].1.as_str());
        content.append("</parameter>\n");
        proof {
            let rest = all.skip(i as int);
            assert(rest[0] == (members@[i as int].0@, members@[i as int].1@));
            assert(rest.skip(1) =~= all.skip(i + 1));
            assert(content@ =~= before + written_parameter(rest[0].0, rest[0].1));
            assert(before + (written_parameter(rest[0].0, rest[0].1) + written_parameters(
                all.skip(i + 1),
            )) =~= content@ + written_parameters(all.skip(i + 1)));
        }
    }
    assert(content@ + written_parameters(all.skip(members@.len() as int)) =~= content@);
    content.append("</function>\n");
    content.append("</tool_call>");
    assert(content@ =~= start + written_call(name@, all));
}

/// The texts of a list of history calls.
pub open spec fn history_view(calls: Seq<ToolCallResponse>) -> Seq<ToolCallView> {
    calls.map_values(|c: ToolCallResponse| c@)
}

impl View for ToolCallResponse {
    type V = ToolCallView;

    open spec fn view(&self) -> ToolCallView {
        ToolCallView {
            id: self.id@,
            call_type: self.call_type@,
            name: self.function.name@,
            arguments: self.function.arguments@,
        }
    }
}

/// Appends the calls of a history message.
pub fn append_history(content: &mut String, calls: &Vec<ToolCallResponse>)
    ensures
        final(content)@ == old(content)@ + written_history(history_view(calls@)),
{
    let ghost start = content@;
    let ghost all = history_view(calls@);
    assert(all.skip(0) =~= all);
    for i in 0..calls.len()
        invariant
            all == history_view(calls@),
            start + written_history(all) == content@ + written_history(all.skip(i as int)),
    {
        let ghost before = content@;
        let ghost rest = all.skip(i as int);
        assert(rest[0] == calls@[i as int]@);
        assert(rest.skip(1) =~= all.skip(i + 1));
        if same_text(calls[i].call_type.as_str(), "function") {
            let members = read_members(calls[i].function.arguments.as_str());
            append_call(content, calls[i].function.name.as_str(), &members);
            proof {
                let head = written_call(rest[0].name, argument_members(rest[0].arguments));
                assert(before + (head + written_history(all.skip(i + 1))) =~= content@
                    + written_history(all.skip(i + 1)));
            }
        } else {
            assert(Seq::<char>::empty() + written_history(all.skip(i + 1)) =~= written_history(
                all.skip(i + 1),
            ));
        }
    }
    assert(content@ + written_history(all.skip(calls@.len() as int)) =~= content@);
}

} // verus!
