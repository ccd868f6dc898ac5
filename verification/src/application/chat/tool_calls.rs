//! The text format of tool calls: reading the calls that the model emitted.

use vstd::prelude::*;
use vstd::slice::slice_subrange;

use super::cleaning::{clean_text, reasoning_and_answer};
use crate::domain::entity::{calls_view, ToolCall, ToolCallFunction, ToolCallView};
use crate::identity::{
    is_tool_call_id, law_tool_call_id, new_uuid_text, tool_call_id, without_hyphens,
};
use crate::json::{
    insert_entry, json_text, map_view, new_object, object_value, text_value, value_text, with_entry,
    Json,
};
use crate::text::{
    ends_with, extend_chars, find, from_chars, has_suffix, lemma_find, lines, remove_all,
    same_chars, search, split_lines, stands_at, starts_with, text_of, to_chars, trim, trimmed,
    without,
};

verus! {

// ---------------------------------------------------------------------------
// Reading: what a text says
// ---------------------------------------------------------------------------

/// A call that was read: the name of the function and its arguments, ordered
/// by key.
pub struct ReadCall {
    pub name: Seq<char>,
    pub entries: Seq<(Seq<char>, Json)>,
}

/// The texts between `<tool_call>` and the next `</tool_call>`, from the left.
pub open spec fn tool_blocks(s: Seq<char>) -> Seq<Seq<char>>
    decreases s.len(),
{
    proof {
        reveal_strlit("<tool_call>");
        lemma_find(s, "<tool_call>"@);
    }
    match find(s, "<tool_call>"@) {
        None => Seq::empty(),
        Some(i) => {
            let body = s.skip(i + "<tool_call>"@.len());
            proof {
                lemma_find(body, "</tool_call>"@);
            }
            match find(body, "</tool_call>"@) {
                None => Seq::empty(),
                Some(e) => seq![body.take(e)] + tool_blocks(body.skip(e + "</tool_call>"@.len())),
            }
        },
    }
}

/// The name in a line `<function=name>`; empty for another line.
pub open spec fn name_in(line: Seq<char>) -> Seq<char> {
    if starts_with(line, "<function="@) {
        let rest = line.skip("<function="@.len() as int);
        if rest.len() > 0 && rest.last() == '>' {
            trim(rest.drop_last())
        } else {
            Seq::empty()
        }
    } else {
        Seq::empty()
    }
}

/// The name of the function that a block calls: its first line names it.
pub open spec fn function_name(block: Seq<char>) -> Seq<char> {
    let ls = lines(trim(block));
    if ls.len() == 0 {
        Seq::empty()
    } else {
        name_in(trim(ls[0]))
    }
}

/// The key, and what follows it, in a line that opens a parameter:
/// `<parameter=key>` and the start of the value.
pub open spec fn opened_parameter(line: Seq<char>) -> Option<(Seq<char>, Seq<char>)> {
    if starts_with(line, "<parameter="@) {
        let rest = line.skip("<parameter="@.len() as int);
        match find(rest, seq!['>']) {
            None => None,
            Some(i) => Some((rest.take(i), rest.skip(i + 1))),
        }
    } else {
        None
    }
}

/// How far the parameters of a block have been read.
pub struct Reading {
    /// The arguments that are complete.
    pub entries: Seq<(Seq<char>, Json)>,
    /// The key of the last parameter that was opened, until the next opens.
    pub current: Option<Seq<char>>,
    /// The lines of its value so far.
    pub value: Seq<char>,
    /// Whether its value may go on.
    pub open: bool,
}

/// Nothing has been read.
pub open spec fn nothing_read() -> Reading {
    Reading { entries: Seq::empty(), current: None, value: Seq::empty(), open: false }
}

/// The arguments with the last parameter that was opened.
pub open spec fn all_entries(r: Reading) -> Seq<(Seq<char>, Json)> {
    match r.current {
        Some(key) => with_entry(r.entries, key, Json::Text(trim(r.value))),
        None => r.entries,
    }
}

/// A value with one more line.
pub open spec fn with_line(value: Seq<char>, line: Seq<char>) -> Seq<char> {
    if value.len() == 0 {
        line
    } else {
        value.push('\n') + line
    }
}

/// `s` without the closing tag of a parameter that it ends with.
pub open spec fn before_close(s: Seq<char>) -> Seq<char> {
    s.take(s.len() - "</parameter>"@.len())
}

/// The reading after one more line. A parameter may stand on one line,
/// `<parameter=key>value</parameter>`, or spread its value over several.
pub open spec fn after_line(r: Reading, raw: Seq<char>) -> Reading {
    let line = trim(raw);
    match opened_parameter(line) {
        Some((key, rest)) => if ends_with(rest, "</parameter>"@) {
            Reading {
                entries: all_entries(r),
                current: Some(key),
                value: before_close(rest),
                open: false,
            }
        } else {
            Reading { entries: all_entries(r), current: Some(key), value: rest, open: true }
        },
        None => if line == "</parameter>"@ {
            Reading { open: false, ..r }
        } else if !r.open {
            r
        } else if ends_with(line, "</parameter>"@) {
            Reading { value: with_line(r.value, before_close(line)), open: false, ..r }
        } else {
            Reading { value: with_line(r.value, line), ..r }
        },
    }
}

/// The reading after more lines.
pub open spec fn after_lines(r: Reading, ls: Seq<Seq<char>>) -> Reading
    decreases ls.len(),
{
    if ls.len() == 0 {
        r
    } else {
        after_lines(after_line(r, ls[0]), ls.skip(1))
    }
}

/// The call that a block holds.
pub open spec fn call_in(block: Seq<char>) -> ReadCall {
    ReadCall {
        name: function_name(block),
        entries: all_entries(after_lines(nothing_read(), lines(trim(block)))),
    }
}

/// The calls that a text holds.
pub open spec fn calls_in(text: Seq<char>) -> Seq<ReadCall> {
    tool_blocks(text).map_values(|b: Seq<char>| call_in(b))
}

/// The answer in a text, with the tags around its calls removed.
pub open spec fn answer_beside_calls(text: Seq<char>) -> Seq<char> {
    reasoning_and_answer(
        trim(remove_all(remove_all(text, "<tool_call>"@), "</tool_call>"@)),
    ).1
}

/// `call` is a function call of the name and the arguments that were read,
/// the arguments as JSON text, under an identifier of its own.
pub open spec fn call_matches(call: ToolCallView, read: ReadCall) -> bool {
    &&& is_tool_call_id(call.id)
    &&& call.call_type == "function"@
    &&& call.name == read.name
    &&& call.arguments == json_text(Json::Object(read.entries))
}

/// The calls match those that were read, one by one.
pub open spec fn calls_match(calls: Seq<ToolCallView>, read: Seq<ReadCall>) -> bool {
    &&& calls.len() == read.len()
    &&& forall|i: int| 0 <= i < calls.len() ==> call_matches(#[trigger] calls[i], read[i])
}

// ---------------------------------------------------------------------------
// Reading: the code
// ---------------------------------------------------------------------------

/// The state of reading the parameters of a block.
struct Reader {
    entries: serde_json::Map<String, serde_json::Value>,
    current: Option<String>,
    value: Vec<char>,
    open: bool,
}

impl View for Reader {
    type V = Reading;

    closed spec fn view(&self) -> Reading {
        Reading {
            entries: map_view(self.entries),
            current: text_of(self.current),
            value: self.value@,
            open: self.open,
        }
    }
}

impl Reader {
    fn new() -> (r: Reader)
        ensures
            r@ == nothing_read(),
    {
        let r = Reader {
            entries: new_object(),
            current: None,
            value: Vec::new(),
            open: false,
        };
        assert(r@.value =~= Seq::<char>::empty());
        r
    }

    /// Completes the parameter that was opened last.
    fn complete(&mut self)
        ensures
            final(self)@.entries == all_entries(old(self)@),
            final(self)@.current is None,
    {
        match self.current.take() {
            Some(key) => {
                let value = from_chars(trimmed(self.value.as_slice()));
                insert_entry(&mut self.entries, key, text_value(value));
            },
            None => {},
        }
    }

    /// Adds a line to the value.
    fn add_line(&mut self, line: &[char])
        ensures
            final(self)@ == (Reading { value: with_line(old(self)@.value, line@), ..old(self)@ }),
    {
        if self.value.len() > 0 {
            self.value.push('\n');
        }
        extend_chars(&mut self.value, line);
        assert(self.value@ =~= with_line(old(self)@.value, line@));
    }

    /// Reads one line.
    fn read_line(&mut self, raw: &[char])
        ensures
            final(self)@ == after_line(old(self)@, raw@),
    {
        proof {
            reveal_strlit("</parameter>");
            reveal_strlit("<parameter=");
        }
        let line = trimmed(raw);
        let end: usize = line.len();
        let close = to_chars("</parameter>");
        let opening = to_chars("<parameter=");
        if stands_at(line, opening.as_slice(), 0) {
            let attribute = slice_subrange(line, opening.len(), end);
            assert(attribute@ == line@.skip(opening@.len() as int));
            let attribute_end: usize = attribute.len();
            let angle: [char; 1] = ['>'];
            assert(angle@ =~= seq!['>']);
            match search(attribute, angle.as_slice()) {
                Some(i) => {
                    let key = slice_subrange(attribute, 0, i);
                    let rest = slice_subrange(attribute, i + 1, attribute_end);
                    assert(key@ == attribute@.take(i as int));
                    assert(rest@ == attribute@.skip(i + 1));
                    self.complete();
                    self.current = Some(from_chars(key));
                    self.value = Vec::new();
                    let rest_end: usize = rest.len();
                    if has_suffix(rest, close.as_slice()) {
                        let inner = slice_subrange(rest, 0, rest_end - close.len());
                        assert(inner@ == before_close(rest@));
                        extend_chars(&mut self.value, inner);
                        self.open = false;
                        assert(self.value@ =~= inner@);
                    } else {
                        extend_chars(&mut self.value, rest);
                        self.open = true;
                        assert(self.value@ =~= rest@);
                    }
                    return ;
                },
                None => {},
            }
        }
        if same_chars(line, close.as_slice()) {
            self.open = false;
        } else if self.open {
            if has_suffix(line, close.as_slice()) {
                let inner = slice_subrange(line, 0, end - close.len());
                assert(inner@ == before_close(line@));
                self.add_line(inner);
                self.open = false;
            } else {
                self.add_line(line);
            }
        }
    }
}

/// Reads the name of the function and the JSON text of the arguments that a
/// block holds.
fn read_block(block: &[char]) -> (r: (String, String))
    ensures
        r.0@ == call_in(block@).name,
        r.1@ == json_text(Json::Object(call_in(block@).entries)),
{
    let ls = split_lines(trimmed(block));
    let ghost all = lines(trim(block@));
    let ghost f = |l: &[char]| l@;
    assert(ls@.map_values(f) == all);
    let mut name = String::new();
    if ls.len() > 0 {
        assert(ls@.map_values(f)[0] == ls@[0]@);
        name = read_name(trimmed(ls[0]));
    } else {
        assert(ls@.map_values(f).len() == ls@.len());
    }
    let mut reader = Reader::new();
    assert(all.skip(0) =~= all);
    for i in 0..ls.len()
        invariant
            f == (|l: &[char]| l@),
            ls@.map_values(f) == all,
            after_lines(nothing_read(), all) == after_lines(reader@, all.skip(i as int)),
    {
        assert(all.skip(i as int)[0] == ls@.map_values(f)[i as int]);
        assert(all.skip(i as int).skip(1) =~= all.skip(i + 1));
        reader.read_line(ls[i]);
    }
    reader.complete();
    let entries = reader.entries;
    (name, value_text(&object_value(entries)))
}

fn read_name(line: &[char]) -> (r: String)
    ensures
        r@ == name_in(line@),
{
    proof {
        reveal_strlit("<function=");
    }
    let prefix = to_chars("<function=");
    let end: usize = line.len();
    if stands_at(line, prefix.as_slice(), 0) {
        let rest = slice_subrange(line, prefix.len(), end);
        assert(rest@ == line@.skip(prefix@.len() as int));
        let n: usize = rest.len();
        if n > 0 && rest[n - 1] == '>' {
            let inner = slice_subrange(rest, 0, n - 1);
            assert(inner@ =~= rest@.drop_last());
            return from_chars(trimmed(inner));
        }
    }
    String::new()
}

/// The tool call of a name and arguments that was given the UUID `uuid`.
pub fn assemble_tool_call(name: String, arguments: String, uuid: &str) -> (call: ToolCall)
    ensures
        call@ == (ToolCallView {
            id: "call_"@ + without_hyphens(uuid@),
            call_type: "function"@,
            name: name@,
            arguments: arguments@,
        }),
{
    ToolCall {
        id: tool_call_id(uuid),
        call_type: "function".to_string(),
        function: ToolCallFunction { name, arguments },
    }
}

/// Parse tool calls from generated text in the format:
///
/// ```xml
/// <tool_call>
/// <function=name>
/// <parameter=key>value</parameter>
/// </function>
/// </tool_call>
/// ```
///
/// Returns the answer beside the calls, and the calls.
pub fn parse_tool_calls(text: &str) -> (r: (String, Vec<ToolCall>))
    ensures
        r.0@ == answer_beside_calls(text@),
        calls_match(calls_view(r.1@), calls_in(text@)),
{
    proof {
        reveal_strlit("<tool_call>");
        reveal_strlit("</tool_call>");
    }
    let chars = to_chars(text);
    let calls = read_calls(chars.as_slice());
    let no_open = without(chars.as_slice(), "<tool_call>");
    let no_tags = without(no_open.as_slice(), "</tool_call>");
    let beside = from_chars(trimmed(no_tags.as_slice()));
    let (_reasoning, cleaned) = clean_text(beside.as_str());
    (cleaned, calls)
}

fn read_calls(s: &[char]) -> (calls: Vec<ToolCall>)
    ensures
        calls_match(calls_view(calls@), calls_in(s@)),
{
    proof {
        reveal_strlit("<tool_call>");
        reveal_strlit("</tool_call>");
    }
    let opening = to_chars("<tool_call>");
    let close = to_chars("</tool_call>");
    let mut calls: Vec<ToolCall> = Vec::new();
    let mut rest: &[char] = s;
    let ghost mut blocks: Seq<Seq<char>> = Seq::empty();
    let ghost f = |b: Seq<char>| call_in(b);
    assert(blocks + tool_blocks(rest@) =~= tool_blocks(s@));
    loop
        invariant
            f == (|b: Seq<char>| call_in(b)),
            opening@ == "<tool_call>"@,
            close@ == "</tool_call>"@,
            "<tool_call>"@.len() == 11,
            "</tool_call>"@.len() == 12,
            blocks + tool_blocks(rest@) == tool_blocks(s@),
            calls_match(calls_view(calls@), blocks.map_values(f)),
        decreases rest@.len(),
    {
        let end: usize = rest.len();
        let ghost from = rest@;
        match search(rest, opening.as_slice()) {
            None => {
                assert(blocks + tool_blocks(rest@) =~= blocks);
                return calls;
            },
            Some(i) => {
                let body = slice_subrange(rest, i + opening.len(), end);
                assert(body@ == from.skip(i + 11));
                let body_end: usize = body.len();
                match search(body, close.as_slice()) {
                    None => {
                        assert(blocks + tool_blocks(rest@) =~= blocks);
                        return calls;
                    },
                    Some(e) => {
                        let block = slice_subrange(body, 0, e);
                        assert(block@ == body@.take(e as int));
                        let (name, arguments) = read_block(block);
                        let uuid = new_uuid_text();
                        let call = assemble_tool_call(name, arguments, uuid.as_str());
                        let ghost before = calls@;
                        let ghost blocks_before = blocks;
                        calls.push(call);
                        rest = slice_subrange(body, e + close.len(), body_end);
                        proof {
                            law_tool_call_id(uuid@);
                            blocks = blocks.push(block@);
                            assert(rest@ == body@.skip(e + 12));
                            assert(blocks_before + (seq![block@] + tool_blocks(rest@)) =~= blocks
                                + tool_blocks(rest@));
                            assert(calls_view(calls@) =~= calls_view(before).push(call@));
                            assert(blocks.map_values(f) =~= blocks_before.map_values(f).push(
                                call_in(block@),
                            ));
                        }
                    },
                }
            },
        }
    }
}

} // verus!
