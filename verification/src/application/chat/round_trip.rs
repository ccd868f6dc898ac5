//! How tool calls are read from text: those of the history come back unchanged, and
//! those that a model writes are read in any layout.

use vstd::prelude::*;

use super::history::{
    argument_members, raw_members, raw_text, written_body, written_call, written_history,
    written_parameter, written_parameters,
};
use super::tool_calls::{
    after_line, after_lines, all_entries, before_close, call_in, calls_in, name_in, nothing_read,
    opened_parameter, tool_blocks, ReadCall, Reading,
};
use crate::domain::entity::ToolCallView;
use crate::json::{keys_ascend, only_texts, parsed_json, text_before, with_entry, Json};
use crate::text::{
    contains, ends_with, find, is_space, is_trimmed, lemma_find, lemma_find_from_is,
    lemma_trim_trimmed, lines, occurs_at, starts_with, trim, trim_end, trim_start, without_return,
};

verus! {

// ---------------------------------------------------------------------------
// Which calls survive
// ---------------------------------------------------------------------------

/// The lines of a value after its first are read as lines of it, and the last
/// ends it.
pub open spec fn continues(rest: Seq<char>) -> bool
    decreases rest.len(),
{
    proof {
        lemma_find(rest, seq!['\n']);
    }
    match find(rest, seq!['\n']) {
        None => {
            &&& rest.len() > 0 ==> !is_space(rest[0])
            &&& rest.len() > 0
            &&& opened_parameter(rest + "</parameter>"@) is None
        },
        Some(i) => {
            let line = rest.take(i);
            &&& is_trimmed(line)
            &&& opened_parameter(line) is None
            &&& !ends_with(line, "</parameter>"@)
            &&& continues(rest.skip(i + 1))
        },
    }
}

/// A value is read back unchanged: it is trimmed, and so is each of its
/// lines; no line but its last closes it and none opens another parameter.
pub open spec fn value_survives(value: Seq<char>) -> bool {
    &&& is_trimmed(value)
    &&& match find(value, seq!['\n']) {
        None => true,
        Some(i) => {
            let line = value.take(i);
            &&& is_trimmed(line)
            &&& !ends_with(line, "</parameter>"@)
            &&& continues(value.skip(i + 1))
        },
    }
}

/// A key is read back unchanged.
pub open spec fn key_survives(key: Seq<char>) -> bool {
    !key.contains('>') && !key.contains('\n')
}

/// A name is read back unchanged.
pub open spec fn name_survives(name: Seq<char>) -> bool {
    is_trimmed(name) && !name.contains('\n')
}

/// A call is read back unchanged: its arguments are strings, its texts
/// survive, and none of them closes the call.
pub open spec fn call_survives(name: Seq<char>, entries: Seq<(Seq<char>, Json)>) -> bool {
    &&& name_survives(name)
    &&& keys_ascend(entries)
    &&& only_texts(entries)
    &&& forall|i: int|
        0 <= i < entries.len() ==> key_survives((#[trigger] entries[i]).0) && value_survives(
            raw_text(entries[i].1),
        )
    &&& !contains(written_body(name, raw_members(entries)), "</tool_call>"@)
}

// ---------------------------------------------------------------------------
// Searching and lines
// ---------------------------------------------------------------------------

pub proof fn lemma_occurs_char(s: Seq<char>, c: char, i: int)
    ensures
        occurs_at(s, seq![c], i) <==> 0 <= i < s.len() && s[i] == c,
{
    if 0 <= i < s.len() {
        assert(s.subrange(i, i + 1)[0] == s[i]);
        if s[i] == c {
            assert(s.subrange(i, i + 1) =~= seq![c]);
        }
    }
}

/// The first `c` after a text without `c`.
pub proof fn lemma_find_char(a: Seq<char>, c: char, b: Seq<char>)
    requires
        !a.contains(c),
    ensures
        find(a.push(c) + b, seq![c]) == Some(a.len() as int),
{
    let s = a.push(c) + b;
    lemma_occurs_char(s, c, a.len() as int);
    assert forall|j: int| 0 <= j < a.len() implies !occurs_at(s, seq![c], j) by {
        lemma_occurs_char(s, c, j);
        assert(s[j] == a[j]);
    }
    lemma_find_from_is(s, seq![c], 0, a.len() as int);
}

pub proof fn lemma_no_char(a: Seq<char>, c: char)
    ensures
        find(a, seq![c]) is None <==> !a.contains(c),
        find(a, seq![c]) matches Some(i) ==> 0 <= i < a.len() && a[i] == c && !a.take(i).contains(
            c,
        ),
{
    lemma_find(a, seq![c]);
    match find(a, seq![c]) {
        None => {
            if a.contains(c) {
                let i = choose|i: int| 0 <= i < a.len() && a[i] == c;
                lemma_occurs_char(a, c, i);
            }
        },
        Some(i) => {
            lemma_occurs_char(a, c, i);
            if a.take(i).contains(c) {
                let j = choose|j: int| 0 <= j < i && a.take(i)[j] == c;
                lemma_occurs_char(a, c, j);
            }
        },
    }
}

/// A line and a line feed before other lines.
pub proof fn lemma_lines_first(a: Seq<char>, b: Seq<char>)
    requires
        !a.contains('\n'),
        is_trimmed(a),
    ensures
        lines(a.push('\n') + b) == seq![a] + lines(b),
{
    let s = a.push('\n') + b;
    lemma_find_char(a, '\n', b);
    assert(s.take(a.len() as int) =~= a);
    assert(s.skip(a.len() as int + 1) =~= b);
    assert(without_return(a) == a);
}

/// The occurrence of a pattern after a text that does not contain it, when the
/// first character of the pattern stands in it only once.
pub proof fn lemma_find_after(a: Seq<char>, p: Seq<char>, b: Seq<char>)
    requires
        p.len() > 0,
        forall|j: int| 0 < j < p.len() ==> #[trigger] p[j] != p[0],
        !contains(a, p),
    ensures
        find(a + p + b, p) == Some(a.len() as int),
{
    let s = a + p + b;
    let n = a.len() as int;
    assert(s.subrange(n, n + p.len()) =~= p);
    assert forall|j: int| 0 <= j < n implies !occurs_at(s, p, j) by {
        if occurs_at(s, p, j) {
            if j + p.len() <= n {
                assert(a.subrange(j, j + p.len()) =~= s.subrange(j, j + p.len()));
                assert(occurs_at(a, p, j));
            } else {
                let k = n - j;
                assert(s.subrange(j, j + p.len())[k] == s[n]);
                assert(s[n] == p[0]);
            }
        }
    }
    lemma_find_from_is(s, p, 0, n);
}

// ---------------------------------------------------------------------------
// Parameters
// ---------------------------------------------------------------------------

/// The lines of a value after its first.
proof fn lemma_value_continues(r: Reading, v: Seq<char>, rest: Seq<char>)
    requires
        r.open,
        r.value.len() > 0,
        continues(v),
    ensures
        after_lines(r, lines(v + "</parameter>\n"@ + rest)) == after_lines(
            Reading { value: r.value.push('\n') + v, open: false, ..r },
            lines(rest),
        ),
    decreases v.len(),
{
    reveal_strlit("</parameter>");
    reveal_strlit("</parameter>\n");
    let close = "</parameter>"@;
    assert("</parameter>\n"@ =~= close.push('\n'));
    let text = v + "</parameter>\n"@ + rest;
    lemma_no_char(v, '\n');
    match find(v, seq!['\n']) {
        None => {
            let a = v + close;
            assert(!a.contains('\n')) by {
                if a.contains('\n') {
                    let j = choose|j: int| 0 <= j < a.len() && a[j] == '\n';
                    if j < v.len() {
                        assert(v[j] == '\n');
                    } else {
                        assert(close[j - v.len()] == '\n');
                    }
                }
            }
            assert(text =~= a.push('\n') + rest);
            assert(is_trimmed(a));
            lemma_lines_first(a, rest);
            lemma_trim_trimmed(a);
            assert(a.subrange(a.len() - close.len(), a.len() as int) =~= close);
            assert(before_close(a) =~= v);
            assert(a != close);
            let next = Reading { value: r.value.push('\n') + v, open: false, ..r };
            assert(after_line(r, a) == next);
            assert((seq![a] + lines(rest)).skip(1) =~= lines(rest));
        },
        Some(i) => {
            let a = v.take(i);
            let tail = v.skip(i + 1);
            assert(text =~= a.push('\n') + (tail + "</parameter>\n"@ + rest));
            lemma_lines_first(a, tail + "</parameter>\n"@ + rest);
            lemma_trim_trimmed(a);
            assert(close.subrange(0, close.len() as int) =~= close);
            let mid = Reading { value: r.value.push('\n') + a, ..r };
            assert(after_line(r, a) == mid);
            let ls = lines(tail + "</parameter>\n"@ + rest);
            assert((seq![a] + ls).skip(1) =~= ls);
            lemma_value_continues(mid, tail, rest);
            assert(mid.value.push('\n') + tail =~= r.value.push('\n') + v);
        },
    }
}

/// One parameter before other lines.
proof fn lemma_parameter(r: Reading, key: Seq<char>, v: Seq<char>, rest: Seq<char>)
    requires
        key_survives(key),
        value_survives(v),
    ensures
        after_lines(r, lines(written_parameter(key, v) + rest)) == after_lines(
            Reading { entries: all_entries(r), current: Some(key), value: v, open: false },
            lines(rest),
        ),
{
    reveal_strlit("</parameter>");
    reveal_strlit("</parameter>\n");
    reveal_strlit("<parameter=");
    reveal_strlit(">");
    let close = "</parameter>"@;
    let open = "<parameter="@;
    assert("</parameter>\n"@ =~= close.push('\n'));
    assert(">"@ =~= seq!['>']);
    let text = written_parameter(key, v) + rest;
    let head = open + key + ">"@;
    lemma_no_char(v, '\n');
    assert(!head.contains('\n')) by {
        if head.contains('\n') {
            let j = choose|j: int| 0 <= j < head.len() && head[j] == '\n';
            if 11 <= j < 11 + key.len() {
                assert(key[j - 11] == '\n');
            }
        }
    }
    match find(v, seq!['\n']) {
        None => {
            let a = head + v + close;
            assert(!a.contains('\n')) by {
                if a.contains('\n') {
                    let j = choose|j: int| 0 <= j < a.len() && a[j] == '\n';
                    if j < head.len() {
                        assert(head[j] == '\n');
                    } else if j < head.len() + v.len() {
                        assert(v[j - head.len()] == '\n');
                    } else {
                        assert(close[j - head.len() - v.len()] == '\n');
                    }
                }
            }
            assert(text =~= a.push('\n') + rest);
            assert(is_trimmed(a));
            lemma_lines_first(a, rest);
            lemma_trim_trimmed(a);
            assert(a =~= open + key + ">"@ + (v + close));
            lemma_opened(a, key, v + close);
            let after = v + close;
            assert(after.subrange(after.len() - close.len(), after.len() as int) =~= close);
            assert(before_close(after) =~= v);
            assert((seq![a] + lines(rest)).skip(1) =~= lines(rest));
        },
        Some(i) => {
            let first = v.take(i);
            let tail = v.skip(i + 1);
            assert(i > 0) by {
                assert(is_space('\n'));
            }
            let a = head + first;
            assert(!a.contains('\n')) by {
                if a.contains('\n') {
                    let j = choose|j: int| 0 <= j < a.len() && a[j] == '\n';
                    if j < head.len() {
                        assert(head[j] == '\n');
                    } else {
                        assert(first[j - head.len()] == '\n');
                    }
                }
            }
            let more = tail + "</parameter>\n"@ + rest;
            assert(text =~= a.push('\n') + more);
            assert(is_trimmed(a)) by {
                assert(a.last() == first.last());
            }
            lemma_lines_first(a, more);
            lemma_trim_trimmed(a);
            lemma_opened(a, key, first);
            let mid = Reading {
                entries: all_entries(r),
                current: Some(key),
                value: first,
                open: true,
            };
            assert(after_line(r, a) == mid);
            assert((seq![a] + lines(more)).skip(1) =~= lines(more));
            lemma_value_continues(mid, tail, rest);
            assert(first.push('\n') + tail =~= v);
        },
    }
}

/// What a line that opens a parameter opens.
proof fn lemma_opened(a: Seq<char>, key: Seq<char>, after: Seq<char>)
    requires
        a == "<parameter="@ + key + ">"@ + after,
        !key.contains('>'),
    ensures
        opened_parameter(a) == Some((key, after)),
{
    reveal_strlit("<parameter=");
    reveal_strlit(">");
    let open = "<parameter="@;
    assert(a.subrange(0, 11) =~= open);
    let rest = a.skip(11);
    assert(rest =~= key.push('>') + after);
    lemma_find_char(key, '>', after);
    assert(rest.take(key.len() as int) =~= key);
    assert(rest.skip(key.len() as int + 1) =~= after);
}

/// The entries after each of the members was added.
spec fn entries_with(
    entries: Seq<(Seq<char>, Json)>,
    members: Seq<(Seq<char>, Seq<char>)>,
) -> Seq<(Seq<char>, Json)>
    decreases members.len(),
{
    if members.len() == 0 {
        entries
    } else {
        entries_with(with_entry(entries, members[0].0, Json::Text(members[0].1)), members.skip(1))
    }
}

/// The parameters of a call, up to its end.
proof fn lemma_parameters(r: Reading, members: Seq<(Seq<char>, Seq<char>)>)
    requires
        !r.open,
        forall|i: int|
            0 <= i < members.len() ==> key_survives((#[trigger] members[i]).0) && value_survives(
                members[i].1,
            ),
    ensures
        all_entries(after_lines(r, lines(written_parameters(members) + "</function>"@)))
            == entries_with(all_entries(r), members),
    decreases members.len(),
{
    reveal_strlit("</function>");
    reveal_strlit("</parameter>");
    reveal_strlit("<parameter=");
    let last = "</function>"@;
    if members.len() == 0 {
        assert(written_parameters(members) + last =~= last);
        lemma_no_char(last, '\n');
        assert(!last.contains('\n'));
        assert(lines(last) =~= seq![last]);
        lemma_trim_trimmed(last);
        assert(opened_parameter(last) is None) by {
            if starts_with(last, "<parameter="@) {
                assert(last.subrange(0, 11)[1] == "<parameter="@[1]);
            }
        }
        assert(last != "</parameter>"@);
        assert(after_line(r, last) == r);
        assert(seq![last].skip(1) =~= Seq::<Seq<char>>::empty());
        assert(after_lines(r, seq![last]) == after_lines(after_line(r, last), seq![last].skip(1)));
    } else {
        let key = members[0].0;
        let v = members[0].1;
        let more = written_parameters(members.skip(1)) + last;
        assert(written_parameters(members) + last =~= written_parameter(key, v) + more);
        lemma_parameter(r, key, v, more);
        let next = Reading {
            entries: all_entries(r),
            current: Some(key),
            value: v,
            open: false,
        };
        lemma_trim_trimmed(v);
        lemma_parameters(next, members.skip(1));
    }
}

/// No text comes before itself.
proof fn lemma_not_before_itself(a: Seq<char>)
    ensures
        !text_before(a, a),
    decreases a.len(),
{
    if a.len() > 0 {
        lemma_not_before_itself(a.skip(1));
    }
}

/// Members whose keys ascend become the entries in their order.
proof fn lemma_entries_in_order(entries: Seq<(Seq<char>, Json)>, n: int)
    requires
        keys_ascend(entries),
        only_texts(entries),
        0 <= n <= entries.len(),
    ensures
        entries_with(entries.take(n), raw_members(entries.skip(n))) == entries,
    decreases entries.len() - n,
{
    let done = entries.take(n);
    let members = raw_members(entries.skip(n));
    if n == entries.len() {
        assert(done =~= entries);
    } else {
        let e = entries[n];
        assert(members[0] == (e.0, raw_text(e.1)));
        assert(e.1 == Json::Text(members[0].1));
        if n > 0 {
            assert(done.last() == entries[n - 1]);
            assert(text_before(entries[n - 1].0, entries[n].0));
            lemma_not_before_itself(e.0);
        }
        assert(with_entry(done, e.0, e.1) =~= entries.take(n + 1));
        assert(members.skip(1) =~= raw_members(entries.skip(n + 1)));
        lemma_entries_in_order(entries, n + 1);
    }
}

// ---------------------------------------------------------------------------
// Calls
// ---------------------------------------------------------------------------

/// The body of a call is read as the call.
proof fn lemma_body(name: Seq<char>, entries: Seq<(Seq<char>, Json)>)
    requires
        call_survives(name, entries),
    ensures
        call_in(written_body(name, raw_members(entries))) == (ReadCall { name, entries }),
{
    reveal_strlit("\n<function=");
    reveal_strlit("<function=");
    reveal_strlit(">\n");
    reveal_strlit("</function>\n");
    reveal_strlit("</function>");
    reveal_strlit("<parameter=");
    reveal_strlit("</parameter>");
    let members = raw_members(entries);
    let body = written_body(name, members);
    let first = "<function="@ + name + seq!['>'];
    let more = written_parameters(members) + "</function>"@;
    let inner = first.push('\n') + more;
    assert(body =~= seq!['\n'] + inner + seq!['\n']);
    assert(trim(body) == inner) by {
        assert(is_space('\n'));
        assert(body.skip(1) =~= inner + seq!['\n']);
        let t = inner + seq!['\n'];
        assert(t[0] == '<');
        assert(trim_start(body) == trim_start(t));
        assert(trim_start(t) == t);
        assert(t.drop_last() =~= inner);
        assert(inner.last() == more.last());
        assert(more.last() == "</function>"@.last());
        assert(trim_end(t) == trim_end(inner));
        assert(trim_end(inner) == inner);
    }
    assert(!first.contains('\n')) by {
        if first.contains('\n') {
            let j = choose|j: int| 0 <= j < first.len() && first[j] == '\n';
            if 10 <= j < 10 + name.len() {
                assert(name[j - 10] == '\n');
            }
        }
    }
    assert(is_trimmed(first));
    lemma_lines_first(first, more);
    lemma_trim_trimmed(first);
    assert(name_in(first) == name) by {
        assert(first.subrange(0, 10) =~= "<function="@);
        let rest = first.skip(10);
        assert(rest =~= name.push('>'));
        assert(rest.drop_last() =~= name);
        lemma_trim_trimmed(name);
    }
    let start = nothing_read();
    assert(after_line(start, first) == start) by {
        assert(first[1] == 'f');
        if starts_with(first, "<parameter="@) {
            assert(first.subrange(0, 11)[1] == "<parameter="@[1]);
        }
        assert(first != "</parameter>"@);
    }
    assert((seq![first] + lines(more)).skip(1) =~= lines(more));
    assert forall|i: int| 0 <= i < members.len() implies key_survives((#[trigger] members[i]).0)
        && value_survives(members[i].1) by {
        assert(members[i] == (entries[i].0, raw_text(entries[i].1)));
    }
    lemma_parameters(start, members);
    lemma_entries_in_order(entries, 0);
    assert(entries.take(0) =~= Seq::<(Seq<char>, Json)>::empty());
    assert(entries.skip(0) =~= entries);
}

/// A call before another text is the first block.
proof fn lemma_block(
    content: Seq<char>,
    name: Seq<char>,
    members: Seq<(Seq<char>, Seq<char>)>,
    rest: Seq<char>,
)
    requires
        !contains(content, "<tool_call>"@),
        !contains(written_body(name, members), "</tool_call>"@),
    ensures
        tool_blocks(content + written_call(name, members) + rest) == seq![
            written_body(name, members),
        ] + tool_blocks(rest),
{
    reveal_strlit("\n<tool_call>");
    reveal_strlit("<tool_call>");
    reveal_strlit("</tool_call>");
    let open = "<tool_call>"@;
    let close = "</tool_call>"@;
    let body = written_body(name, members);
    let text = content + written_call(name, members) + rest;
    let before = content.push('\n');
    assert("\n<tool_call>"@ =~= seq!['\n'] + open);
    assert(!contains(before, open)) by {
        if contains(before, open) {
            let j = choose|j: int| occurs_at(before, open, j);
            if j + open.len() <= content.len() {
                assert(content.subrange(j, j + open.len()) =~= before.subrange(j, j + open.len()));
                assert(occurs_at(content, open, j));
            } else {
                assert(before.subrange(j, j + open.len()).last() == '\n');
                assert(open.last() == '>');
            }
        }
    }
    let after = body + close + rest;
    assert(text =~= before + open + after);
    lemma_find_after(before, open, after);
    assert(text.skip(before.len() as int + open.len()) =~= after);
    lemma_find_after(body, close, rest);
    assert(after.take(body.len() as int) =~= body);
    assert(after.skip(body.len() as int + close.len()) =~= rest);
}

/// The calls that a history names, with their arguments as entries.
pub open spec fn history_calls(
    history: Seq<ToolCallView>,
    entries: Seq<Seq<(Seq<char>, Json)>>,
) -> Seq<ReadCall> {
    Seq::new(history.len(), |i: int| ReadCall { name: history[i].name, entries: entries[i] })
}

/// Function calls of the history whose arguments are objects of strings are
/// read back unchanged from the text that they are written as, after any
/// content that holds no call itself: the same functions in the same order,
/// each with the same arguments.
pub proof fn law_history_is_read_back(
    content: Seq<char>,
    history: Seq<ToolCallView>,
    entries: Seq<Seq<(Seq<char>, Json)>>,
)
    requires
        !contains(content, "<tool_call>"@),
        history.len() == entries.len(),
        forall|i: int|
            0 <= i < history.len() ==> {
                &&& (#[trigger] history[i]).call_type == "function"@
                &&& parsed_json(history[i].arguments) == Some(Json::Object(entries[i]))
                &&& call_survives(history[i].name, entries[i])
            },
    ensures
        calls_in(content + written_history(history)) == history_calls(history, entries),
    decreases history.len(),
{
    let f = |b: Seq<char>| call_in(b);
    reveal_strlit("<tool_call>");
    if history.len() == 0 {
        assert(content + written_history(history) =~= content);
        lemma_find(content, "<tool_call>"@);
        assert(calls_in(content) =~= history_calls(history, entries));
    } else {
        let name = history[0].name;
        let members = raw_members(entries[0]);
        let more = history.skip(1);
        let more_entries = entries.skip(1);
        let rest = written_history(more);
        let empty = Seq::<char>::empty();
        assert(argument_members(history[0].arguments) == members);
        assert(content + written_history(history) =~= content + written_call(name, members) + rest);
        lemma_block(content, name, members, rest);
        lemma_body(name, entries[0]);
        assert(!contains(empty, "<tool_call>"@)) by {
            if contains(empty, "<tool_call>"@) {
                let j = choose|j: int| occurs_at(empty, "<tool_call>"@, j);
            }
        }
        assert forall|i: int| 0 <= i < more.len() implies {
            &&& (#[trigger] more[i]).call_type == "function"@
            &&& parsed_json(more[i].arguments) == Some(Json::Object(more_entries[i]))
            &&& call_survives(more[i].name, more_entries[i])
        } by {
            assert(more[i] == history[i + 1]);
        }
        law_history_is_read_back(empty, more, more_entries);
        assert(empty + rest =~= rest);
        let blocks = seq![written_body(name, members)] + tool_blocks(rest);
        assert(blocks.map_values(f) =~= seq![call_in(written_body(name, members))] + tool_blocks(
            rest,
        ).map_values(f));
        assert(history_calls(history, entries) =~= seq![ReadCall { name, entries: entries[0] }]
            + history_calls(more, more_entries));
    }
}

// ---------------------------------------------------------------------------
// The layouts of a parameter
// ---------------------------------------------------------------------------

/// A parameter as a model may write it.
pub struct Parameter {
    pub key: Seq<char>,
    pub value: Seq<char>,
    /// The value begins on a line of its own, below the opening tag.
    pub below: bool,
    /// The closing tag stands on a line of its own, below the value.
    pub above: bool,
    /// There is a closing tag.
    pub closed: bool,
}

/// A parameter on one line.
pub open spec fn on_one_line(key: Seq<char>, value: Seq<char>) -> Parameter {
    Parameter { key, value, below: false, above: false, closed: true }
}

/// The text behind the value of a parameter.
pub open spec fn closing_text(p: Parameter) -> Seq<char> {
    if !p.closed {
        "\n"@
    } else if p.above {
        "\n</parameter>\n"@
    } else {
        "</parameter>\n"@
    }
}

/// The text of a parameter.
pub open spec fn parameter_text(p: Parameter) -> Seq<char> {
    let opening = if p.below {
        "<parameter="@ + p.key + ">\n"@
    } else {
        "<parameter="@ + p.key + ">"@
    };
    opening + p.value + closing_text(p)
}

/// The text of parameters, one after the other.
pub open spec fn parameters_text(ps: Seq<Parameter>) -> Seq<char>
    decreases ps.len(),
{
    if ps.len() == 0 {
        Seq::empty()
    } else {
        parameter_text(ps[0]) + parameters_text(ps.skip(1))
    }
}

/// Each line of a value is trimmed and holds no tag of a parameter at its edge.
pub open spec fn lines_stand_alone(value: Seq<char>) -> bool
    decreases value.len(),
{
    proof {
        lemma_find(value, seq!['\n']);
    }
    match find(value, seq!['\n']) {
        None => {
            &&& is_trimmed(value)
            &&& !starts_with(value, "<parameter="@)
            &&& !ends_with(value, "</parameter>"@)
        },
        Some(i) => {
            &&& is_trimmed(value.take(i))
            &&& !starts_with(value.take(i), "<parameter="@)
            &&& !ends_with(value.take(i), "</parameter>"@)
            &&& lines_stand_alone(value.skip(i + 1))
        },
    }
}

/// The parameter can be told from the tags around it: its key stands on one
/// line and holds no `>`, and its value stands on the line of both its tags, or
/// it is trimmed and stands on lines that hold no tag.
pub open spec fn well_written(p: Parameter) -> bool {
    &&& !p.key.contains('>')
    &&& !p.key.contains('\n')
    &&& p.below || p.above || !p.closed || p.value.contains('\n') ==> is_trimmed(p.value)
        && lines_stand_alone(p.value)
}

/// Parameters can be told from one another: each is well written, and the last
/// is closed.
pub open spec fn all_well_written(ps: Seq<Parameter>) -> bool {
    &&& forall|i: int| 0 <= i < ps.len() ==> well_written(#[trigger] ps[i])
    &&& ps.len() > 0 ==> ps.last().closed
}

/// The text between the tags of a tool call.
pub open spec fn block_text(name: Seq<char>, ps: Seq<Parameter>) -> Seq<char> {
    "\n<function="@ + name + ">\n"@ + parameters_text(ps) + "</function>\n"@
}

/// A value with more lines.
spec fn extended(value: Seq<char>, more: Seq<char>) -> Seq<char> {
    if value.len() == 0 {
        more
    } else {
        value.push('\n') + more
    }
}

/// A line that is closed is not one that opens a parameter.
proof fn lemma_closed_line(line: Seq<char>)
    requires
        !starts_with(line, "<parameter="@),
    ensures
        opened_parameter(line) is None,
        opened_parameter(line + "</parameter>"@) is None,
{
    reveal_strlit("<parameter=");
    reveal_strlit("</parameter>");
    let open = "<parameter="@;
    let closed = line + "</parameter>"@;
    if starts_with(closed, open) {
        assert(closed.subrange(0, 11) == open);
        if line.len() >= 11 {
            assert(line.subrange(0, 11) =~= closed.subrange(0, 11));
        } else {
            assert(closed.subrange(0, 11)[line.len() as int] == '<');
            assert(closed.subrange(0, 11)[line.len() as int + 1] == '/');
            assert(open[line.len() as int] == '<');
            assert(line.len() == 0);
            assert(open[1] == 'p');
        }
    }
}

/// The closing tag of a parameter is a line of its own.
proof fn lemma_close()
    ensures
        !"</parameter>"@.contains('\n'),
        "</parameter>"@.len() == 12,
        is_trimmed("</parameter>"@),
        trim("</parameter>"@) == "</parameter>"@,
        opened_parameter("</parameter>"@) is None,
        "\n</parameter>\n"@ == seq!['\n'] + "</parameter>"@.push('\n'),
        "</parameter>\n"@ == "</parameter>"@.push('\n'),
        "\n"@ == seq!['\n'],
{
    reveal_strlit("</parameter>");
    reveal_strlit("\n</parameter>\n");
    reveal_strlit("</parameter>\n");
    reveal_strlit("\n");
    reveal_strlit("<parameter=");
    let close = "</parameter>"@;
    assert("\n</parameter>\n"@ =~= seq!['\n'] + close.push('\n'));
    assert("</parameter>\n"@ =~= close.push('\n'));
    assert("\n"@ =~= seq!['\n']);
    lemma_no_char(close, '\n');
    lemma_trim_trimmed(close);
    if starts_with(close, "<parameter="@) {
        assert(close.subrange(0, 11)[1] == "<parameter="@[1]);
    }
}

/// The line of the closing tag, in a parameter.
proof fn lemma_close_line(r: Reading, rest: Seq<char>)
    ensures
        after_lines(r, lines("</parameter>"@.push('\n') + rest)) == after_lines(
            Reading { open: false, ..r },
            lines(rest),
        ),
{
    let close = "</parameter>"@;
    lemma_close();
    lemma_lines_first(close, rest);
    assert((seq![close] + lines(rest)).skip(1) =~= lines(rest));
    assert(after_line(r, close) == (Reading { open: false, ..r }));
}

/// A line of an open parameter that is not its last.
proof fn lemma_inner_line(r: Reading, line: Seq<char>, more: Seq<char>)
    requires
        r.open,
        is_trimmed(line),
        !line.contains('\n'),
        !starts_with(line, "<parameter="@),
        !ends_with(line, "</parameter>"@),
    ensures
        after_lines(r, lines(line.push('\n') + more)) == after_lines(
            Reading { value: extended(r.value, line), ..r },
            lines(more),
        ),
{
    lemma_lines_first(line, more);
    lemma_trim_trimmed(line);
    lemma_closed_line(line);
    let close = "</parameter>"@;
    if line == close {
        assert(line.subrange(0, line.len() as int) =~= close);
    }
    assert((seq![line] + lines(more)).skip(1) =~= lines(more));
    assert(after_line(r, line) == (Reading { value: extended(r.value, line), ..r }));
}

/// The last line of an open parameter, with the closing tag behind it.
proof fn lemma_closing_line(r: Reading, line: Seq<char>, rest: Seq<char>)
    requires
        r.open,
        is_trimmed(line),
        !line.contains('\n'),
        !starts_with(line, "<parameter="@),
        line.len() == 0 ==> r.value.len() == 0,
    ensures
        after_lines(r, lines((line + "</parameter>"@).push('\n') + rest)) == after_lines(
            Reading { value: extended(r.value, line), open: false, ..r },
            lines(rest),
        ),
{
    reveal_strlit("</parameter>");
    let close = "</parameter>"@;
    let whole = line + close;
    lemma_close();
    if line.len() == 0 {
        assert(whole =~= close);
        lemma_close_line(r, rest);
        assert(r.value =~= extended(r.value, line));
    } else {
        assert(!whole.contains('\n')) by {
            if whole.contains('\n') {
                let j = whole.index_of('\n');
                if j < line.len() {
                    assert(line[j] == '\n');
                } else {
                    assert(close[j - line.len()] == '\n');
                }
            }
        }
        assert(whole[0] == line[0]);
        assert(whole.last() == close.last());
        assert(is_trimmed(whole));
        lemma_lines_first(whole, rest);
        lemma_trim_trimmed(whole);
        lemma_closed_line(line);
        assert((seq![whole] + lines(rest)).skip(1) =~= lines(rest));
        assert(whole.subrange(whole.len() - 12, whole.len() as int) =~= close);
        assert(before_close(whole) =~= line);
        assert(whole.len() != close.len());
        assert(after_line(r, whole) == (Reading {
            value: extended(r.value, line),
            open: false,
            ..r
        }));
    }
}

/// The lines of a value in an open parameter, up to what is behind it.
proof fn lemma_value_lines(r: Reading, v: Seq<char>, p: Parameter, rest: Seq<char>)
    requires
        r.open,
        lines_stand_alone(v),
        r.value.len() > 0 || v.len() == 0 || v[0] != '\n',
        v.len() == 0 ==> r.value.len() == 0,
        v.len() > 0 ==> !is_space(v.last()),
    ensures
        after_lines(r, lines(v + closing_text(p) + rest)) == after_lines(
            Reading { value: extended(r.value, v), open: !p.closed, ..r },
            lines(rest),
        ),
    decreases v.len(),
{
    let close = "</parameter>"@;
    let text = v + closing_text(p) + rest;
    lemma_close();
    lemma_no_char(v, '\n');
    match find(v, seq!['\n']) {
        None => {
            if p.closed && !p.above {
                assert(text =~= (v + close).push('\n') + rest);
                lemma_closing_line(r, v, rest);
            } else if p.closed {
                let more = close.push('\n') + rest;
                assert(text =~= v.push('\n') + more);
                lemma_inner_line(r, v, more);
                lemma_close_line(Reading { value: extended(r.value, v), ..r }, rest);
            } else {
                assert(text =~= v.push('\n') + rest);
                lemma_inner_line(r, v, rest);
            }
        },
        Some(i) => {
            let a = v.take(i);
            let later = v.skip(i + 1);
            let more = later + closing_text(p) + rest;
            assert(text =~= a.push('\n') + more);
            lemma_inner_line(r, a, more);
            let mid = Reading { value: extended(r.value, a), ..r };
            assert(is_space('\n'));
            assert(i + 1 < v.len());
            assert(mid.value.len() > 0) by {
                if r.value.len() == 0 {
                    assert(i > 0);
                }
            }
            lemma_value_lines(mid, later, p, rest);
            assert(extended(mid.value, later) =~= extended(r.value, v)) by {
                assert(a.push('\n') + later =~= v);
                assert((r.value.push('\n') + a).push('\n') + later =~= r.value.push('\n') + v);
            }
        },
    }
}

/// The line that opens a parameter, with what stands on it behind the tag.
proof fn lemma_opening_line(r: Reading, key: Seq<char>, first: Seq<char>, more: Seq<char>)
    requires
        !key.contains('>'),
        !key.contains('\n'),
        !first.contains('\n'),
        is_trimmed(first),
        !ends_with(first, "</parameter>"@),
    ensures
        after_lines(r, lines("<parameter="@ + key + ">"@ + first + "\n"@ + more)) == after_lines(
            Reading { entries: all_entries(r), current: Some(key), value: first, open: true },
            lines(more),
        ),
{
    reveal_strlit("<parameter=");
    reveal_strlit(">");
    reveal_strlit("\n");
    let head = "<parameter="@ + key + ">"@ + first;
    assert("<parameter="@ + key + ">"@ + first + "\n"@ + more =~= head.push('\n') + more);
    assert(!head.contains('\n')) by {
        if head.contains('\n') {
            let j = head.index_of('\n');
            if 11 <= j < 11 + key.len() {
                assert(key[j - 11] == '\n');
            } else if 12 + key.len() <= j {
                assert(first[j - 12 - key.len()] == '\n');
            }
        }
    }
    assert(is_trimmed(head)) by {
        assert(!is_space('<') && !is_space('>'));
        assert(head[0] == '<');
        if first.len() > 0 {
            assert(head.last() == first.last());
        } else {
            assert(head.last() == '>');
        }
    }
    lemma_lines_first(head, more);
    lemma_trim_trimmed(head);
    lemma_opened(head, key, first);
    assert((seq![head] + lines(more)).skip(1) =~= lines(more));
}

/// A parameter on one line.
proof fn lemma_whole_line(r: Reading, key: Seq<char>, v: Seq<char>, rest: Seq<char>)
    requires
        !key.contains('>'),
        !key.contains('\n'),
        !v.contains('\n'),
    ensures
        after_lines(
            r,
            lines(("<parameter="@ + key + ">"@ + (v + "</parameter>"@)).push('\n') + rest),
        ) == after_lines(
            Reading { entries: all_entries(r), current: Some(key), value: v, open: false },
            lines(rest),
        ),
{
    reveal_strlit("<parameter=");
    reveal_strlit(">");
    reveal_strlit("</parameter>");
    lemma_close();
    let close = "</parameter>"@;
    let tail = v + close;
    let line = "<parameter="@ + key + ">"@ + tail;
    assert(!line.contains('\n')) by {
        if line.contains('\n') {
            let j = line.index_of('\n');
            if 11 <= j < 11 + key.len() {
                assert(key[j - 11] == '\n');
            } else if 12 + key.len() <= j < 12 + key.len() + v.len() {
                assert(v[j - 12 - key.len()] == '\n');
            } else if j >= 12 + key.len() + v.len() {
                assert(close[j - 12 - key.len() - v.len()] == '\n');
            }
        }
    }
    assert(is_trimmed(line)) by {
        assert(!is_space('<') && !is_space('>'));
        assert(line[0] == '<');
        assert(line.last() == close.last());
    }
    lemma_lines_first(line, rest);
    lemma_trim_trimmed(line);
    lemma_opened(line, key, tail);
    assert(tail.subrange(tail.len() - 12, tail.len() as int) =~= close);
    assert(before_close(tail) =~= v);
    assert((seq![line] + lines(rest)).skip(1) =~= lines(rest));
}

/// A parameter in any layout before other lines.
proof fn lemma_parameter_text(r: Reading, p: Parameter, rest: Seq<char>)
    requires
        well_written(p),
    ensures
        after_lines(r, lines(parameter_text(p) + rest)) == after_lines(
            Reading {
                entries: all_entries(r),
                current: Some(p.key),
                value: p.value,
                open: !p.closed,
            },
            lines(rest),
        ),
{
    reveal_strlit("</parameter>");
    reveal_strlit("\n</parameter>\n");
    reveal_strlit("</parameter>\n");
    reveal_strlit("<parameter=");
    reveal_strlit(">");
    reveal_strlit(">\n");
    reveal_strlit("\n");
    let v = p.value;
    let empty = Seq::<char>::empty();
    let close = "</parameter>"@;
    let opened = Reading {
        entries: all_entries(r),
        current: Some(p.key),
        value: empty,
        open: true,
    };
    assert(is_space('\n'));
    lemma_no_char(v, '\n');
    if p.below {
        let more = v + closing_text(p) + rest;
        assert(parameter_text(p) + rest =~= "<parameter="@ + p.key + ">"@ + empty + "\n"@ + more);
        lemma_opening_line(r, p.key, empty, more);
        lemma_value_lines(opened, v, p, rest);
        assert(extended(empty, v) == v);
    } else {
        match find(v, seq!['\n']) {
            None => {
                if p.closed && !p.above {
                    assert(parameter_text(p) + rest =~= ("<parameter="@ + p.key + ">"@ + (v
                        + close)).push('\n') + rest);
                    lemma_whole_line(r, p.key, v, rest);
                } else {
                    let read = Reading { value: v, ..opened };
                    let more = if p.closed {
                        close + "\n"@ + rest
                    } else {
                        rest
                    };
                    assert(parameter_text(p) + rest =~= "<parameter="@ + p.key + ">"@ + v + "\n"@
                        + more);
                    lemma_opening_line(r, p.key, v, more);
                    if p.closed {
                        assert(more =~= close.push('\n') + rest);
                        lemma_close_line(read, rest);
                    }
                }
            },
            Some(i) => {
                let a = v.take(i);
                let later = v.skip(i + 1);
                let more = later + closing_text(p) + rest;
                let read = Reading { value: a, ..opened };
                assert(v.contains('\n'));
                assert(i + 1 < v.len());
                assert(i > 0);
                assert(parameter_text(p) + rest =~= "<parameter="@ + p.key + ">"@ + a + "\n"@
                    + more);
                lemma_opening_line(r, p.key, a, more);
                lemma_value_lines(read, later, p, rest);
                assert(extended(a, later) =~= v);
            },
        }
    }
}

/// Parameters in any layout, before other lines.
proof fn lemma_parameters_before(r: Reading, ps: Seq<Parameter>, rest: Seq<char>) -> (after: Reading)
    requires
        forall|i: int| 0 <= i < ps.len() ==> well_written(#[trigger] ps[i]),
    ensures
        after_lines(r, lines(parameters_text(ps) + rest)) == after_lines(after, lines(rest)),
        all_entries(after) == entries_with(
            all_entries(r),
            ps.map_values(|p: Parameter| (p.key, trim(p.value))),
        ),
        ps.len() == 0 ==> after == r,
        ps.len() > 0 ==> after.open == !ps.last().closed,
    decreases ps.len(),
{
    let f = |p: Parameter| (p.key, trim(p.value));
    if ps.len() == 0 {
        assert(ps.map_values(f) =~= Seq::<(Seq<char>, Seq<char>)>::empty());
        assert(parameters_text(ps) + rest =~= rest);
        r
    } else {
        let later = ps.skip(1);
        let more = parameters_text(later) + rest;
        assert(parameters_text(ps) + rest =~= parameter_text(ps[0]) + more);
        lemma_parameter_text(r, ps[0], more);
        let next = Reading {
            entries: all_entries(r),
            current: Some(ps[0].key),
            value: ps[0].value,
            open: !ps[0].closed,
        };
        assert forall|i: int| 0 <= i < later.len() implies well_written(#[trigger] later[i]) by {
            assert(later[i] == ps[i + 1]);
        }
        let after = lemma_parameters_before(next, later, rest);
        assert(ps.map_values(f).skip(1) =~= later.map_values(f));
        if later.len() > 0 {
            assert(later.last() == ps.last());
        }
        after
    }
}

/// A line that is neither in a parameter nor opens one is ignored.
proof fn lemma_ignored_line(r: Reading, line: Seq<char>, rest: Seq<char>)
    requires
        !r.open,
        is_trimmed(line),
        !line.contains('\n'),
        !starts_with(line, "<parameter="@),
    ensures
        after_lines(r, lines(line.push('\n') + rest)) == after_lines(r, lines(rest)),
{
    lemma_lines_first(line, rest);
    lemma_trim_trimmed(line);
    assert((seq![line] + lines(rest)).skip(1) =~= lines(rest));
    assert(after_line(r, line) == r);
}

/// Parameters in any layout, up to the end of the call.
proof fn lemma_parameters_text(r: Reading, ps: Seq<Parameter>)
    requires
        !r.open,
        all_well_written(ps),
    ensures
        all_entries(after_lines(r, lines(parameters_text(ps) + "</function>"@))) == entries_with(
            all_entries(r),
            ps.map_values(|p: Parameter| (p.key, trim(p.value))),
        ),
{
    let none = Seq::<(Seq<char>, Seq<char>)>::empty();
    let after = lemma_parameters_before(r, ps, "</function>"@);
    assert(written_parameters(none) + "</function>"@ =~= "</function>"@);
    lemma_parameters(after, none);
}

/// A tool call is read as what it says: the function that it names, with each
/// parameter under its key and with its value, both trimmed, whether the value stands on the
/// line of its tags or on lines of its own, and whether the parameter is closed
/// or the next begins before it is; calls that come after it are read after it.
pub proof fn law_call_is_read(
    before: Seq<char>,
    name: Seq<char>,
    ps: Seq<Parameter>,
    after: Seq<char>,
)
    requires
        !contains(before, "<tool_call>"@),
        !name.contains('\n'),
        all_well_written(ps),
        forall|i: int, j: int|
            0 <= i < j < ps.len() ==> text_before((#[trigger] ps[i]).key, (#[trigger] ps[j]).key),
        !contains(block_text(name, ps), "</tool_call>"@),
    ensures
        ({
            let text = before + "<tool_call>"@ + block_text(name, ps) + "</tool_call>"@ + after;
            let calls = calls_in(text);
            &&& calls.len() == 1 + calls_in(after).len()
            &&& calls[0].name == trim(name)
            &&& calls[0].entries.len() == ps.len()
            &&& forall|i: int|
                0 <= i < ps.len() ==> (#[trigger] calls[0].entries[i]) == (
                    ps[i].key,
                    Json::Text(trim(ps[i].value)),
                )
            &&& calls.skip(1) == calls_in(after)
        }),
{
    let block = block_text(name, ps);
    let text = before + "<tool_call>"@ + block + "</tool_call>"@ + after;
    lemma_first_block(before, block, after);
    assert(calls_in(text) =~= seq![call_in(block)] + calls_in(after));
    lemma_block_text(name, ps);
    assert(calls_in(text).skip(1) =~= calls_in(after));
}

proof fn lemma_first_block(before: Seq<char>, block: Seq<char>, after: Seq<char>)
    requires
        !contains(before, "<tool_call>"@),
        !contains(block, "</tool_call>"@),
    ensures
        tool_blocks(before + "<tool_call>"@ + block + "</tool_call>"@ + after) == seq![block]
            + tool_blocks(after),
{
    reveal_strlit("<tool_call>");
    reveal_strlit("</tool_call>");
    let open = "<tool_call>"@;
    let close = "</tool_call>"@;
    let rest = block + close + after;
    let text = before + open + block + close + after;
    assert(text =~= before + open + rest);
    lemma_find_after(before, open, rest);
    assert(text.skip(before.len() as int + open.len()) =~= rest);
    lemma_find_after(block, close, after);
    assert(rest.take(block.len() as int) =~= block);
    assert(rest.skip(block.len() as int + close.len()) =~= after);
}

/// The text between the tags is read as the call.
proof fn lemma_block_frame(name: Seq<char>, middle: Seq<char>)
    requires
        !name.contains('\n'),
    ensures
        call_in("\n<function="@ + name + ">\n"@ + middle + "</function>\n"@) == (ReadCall {
            name: trim(name),
            entries: all_entries(after_lines(nothing_read(), lines(middle + "</function>"@))),
        }),
{
    reveal_strlit("\n<function=");
    reveal_strlit("<function=");
    reveal_strlit(">\n");
    reveal_strlit("</function>\n");
    reveal_strlit("</function>");
    reveal_strlit("<parameter=");
    reveal_strlit("</parameter>");
    let body = "\n<function="@ + name + ">\n"@ + middle + "</function>\n"@;
    let first = "<function="@ + name + seq!['>'];
    let more = middle + "</function>"@;
    let inner = first.push('\n') + more;
    assert(body =~= seq!['\n'] + inner + seq!['\n']);
    assert(trim(body) == inner) by {
        assert(is_space('\n'));
        assert(!is_space('<') && !is_space('>'));
        assert(inner[0] == '<');
        assert(inner.last() == '>');
        crate::text::lemma_trim_is(seq!['\n'], inner, seq!['\n']);
    }
    assert(!first.contains('\n')) by {
        if first.contains('\n') {
            let j = choose|j: int| 0 <= j < first.len() && first[j] == '\n';
            if 10 <= j < 10 + name.len() {
                assert(name[j - 10] == '\n');
            }
        }
    }
    assert(is_trimmed(first));
    lemma_lines_first(first, more);
    lemma_trim_trimmed(first);
    assert(name_in(first) == trim(name)) by {
        assert(first.subrange(0, 10) =~= "<function="@);
        let rest = first.skip(10);
        assert(rest =~= name.push('>'));
        assert(rest.drop_last() =~= name);
    }
    let start = nothing_read();
    assert(after_line(start, first) == start) by {
        assert(first[1] == 'f');
        if starts_with(first, "<parameter="@) {
            assert(first.subrange(0, 11)[1] == "<parameter="@[1]);
        }
        assert(first != "</parameter>"@);
    }
    assert((seq![first] + lines(more)).skip(1) =~= lines(more));
}

proof fn lemma_block_read(name: Seq<char>, ps: Seq<Parameter>)
    requires
        !name.contains('\n'),
        all_well_written(ps),
    ensures
        call_in(block_text(name, ps)) == (ReadCall {
            name: trim(name),
            entries: entries_with(
                Seq::empty(),
                ps.map_values(|p: Parameter| (p.key, trim(p.value))),
            ),
        }),
{
    lemma_block_frame(name, parameters_text(ps));
    lemma_parameters_text(nothing_read(), ps);
}

/// The call of a block whose keys ascend.
proof fn lemma_block_text(name: Seq<char>, ps: Seq<Parameter>)
    requires
        !name.contains('\n'),
        all_well_written(ps),
        forall|i: int, j: int|
            0 <= i < j < ps.len() ==> text_before((#[trigger] ps[i]).key, (#[trigger] ps[j]).key),
    ensures
        call_in(block_text(name, ps)) == (ReadCall {
            name: trim(name),
            entries: ps.map_values(|p: Parameter| (p.key, Json::Text(trim(p.value)))),
        }),
{
    lemma_block_read(name, ps);
    let entries = ps.map_values(|p: Parameter| (p.key, Json::Text(trim(p.value))));
    assert forall|i: int, j: int| 0 <= i < j < entries.len() implies text_before(
        #[trigger] entries[i].0,
        #[trigger] entries[j].0,
    ) by {
        assert(text_before(ps[i].key, ps[j].key));
    }
    lemma_entries_in_order(entries, 0);
    assert(entries.take(0) =~= Seq::<(Seq<char>, Json)>::empty());
    assert(entries.skip(0) =~= entries);
    assert(raw_members(entries) =~= ps.map_values(|p: Parameter| (p.key, trim(p.value))));
}

proof fn lemma_entry_given(entries: Seq<(Seq<char>, Json)>, key: Seq<char>, value: Json)
    ensures
        with_entry(entries, key, value).contains((key, value)),
        forall|e: (Seq<char>, Json)| #[trigger]
            entries.contains(e) && e.0 != key ==> with_entry(entries, key, value).contains(e),
        forall|e: (Seq<char>, Json)| #[trigger]
            with_entry(entries, key, value).contains(e) ==> e == (key, value) || entries.contains(e),
    decreases entries.len(),
{
    let after = with_entry(entries, key, value);
    if entries.len() == 0 {
        assert(after[0] == (key, value));
    } else {
        let less = entries.drop_last();
        let last = entries.last();
        lemma_entry_given(less, key, value);
        assert forall|e: (Seq<char>, Json)| #[trigger]
            entries.contains(e) && e != last implies less.contains(e) by {
            let i = entries.index_of(e);
            assert(less[i] == e);
        }
        assert forall|e: (Seq<char>, Json)| #[trigger] less.contains(e) implies entries.contains(
            e,
        ) by {
            let i = less.index_of(e);
            assert(entries[i] == e);
        }
        assert(entries[entries.len() - 1] == last);
        if last.0 == key {
            assert(after.last() == (key, value));
            assert forall|e: (Seq<char>, Json)| #[trigger] entries.contains(e) && e.0
                != key implies after.contains(e) by {
                let i = less.index_of(e);
                assert(after[i] == e);
            }
            assert forall|e: (Seq<char>, Json)| #[trigger] after.contains(e) implies e == (
                key,
                value,
            ) || entries.contains(e) by {
                let i = after.index_of(e);
                if i < less.len() {
                    assert(entries[i] == e);
                }
            }
        } else if text_before(last.0, key) {
            assert(after.last() == (key, value));
            assert forall|e: (Seq<char>, Json)| #[trigger] entries.contains(e) && e.0
                != key implies after.contains(e) by {
                let i = entries.index_of(e);
                assert(after[i] == e);
            }
            assert forall|e: (Seq<char>, Json)| #[trigger] after.contains(e) implies e == (
                key,
                value,
            ) || entries.contains(e) by {
                let i = after.index_of(e);
                if i < entries.len() {
                    assert(entries[i] == e);
                }
            }
        } else {
            let inner = with_entry(less, key, value);
            assert(after == inner.push(last));
            assert(after.last() == last);
            assert forall|e: (Seq<char>, Json)| #[trigger] inner.contains(e) implies after.contains(
                e,
            ) by {
                let i = inner.index_of(e);
                assert(after[i] == e);
            }
            assert forall|e: (Seq<char>, Json)| #[trigger] entries.contains(e) && e.0
                != key implies after.contains(e) by {
                if e != last {
                    assert(less.contains(e));
                    assert(inner.contains(e));
                }
            }
            assert forall|e: (Seq<char>, Json)| #[trigger] after.contains(e) implies e == (
                key,
                value,
            ) || entries.contains(e) by {
                let i = after.index_of(e);
                if i < inner.len() {
                    assert(inner[i] == e);
                    assert(inner.contains(e));
                }
            }
        }
    }
}

proof fn lemma_last_counts(
    entries: Seq<(Seq<char>, Json)>,
    members: Seq<(Seq<char>, Seq<char>)>,
    e: (Seq<char>, Json),
)
    ensures
        entries.contains(e) && (forall|j: int|
            0 <= j < members.len() ==> (#[trigger] members[j]).0 != e.0) ==> entries_with(
            entries,
            members,
        ).contains(e),
        forall|i: int|
            0 <= i < members.len() && e.0 == (#[trigger] members[i]).0 && e.1 == Json::Text(
                members[i].1,
            ) && (forall|j: int| i < j < members.len() ==> (#[trigger] members[j]).0 != e.0)
                ==> entries_with(entries, members).contains(e),
        entries_with(entries, members).contains(e) ==> entries.contains(e) || exists|i: int|
            0 <= i < members.len() && e.0 == (#[trigger] members[i]).0 && e.1 == Json::Text(
                members[i].1,
            ),
    decreases members.len(),
{
    if members.len() > 0 {
        let first = (members[0].0, Json::Text(members[0].1));
        let rest = members.skip(1);
        let next = with_entry(entries, first.0, first.1);
        lemma_entry_given(entries, first.0, first.1);
        lemma_last_counts(next, rest, e);
        assert(forall|j: int| 0 <= j < rest.len() ==> (#[trigger] rest[j]) == members[j + 1]);
        if entries.contains(e) && (forall|j: int|
            0 <= j < members.len() ==> (#[trigger] members[j]).0 != e.0) {
            assert(members[0].0 != e.0);
            assert(next.contains(e));
        }
        assert forall|i: int|
            0 <= i < members.len() && e.0 == (#[trigger] members[i]).0 && e.1 == Json::Text(
                members[i].1,
            ) && (forall|j: int|
                i < j < members.len() ==> (#[trigger] members[j]).0
                    != e.0) implies entries_with(entries, members).contains(e) by {
            if i == 0 {
                assert(e == first);
                assert(next.contains(e));
                assert forall|j: int| 0 <= j < rest.len() implies (#[trigger] rest[j]).0 != e.0 by {
                    assert(rest[j] == members[j + 1]);
                }
            } else {
                assert(rest[i - 1] == members[i]);
                assert forall|j: int| i - 1 < j < rest.len() implies (#[trigger] rest[j]).0
                    != e.0 by {
                    assert(rest[j] == members[j + 1]);
                }
            }
        }
        if entries_with(entries, members).contains(e) && !entries.contains(e) {
            if next.contains(e) {
                assert(members[0].0 == e.0);
            } else {
                let i = choose|i: int|
                    0 <= i < rest.len() && e.0 == (#[trigger] rest[i]).0 && e.1 == Json::Text(
                        rest[i].1,
                    );
                assert(members[i + 1].0 == e.0);
            }
        }
    }
}

/// Whatever the order of its parameters, a call has each argument that is not
/// given again under the same key later, and no argument that is not given.
pub proof fn law_last_value_of_a_key_counts(name: Seq<char>, ps: Seq<Parameter>, e: (Seq<char>, Json))
    requires
        !name.contains('\n'),
        all_well_written(ps),
        !contains(block_text(name, ps), "</tool_call>"@),
    ensures
        ({
            let calls = calls_in("<tool_call>"@ + block_text(name, ps) + "</tool_call>"@);
            &&& calls.len() == 1
            &&& calls[0].name == trim(name)
            &&& calls[0].entries.contains(e) ==> exists|i: int|
                0 <= i < ps.len() && e == (
                    (#[trigger] ps[i]).key,
                    Json::Text(trim(ps[i].value)),
                )
            &&& forall|i: int|
                0 <= i < ps.len() && e == ((#[trigger] ps[i]).key, Json::Text(trim(ps[i].value))) && (
                forall|j: int| i < j < ps.len() ==> (#[trigger] ps[j]).key != ps[i].key)
                    ==> calls[0].entries.contains(e)
        }),
{
    reveal_strlit("<tool_call>");
    let empty = Seq::<char>::empty();
    let block = block_text(name, ps);
    let text = "<tool_call>"@ + block + "</tool_call>"@;
    let members = ps.map_values(|p: Parameter| (p.key, trim(p.value)));
    assert(empty + "<tool_call>"@ + block + "</tool_call>"@ + empty =~= text);
    lemma_no_call_in_nothing();
    lemma_first_block(empty, block, empty);
    assert(tool_blocks(empty) =~= Seq::<Seq<char>>::empty());
    assert(tool_blocks(text) =~= seq![block]);
    assert(calls_in(text) =~= seq![call_in(block)]);
    lemma_block_read(name, ps);
    lemma_last_counts(Seq::empty(), members, e);
    let entries = call_in(block).entries;
    if entries.contains(e) {
        let i = choose|i: int|
            0 <= i < members.len() && e.0 == (#[trigger] members[i]).0 && e.1 == Json::Text(
                members[i].1,
            );
        assert(e == (ps[i].key, Json::Text(trim(ps[i].value))));
    }
    assert forall|i: int|
        0 <= i < ps.len() && e == ((#[trigger] ps[i]).key, Json::Text(trim(ps[i].value))) && (forall|j: int|
            i < j < ps.len() ==> (#[trigger] ps[j]).key
                != ps[i].key) implies entries.contains(e) by {
        assert(members[i] == (ps[i].key, trim(ps[i].value)));
        assert forall|j: int| i < j < members.len() implies (#[trigger] members[j]).0 != e.0 by {
            assert(members[j].0 == ps[j].key);
        }
    }
}

pub proof fn lemma_no_call_in_nothing()
    ensures
        !contains(Seq::<char>::empty(), "<tool_call>"@),
        find(Seq::<char>::empty(), "<tool_call>"@) is None,
{
    reveal_strlit("<tool_call>");
    let empty = Seq::<char>::empty();
    if contains(empty, "<tool_call>"@) {
        let j = choose|j: int| occurs_at(empty, "<tool_call>"@, j);
    }
    lemma_find(empty, "<tool_call>"@);
}

/// A text without a complete call holds no call.
pub proof fn law_no_call_without_both_tags(before: Seq<char>, after: Seq<char>)
    requires
        !contains(before, "<tool_call>"@),
        !contains(after, "</tool_call>"@),
    ensures
        calls_in(before).len() == 0,
        calls_in(before + "<tool_call>"@ + after).len() == 0,
{
    reveal_strlit("<tool_call>");
    lemma_find(before, "<tool_call>"@);
    let text = before + "<tool_call>"@ + after;
    lemma_find_after(before, "<tool_call>"@, after);
    assert(text.skip(before.len() as int + 11) =~= after);
    lemma_find(after, "</tool_call>"@);
}

/// White space around a line does not matter: two blocks whose lines are the
/// same once they are trimmed hold the same call.
pub proof fn law_indentation_is_ignored(a: Seq<char>, b: Seq<char>)
    requires
        lines(trim(a)).len() == lines(trim(b)).len(),
        forall|i: int|
            0 <= i < lines(trim(a)).len() ==> trim(#[trigger] lines(trim(a))[i]) == trim(
                lines(trim(b))[i],
            ),
    ensures
        call_in(a) == call_in(b),
{
    lemma_same_lines(nothing_read(), lines(trim(a)), lines(trim(b)));
    if lines(trim(a)).len() > 0 {
        assert(trim(lines(trim(a))[0]) == trim(lines(trim(b))[0]));
    }
}

proof fn lemma_same_lines(r: Reading, a: Seq<Seq<char>>, b: Seq<Seq<char>>)
    requires
        a.len() == b.len(),
        forall|i: int| 0 <= i < a.len() ==> trim(#[trigger] a[i]) == trim(b[i]),
    ensures
        after_lines(r, a) == after_lines(r, b),
    decreases a.len(),
{
    if a.len() > 0 {
        assert(trim(a[0]) == trim(b[0]));
        assert(after_line(r, a[0]) == after_line(r, b[0]));
        assert forall|i: int| 0 <= i < a.skip(1).len() implies trim(#[trigger] a.skip(1)[i])
            == trim(b.skip(1)[i]) by {
            assert(a.skip(1)[i] == a[i + 1]);
            assert(trim(a[i + 1]) == trim(b[i + 1]));
        }
        lemma_same_lines(after_line(r, a[0]), a.skip(1), b.skip(1));
    }
}

/// A line between parameters that is none of them, or a line in place of them,
/// is no part of any.
pub proof fn law_other_lines_are_ignored(
    name: Seq<char>,
    ps: Seq<Parameter>,
    line: Seq<char>,
    qs: Seq<Parameter>,
)
    requires
        !name.contains('\n'),
        all_well_written(ps),
        all_well_written(qs),
        is_trimmed(line),
        !line.contains('\n'),
        !starts_with(line, "<parameter="@),
    ensures
        ({
            let block = "\n<function="@ + name + ">\n"@ + parameters_text(ps) + line.push('\n')
                + parameters_text(qs) + "</function>\n"@;
            call_in(block) == call_in(block_text(name, ps + qs))
        }),
{
    let members = |p: Parameter| (p.key, trim(p.value));
    let end = "</function>"@;
    let middle = parameters_text(ps) + line.push('\n') + parameters_text(qs);
    let block = "\n<function="@ + name + ">\n"@ + parameters_text(ps) + line.push('\n')
        + parameters_text(qs) + "</function>\n"@;
    assert(block =~= "\n<function="@ + name + ">\n"@ + middle + "</function>\n"@);
    lemma_block_frame(name, middle);
    let start = nothing_read();
    let rest = parameters_text(qs) + end;
    let after = lemma_parameters_before(start, ps, line.push('\n') + rest);
    assert(middle + end =~= parameters_text(ps) + (line.push('\n') + rest));
    lemma_ignored_line(after, line, rest);
    lemma_parameters_text(after, qs);
    let all = ps + qs;
    assert(all_well_written(all)) by {
        assert forall|i: int| 0 <= i < all.len() implies well_written(#[trigger] all[i]) by {
            if i < ps.len() {
                assert(all[i] == ps[i]);
            } else {
                assert(all[i] == qs[i - ps.len()]);
            }
        }
        if qs.len() > 0 {
            assert(all.last() == qs.last());
        } else if ps.len() > 0 {
            assert(all.last() == ps.last());
        }
    }
    lemma_block_read(name, all);
    assert(all.map_values(members) =~= ps.map_values(members) + qs.map_values(members));
    lemma_entries_with_add(Seq::empty(), ps.map_values(members), qs.map_values(members));
}

proof fn lemma_entries_with_add(
    entries: Seq<(Seq<char>, Json)>,
    a: Seq<(Seq<char>, Seq<char>)>,
    b: Seq<(Seq<char>, Seq<char>)>,
)
    ensures
        entries_with(entries, a + b) == entries_with(entries_with(entries, a), b),
    decreases a.len(),
{
    if a.len() == 0 {
        assert(a + b =~= b);
    } else {
        assert((a + b).skip(1) =~= a.skip(1) + b);
        lemma_entries_with_add(
            with_entry(entries, a[0].0, Json::Text(a[0].1)),
            a.skip(1),
            b,
        );
    }
}

/// A call that does not name its function on its first line has no name.
pub proof fn law_call_without_function_has_no_name(line: Seq<char>, rest: Seq<char>)
    requires
        line.len() > 0,
        is_trimmed(line),
        !line.contains('\n'),
        !starts_with(line, "<function="@) || line.last() != '>',
        rest.len() > 0 && !is_space(rest.last()),
    ensures
        call_in(line.push('\n') + rest).name.len() == 0,
{
    reveal_strlit("<function=");
    let block = line.push('\n') + rest;
    assert(block[0] == line[0]);
    assert(block.last() == rest.last());
    assert(is_trimmed(block));
    lemma_trim_trimmed(block);
    lemma_lines_first(line, rest);
    lemma_trim_trimmed(line);
    assert(lines(block)[0] == line);
    if starts_with(line, "<function="@) {
        let after = line.skip(10);
        if after.len() > 0 {
            assert(after.last() == line.last());
        }
    }
}

} // verus!
