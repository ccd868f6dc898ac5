//! What becomes of the tags in a generated text.

use vstd::prelude::*;

use super::cleaning::{
    reasoning_and_answer, without_leading_think, without_think_tags, without_turn_tokens,
};
use super::round_trip::lemma_find_after;
use super::tool_calls::answer_beside_calls;
use crate::text::{
    contains, find, is_space, is_trimmed, lemma_find, lemma_find_from_is, lemma_trim,
    lemma_trim_end_cuts_space, lemma_trim_ignores_space, lemma_trim_is,
    lemma_trim_start_cuts_space, lemma_trim_trimmed, occurs_at, remove_all, starts_with, trim,
    trim_end, trim_start, trim_start_matches,
};

verus! {

/// The text holds none of the tokens that frame a turn.
pub open spec fn without_tokens(text: Seq<char>) -> bool {
    !contains(text, "<|im_end|>"@) && !contains(text, "<|im_start|>"@)
}

/// The text holds no tag of thinking.
pub open spec fn without_thinking(text: Seq<char>) -> bool {
    !contains(text, "<think>"@) && !contains(text, "</think>"@)
}

// ---------------------------------------------------------------------------
// Parts of texts
// ---------------------------------------------------------------------------

proof fn lemma_part(s: Seq<char>, i: int, j: int, p: Seq<char>)
    requires
        0 <= i <= j <= s.len(),
        !contains(s, p),
    ensures
        !contains(s.subrange(i, j), p),
{
    let t = s.subrange(i, j);
    if contains(t, p) {
        let k = choose|k: int| occurs_at(t, p, k);
        assert(t.subrange(k, k + p.len()) =~= s.subrange(i + k, i + k + p.len()));
        assert(occurs_at(s, p, i + k));
    }
}

pub proof fn lemma_absent(s: Seq<char>, p: Seq<char>)
    requires
        !contains(s, p),
    ensures
        remove_all(s, p) == s,
        find(s, p) is None,
{
    lemma_find(s, p);
}

pub proof fn lemma_removed(a: Seq<char>, p: Seq<char>, b: Seq<char>)
    requires
        p.len() > 0,
        forall|j: int| 0 < j < p.len() ==> #[trigger] p[j] != p[0],
        !contains(a, p),
    ensures
        remove_all(a + p + b, p) == a + remove_all(b, p),
{
    lemma_find_after(a, p, b);
    assert((a + p + b).take(a.len() as int) =~= a);
    assert((a + p + b).skip(a.len() as int + p.len()) =~= b);
}

proof fn lemma_trim_part(s: Seq<char>, p: Seq<char>)
    requires
        !contains(s, p),
    ensures
        !contains(trim(s), p),
        trim(trim(s)) == trim(s),
{
    lemma_trim(s);
    lemma_trim_trimmed(trim(s));
    let (i, j) = choose|i: int, j: int| 0 <= i <= j <= s.len() && trim(s) == s.subrange(i, j);
    lemma_part(s, i, j, p);
}

/// Trimming a text around something that is no white space trims its start and
/// its end.
proof fn lemma_trim_around(a: Seq<char>, m: Seq<char>, c: Seq<char>)
    requires
        m.len() > 0,
        !is_space(m[0]),
        !is_space(m.last()),
    ensures
        trim(a + m + c) == trim_start(a) + m + trim_end(c),
        trim(trim_start(a)) == trim(a),
        trim(trim_end(c)) == trim(c),
        trim(trim_start(a) + trim_end(c)) == trim(a + c),
{
    let a1 = trim_start(a);
    let c1 = trim_end(c);
    lemma_trim_start_cuts_space(a);
    lemma_trim_end_cuts_space(c);
    let w1 = a.take(a.len() - a1.len());
    let w2 = c.skip(c1.len() as int);
    let t = a1 + m + c1;
    assert(a + m + c =~= w1 + t + w2);
    assert(is_trimmed(t)) by {
        if a1.len() > 0 {
            assert(t[0] == a1[0]);
        } else {
            assert(t[0] == m[0]);
        }
        if c1.len() > 0 {
            assert(t.last() == c1.last());
        } else {
            assert(t.last() == m.last());
        }
    }
    lemma_trim_is(w1, t, w2);
    let empty = Seq::<char>::empty();
    assert(w1 + a1 + empty =~= a);
    lemma_trim_ignores_space(w1, a1, empty);
    assert(empty + c1 + w2 =~= c);
    lemma_trim_ignores_space(empty, c1, w2);
    assert(a + c =~= w1 + (a1 + c1) + w2);
    lemma_trim_ignores_space(w1, a1 + c1, w2);
}

/// The start of a text, and the end of one, hold no more than the text.
proof fn lemma_ends_hold_less(s: Seq<char>, p: Seq<char>)
    requires
        !contains(s, p),
    ensures
        !contains(trim_start(s), p),
        !contains(trim_end(s), p),
{
    lemma_trim_start_cuts_space(s);
    lemma_trim_end_cuts_space(s);
    let a = trim_start(s);
    let c = trim_end(s);
    assert(a =~= s.subrange(s.len() - a.len(), s.len() as int));
    assert(c =~= s.subrange(0, c.len() as int));
    lemma_part(s, s.len() - a.len(), s.len() as int, p);
    lemma_part(s, 0, c.len() as int, p);
}

// ---------------------------------------------------------------------------
// Reasoning and answer
// ---------------------------------------------------------------------------

proof fn lemma_no_tokens(text: Seq<char>)
    requires
        without_tokens(text),
    ensures
        without_turn_tokens(text) == trim(text),
{
    reveal_strlit("<|im_end|>");
    reveal_strlit("<|im_start|>");
    lemma_absent(text, "<|im_end|>"@);
    lemma_absent(text, "<|im_start|>"@);
}

proof fn lemma_separates(a: Seq<char>, c: Seq<char>)
    requires
        without_tokens(a + "</think>"@ + c),
        !contains(a, "</think>"@),
    ensures
        find(trim(a + "</think>"@ + c), "</think>"@) == Some(trim_start(a).len() as int),
        reasoning_and_answer(a + "</think>"@ + c).0 == without_leading_think(trim(a)),
        reasoning_and_answer(a + "</think>"@ + c).1 == without_think_tags(
            trim(c),
        ),
{
    reveal_strlit("</think>");
    let tag = "</think>"@;
    assert(!is_space('<') && !is_space('>'));
    lemma_no_tokens(a + tag + c);
    lemma_trim_around(a, tag, c);
    let a1 = trim_start(a);
    let c1 = trim_end(c);
    lemma_ends_hold_less(a, tag);
    lemma_find_after(a1, tag, c1);
    let t = a1 + tag + c1;
    assert(t.take(a1.len() as int) =~= a1);
    assert(t.skip(a1.len() as int + tag.len()) =~= c1);
}

proof fn lemma_untagged(c: Seq<char>)
    requires
        without_thinking(c),
    ensures
        without_think_tags(trim(c)) == trim(c),
{
    reveal_strlit("<think>");
    reveal_strlit("</think>");
    lemma_trim_part(c, "<think>"@);
    lemma_trim_part(c, "</think>"@);
    lemma_absent(trim(c), "<think>"@);
    lemma_absent(trim(c), "</think>"@);
}

/// What stands before the first `</think>` is the reasoning, and what stands
/// after it is the answer; both come out trimmed and otherwise unchanged.
pub proof fn law_closing_tag_separates(thinking: Seq<char>, answer: Seq<char>)
    requires
        without_tokens(thinking + "</think>"@ + answer),
        !contains(thinking, "</think>"@),
        !starts_with(trim(thinking), "<think>"@),
        without_thinking(answer),
    ensures
        reasoning_and_answer(thinking + "</think>"@ + answer) == (trim(thinking), trim(answer)),
{
    lemma_separates(thinking, answer);
    lemma_untagged(answer);
    lemma_trim(thinking);
    lemma_trim_trimmed(trim(thinking));
}

proof fn lemma_opened(b: Seq<char>)
    requires
        !starts_with(b, "<think>"@),
    ensures
        trim("<think>"@ + b) == "<think>"@ + trim_end(b),
        without_leading_think(trim("<think>"@ + b)) == trim(b),
{
    reveal_strlit("<think>");
    let tag = "<think>"@;
    let empty = Seq::<char>::empty();
    assert(!is_space('<') && !is_space('>'));
    lemma_trim_around(empty, tag, b);
    assert(empty + tag + b =~= tag + b);
    assert(trim_start(empty) =~= empty);
    let b1 = trim_end(b);
    assert(empty + tag + b1 =~= tag + b1);
    lemma_trim_end_cuts_space(b);
    assert(!starts_with(b1, tag)) by {
        if starts_with(b1, tag) {
            assert(b.subrange(0, 7) =~= b1.subrange(0, 7));
        }
    }
    assert((tag + b1).subrange(0, 7) =~= tag);
    assert((tag + b1).skip(7) =~= b1);
    assert(trim_start_matches(b1, tag) == b1);
    assert(trim_start_matches(tag + b1, tag) == b1);
}

/// A `<think>` that opens the reasoning is no part of it.
pub proof fn law_opening_tag_is_dropped(thinking: Seq<char>, answer: Seq<char>)
    requires
        without_tokens("<think>"@ + thinking + "</think>"@ + answer),
        !contains("<think>"@ + thinking, "</think>"@),
        !starts_with(thinking, "<think>"@),
        without_thinking(answer),
    ensures
        reasoning_and_answer("<think>"@ + thinking + "</think>"@ + answer) == (
            trim(thinking),
            trim(answer),
        ),
{
    lemma_separates("<think>"@ + thinking, answer);
    lemma_untagged(answer);
    lemma_opened(thinking);
}

/// A model that opens its thinking and never closes it has answered nothing:
/// all of its text is reasoning.
pub proof fn law_unclosed_thinking_is_reasoning(thinking: Seq<char>)
    requires
        without_tokens("<think>"@ + thinking),
        !contains("<think>"@ + thinking, "</think>"@),
        !starts_with(thinking, "<think>"@),
    ensures
        reasoning_and_answer("<think>"@ + thinking) == (trim(thinking), Seq::<char>::empty()),
{
    reveal_strlit("<think>");
    let text = "<think>"@ + thinking;
    lemma_no_tokens(text);
    lemma_opened(thinking);
    lemma_trim_part(text, "</think>"@);
    lemma_absent(trim(text), "</think>"@);
    assert(trim(text).subrange(0, 7) =~= "<think>"@);
    assert(occurs_at(trim(text), "<think>"@, 0));
}

/// A text without tags is all answer.
pub proof fn law_untagged_text_is_answer(text: Seq<char>)
    requires
        without_tokens(text),
        without_thinking(text),
    ensures
        reasoning_and_answer(text) == (Seq::<char>::empty(), trim(text)),
{
    lemma_no_tokens(text);
    lemma_untagged(text);
    lemma_trim_part(text, "<think>"@);
    lemma_trim_part(text, "</think>"@);
    lemma_absent(trim(text), "</think>"@);
}

/// Tags of thinking within an answer are no part of it; what stands around
/// them stays.
pub proof fn law_stray_tags_are_dropped(
    thinking: Seq<char>,
    before: Seq<char>,
    tag: Seq<char>,
    after: Seq<char>,
)
    requires
        without_tokens(thinking + "</think>"@ + (before + tag + after)),
        !contains(thinking, "</think>"@),
        tag == "<think>"@ || tag == "</think>"@,
        without_thinking(before),
        without_thinking(after),
        without_thinking(before + after),
        tag == "</think>"@ ==> !contains(before + tag + after, "<think>"@),
    ensures
        reasoning_and_answer(thinking + "</think>"@ + (before + tag + after)).1 == trim(
            before + after,
        ),
{
    reveal_strlit("<think>");
    reveal_strlit("</think>");
    assert(!is_space('<') && !is_space('>'));
    let answer = before + tag + after;
    lemma_separates(thinking, answer);
    lemma_trim_around(before, tag, after);
    let a = trim_start(before);
    let b = trim_end(after);
    lemma_ends_hold_less(before, "<think>"@);
    lemma_ends_hold_less(before, "</think>"@);
    lemma_ends_hold_less(after, "<think>"@);
    lemma_ends_hold_less(after, "</think>"@);
    lemma_trim_start_cuts_space(before);
    lemma_trim_end_cuts_space(after);
    let whole = before + after;
    let i: int = before.len() - a.len();
    let j: int = before.len() + b.len() as int;
    assert(a + b =~= whole.subrange(i, j));
    lemma_part(whole, i, j, "<think>"@);
    lemma_part(whole, i, j, "</think>"@);
    lemma_removed(a, tag, b);
    lemma_absent(b, tag);
    lemma_absent(a + b, "</think>"@);
    if tag == "</think>"@ {
        assert(a + tag + b =~= answer.subrange(i, answer.len() - (after.len() - b.len())));
        lemma_part(answer, i, answer.len() - (after.len() - b.len()), "<think>"@);
        lemma_absent(a + tag + b, "<think>"@);
    }
}

/// The token that ends a turn, at the end of a text, and the token that begins
/// one, at its start, change nothing.
pub proof fn law_turn_tokens_are_dropped(text: Seq<char>)
    ensures
        !contains(text, "<|im_end|>"@) ==> reasoning_and_answer(text + "<|im_end|>"@)
            == reasoning_and_answer(text),
        reasoning_and_answer("<|im_start|>"@ + text) == reasoning_and_answer(text),
{
    reveal_strlit("<|im_end|>");
    reveal_strlit("<|im_start|>");
    let end = "<|im_end|>"@;
    let start = "<|im_start|>"@;
    let empty = Seq::<char>::empty();
    if !contains(text, end) {
        assert(text + end =~= text + end + empty);
        lemma_removed(text, end, empty);
        lemma_find(empty, end);
        assert(remove_all(empty, end) =~= empty);
        assert(text + empty =~= text);
        lemma_absent(text, end);
    }
    let less = remove_all(text, end);
    assert(remove_all(start + text, end) == start + less) by {
        lemma_passes(start, text, end);
    }
    assert(!contains(empty, start)) by {
        if contains(empty, start) {
            let j = choose|j: int| occurs_at(empty, start, j);
        }
    }
    lemma_removed(empty, start, less);
    assert(empty + start + less =~= start + less);
    assert(empty + remove_all(less, start) =~= remove_all(less, start));
}

/// What is removed from a text is removed from it behind something in which no
/// occurrence begins.
proof fn lemma_passes(head: Seq<char>, text: Seq<char>, p: Seq<char>)
    requires
        head == "<|im_start|>"@,
        p == "<|im_end|>"@,
    ensures
        remove_all(head + text, p) == head + remove_all(text, p),
{
    reveal_strlit("<|im_end|>");
    reveal_strlit("<|im_start|>");
    let s = head + text;
    let n = head.len() as int;
    assert forall|j: int| 0 <= j < n implies !occurs_at(s, p, j) by {
        if occurs_at(s, p, j) {
            assert(s.subrange(j, j + p.len())[0] == s[j]);
            assert(s[j] == head[j]);
            assert(j == 0);
            assert(s.subrange(0, p.len() as int)[5] == s[5]);
        }
    }
    lemma_find(text, p);
    lemma_find(s, p);
    match find(text, p) {
        Some(i) => {
            assert(s.subrange(n + i, n + i + p.len()) =~= text.subrange(i, i + p.len()));
            assert forall|j: int| 0 <= j < n + i implies !occurs_at(s, p, j) by {
                if j >= n && occurs_at(s, p, j) {
                    assert(s.subrange(j, j + p.len()) =~= text.subrange(j - n, j - n + p.len()));
                    assert(occurs_at(text, p, j - n));
                }
            }
            lemma_find_from_is(s, p, 0, n + i);
            assert(s.skip(n + i + p.len()) =~= text.skip(i + p.len()));
            assert(s.take(n + i) =~= head + text.take(i));
            assert(head + (text.take(i) + remove_all(text.skip(i + p.len()), p)) =~= (head
                + text.take(i)) + remove_all(text.skip(i + p.len()), p));
        },
        None => {
            if contains(s, p) {
                let j = choose|j: int| occurs_at(s, p, j);
                if j >= n {
                    assert(s.subrange(j, j + p.len()) =~= text.subrange(j - n, j - n + p.len()));
                    assert(occurs_at(text, p, j - n));
                }
            }
        },
    }
}

// ---------------------------------------------------------------------------
// The answer beside its calls
// ---------------------------------------------------------------------------

/// The tags around a call are no part of the answer; what stands before,
/// between and after them stays, trimmed.
pub proof fn law_call_tags_are_dropped(before: Seq<char>, block: Seq<char>, after: Seq<char>)
    requires
        !contains(before, "<tool_call>"@),
        !contains(block + "</tool_call>"@ + after, "<tool_call>"@),
        !contains(before + block, "</tool_call>"@),
        !contains(after, "</tool_call>"@),
        without_tokens(before + block + after),
        without_thinking(before + block + after),
    ensures
        answer_beside_calls(before + "<tool_call>"@ + block + "</tool_call>"@ + after) == trim(
            before + block + after,
        ),
{
    reveal_strlit("<tool_call>");
    reveal_strlit("</tool_call>");
    let open = "<tool_call>"@;
    let close = "</tool_call>"@;
    let rest = block + close + after;
    let text = before + open + block + close + after;
    assert(text =~= before + open + rest);
    lemma_removed(before, open, rest);
    lemma_absent(rest, open);
    assert(before + rest =~= (before + block) + close + after);
    lemma_removed(before + block, close, after);
    lemma_absent(after, close);
    let whole = before + block + after;
    lemma_trim_part(whole, "<|im_end|>"@);
    lemma_trim_part(whole, "<|im_start|>"@);
    lemma_trim_part(whole, "<think>"@);
    lemma_trim_part(whole, "</think>"@);
    law_untagged_text_is_answer(trim(whole));
}

/// However often the reasoning is opened, it is the same.
pub proof fn law_repeated_opening_tags_are_dropped(thinking: Seq<char>, answer: Seq<char>)
    requires
        without_tokens("<think>"@ + thinking + "</think>"@ + answer),
        without_tokens(thinking + "</think>"@ + answer),
        !contains("<think>"@ + thinking, "</think>"@),
        !contains(thinking, "</think>"@),
        starts_with(thinking, "<think>"@),
    ensures
        reasoning_and_answer("<think>"@ + thinking + "</think>"@ + answer) == reasoning_and_answer(
            thinking + "</think>"@ + answer,
        ),
{
    reveal_strlit("<think>");
    let tag = "<think>"@;
    let empty = Seq::<char>::empty();
    lemma_separates(tag + thinking, answer);
    lemma_separates(thinking, answer);
    assert(!is_space('<') && !is_space('>'));
    lemma_trim_around(empty, tag, thinking);
    assert(trim_start(empty) =~= empty);
    assert(empty + tag + thinking =~= tag + thinking);
    let b = trim_end(thinking);
    assert(empty + tag + b =~= tag + b);
    assert(thinking.subrange(0, 7)[0] == thinking[0]);
    assert(trim_start(thinking) == thinking);
    assert(trim(thinking) == b);
    assert((tag + b).subrange(0, 7) =~= tag);
    assert((tag + b).skip(7) =~= b);
}

} // verus!
