//! Separating a thinking model's reasoning from its answer.

use vstd::prelude::*;
use vstd::slice::slice_subrange;

use crate::text::{
    after_leading, contains, find, from_chars, lemma_find, lemma_trim, lemma_trim_trimmed,
    occurs_at, remove_all, search, to_chars, trim, trim_start_matches, trimmed, without,
};

verus! {

/// The text without the special tokens that frame a turn, trimmed.
pub open spec fn without_turn_tokens(text: Seq<char>) -> Seq<char> {
    trim(remove_all(remove_all(text, "<|im_end|>"@), "<|im_start|>"@))
}

/// An answer without stray thinking tags, trimmed.
pub open spec fn without_think_tags(answer: Seq<char>) -> Seq<char> {
    trim(remove_all(remove_all(answer, "<think>"@), "</think>"@))
}

/// A reasoning text without the opening tags that it starts with, trimmed.
pub open spec fn without_leading_think(reasoning: Seq<char>) -> Seq<char> {
    trim(trim_start_matches(reasoning, "<think>"@))
}

/// The reasoning and the answer in a generated text: the first `</think>`
/// separates them. A text that opens `<think>` and never closes it is all
/// reasoning; a text without either tag is all answer.
pub open spec fn reasoning_and_answer(text: Seq<char>) -> (Seq<char>, Seq<char>) {
    let t = without_turn_tokens(text);
    match find(t, "</think>"@) {
        Some(i) => (
            without_leading_think(trim(t.take(i))),
            without_think_tags(trim(t.skip(i + "</think>"@.len()))),
        ),
        None => if contains(t, "<think>"@) {
            (without_leading_think(t), Seq::empty())
        } else {
            (Seq::empty(), without_think_tags(t))
        },
    }
}

/// A text in which no character is `<` is all answer: it comes back trimmed,
/// and nothing of it is reasoning.
pub proof fn law_plain_text_is_answer(text: Seq<char>)
    requires
        !text.contains('<'),
    ensures
        reasoning_and_answer(text) == (Seq::<char>::empty(), trim(text)),
{
    reveal_strlit("<|im_end|>");
    reveal_strlit("<|im_start|>");
    reveal_strlit("</think>");
    reveal_strlit("<think>");
    lemma_no_tag(text, "<|im_end|>"@);
    lemma_no_tag(text, "<|im_start|>"@);
    lemma_trim(text);
    let t = trim(text);
    assert(!t.contains('<')) by {
        let (i, j) = choose|i: int, j: int| 0 <= i <= j <= text.len() && t == text.subrange(i, j);
        if t.contains('<') {
            let k = choose|k: int| 0 <= k < t.len() && t[k] == '<';
            assert(text[i + k] == '<');
        }
    }
    lemma_no_tag(t, "</think>"@);
    lemma_no_tag(t, "<think>"@);
    lemma_find(t, "<think>"@);
    lemma_trim_trimmed(t);
}

/// A tag that starts with `<` does not stand in a text without `<`.
pub proof fn lemma_no_tag(text: Seq<char>, tag: Seq<char>)
    requires
        !text.contains('<'),
        tag.len() > 0,
        tag[0] == '<',
    ensures
        find(text, tag) is None,
        !contains(text, tag),
        remove_all(text, tag) == text,
{
    lemma_find(text, tag);
    if contains(text, tag) {
        let i = choose|i: int| occurs_at(text, tag, i);
        assert(text.subrange(i, i + tag.len())[0] == text[i]);
        assert(text.contains('<'));
    }
}

/// The reasoning and the answer come out without white space around them.
pub proof fn law_parts_are_trimmed(text: Seq<char>)
    ensures
        crate::text::is_trimmed(reasoning_and_answer(text).0),
        crate::text::is_trimmed(reasoning_and_answer(text).1),
{
    let t = without_turn_tokens(text);
    match find(t, "</think>"@) {
        Some(i) => {
            lemma_trim(trim_start_matches(trim(t.take(i)), "<think>"@));
            lemma_trim(
                remove_all(
                    remove_all(trim(t.skip(i + "</think>"@.len())), "<think>"@),
                    "</think>"@,
                ),
            );
        },
        None => {
            lemma_trim(trim_start_matches(t, "<think>"@));
            lemma_trim(remove_all(remove_all(t, "<think>"@), "</think>"@));
        },
    }
}

/// Remove special tokens from generated text and separate reasoning.
///
/// For thinking models, returns (reasoning, cleaned answer).
pub fn clean_text(text: &str) -> (r: (String, String))
    ensures
        (r.0@, r.1@) == reasoning_and_answer(text@),
{
    proof {
        reveal_strlit("<|im_end|>");
        reveal_strlit("<|im_start|>");
        reveal_strlit("</think>");
        reveal_strlit("<think>");
    }
    let chars = to_chars(text);
    let no_end = without(chars.as_slice(), "<|im_end|>");
    let no_tokens = without(no_end.as_slice(), "<|im_start|>");
    let t = trimmed(no_tokens.as_slice());
    let end: usize = t.len();
    let close = to_chars("</think>");
    let opening = to_chars("<think>");
    match search(t, close.as_slice()) {
        Some(i) => {
            let before = trimmed(slice_subrange(t, 0, i));
            assert(t@.subrange(0, i as int) == t@.take(i as int));
            let reasoning = trimmed(after_leading(before, "<think>"));
            let rest = slice_subrange(t, i + close.len(), end);
            assert(rest@ == t@.skip(i + close@.len()));
            (from_chars(reasoning), untagged(trimmed(rest)))
        },
        None => match search(t, opening.as_slice()) {
            Some(_) => {
                let reasoning = trimmed(after_leading(t, "<think>"));
                let answer = String::new();
                assert(answer@ =~= without_think_tags(Seq::empty())) by {
                    lemma_no_tag(Seq::empty(), "<think>"@);
                    lemma_no_tag(Seq::empty(), "</think>"@);
                }
                (from_chars(reasoning), answer)
            },
            None => (String::new(), untagged(t)),
        },
    }
}

/// An answer without stray thinking tags, trimmed.
fn untagged(answer: &[char]) -> (r: String)
    ensures
        r@ == without_think_tags(answer@),
{
    proof {
        reveal_strlit("</think>");
        reveal_strlit("<think>");
    }
    let a = without(answer, "<think>");
    let b = without(a.as_slice(), "</think>");
    from_chars(trimmed(b.as_slice()))
}

} // verus!
