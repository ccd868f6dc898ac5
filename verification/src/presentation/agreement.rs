//! Streamed answers and answers that are not streamed agree.

use vstd::prelude::*;

use super::stream_laws::{
    all_blank, all_deltas, law_stream_splits_at_tag, received_content, received_reasoning,
};
use crate::application::chat::cleaning::{
    lemma_no_tag, reasoning_and_answer, without_leading_think, without_think_tags,
};
use crate::application::chat::markup::{
    fixed_tags, is_blank, law_plain_text_is_kept, markup_len, stripped, tag_len,
};
use crate::domain::entity::ToolCallView;
use crate::infrastructure::pieces::joined;
use crate::text::{
    all_space, contains, is_space, is_trimmed, lemma_find, lemma_find_from_is, lemma_trim,
    lemma_trim_end_cuts_space, lemma_trim_ignores_space, lemma_trim_is,
    lemma_trim_start_cuts_space, lemma_trim_start_skips, lemma_trim_trimmed, occurs_at, remove_all,
    starts_with, trim, trim_end, trim_start,
};

verus! {

/// A model that thinks in plain text, closes its thinking, and answers in
/// plain text is understood the same way whether its answer is streamed or
/// not, however it was cut into pieces: a client that trims the reasoning and
/// the content that it received has the reasoning and the answer of the whole
/// text. Of the content only blanks at its start may be missing.
pub proof fn law_streaming_agrees(
    pieces: Seq<Seq<char>>,
    thinking: Seq<char>,
    answer: Seq<char>,
    calls: Seq<ToolCallView>,
)
    requires
        joined(pieces) == thinking + "</think>"@ + answer,
        !thinking.contains('<'),
        !answer.contains('<'),
    ensures
        ({
            let deltas = all_deltas(pieces, calls);
            &&& reasoning_and_answer(joined(pieces)) == (
                trim(received_reasoning(deltas)),
                trim(received_content(deltas)),
            )
            &&& trim_start(received_content(deltas)) == trim_start(answer)
        }),
{
    reveal_strlit("</think>");
    let tag = "</think>"@;
    let text = thinking + tag + answer;
    let i = thinking.len() as int;
    let deltas = all_deltas(pieces, calls);
    let empty = Seq::<char>::empty();
    assert(text.subrange(i, i + tag.len()) =~= tag);
    assert forall|j: int| 0 <= j < i implies !occurs_at(text, tag, j) by {
        if occurs_at(text, tag, j) {
            assert(text.subrange(j, j + tag.len())[0] == text[j]);
            assert(thinking[j] == '<');
        }
    }
    lemma_find_from_is(text, tag, 0, i);
    law_stream_splits_at_tag(pieces, calls);
    assert(text.take(i + tag.len()) =~= thinking + tag);
    assert(text.skip(i + tag.len()) =~= answer);
    lemma_closing_tag_is_markup();
    law_plain_text_is_kept(thinking, tag);
    law_plain_text_is_kept(answer, empty);
    assert(thinking + empty =~= thinking);
    lemma_tagged_text(thinking, answer);

    let r = received_reasoning(deltas);
    let w = thinking.skip(r.len() as int);
    lemma_blank_is_space(w);
    assert(thinking =~= empty + r + w);
    lemma_trim_ignores_space(empty, r, w);

    let c = received_content(deltas);
    let v = answer.take(answer.len() - c.len());
    lemma_blank_is_space(v);
    assert(answer =~= v + c + empty);
    lemma_trim_ignores_space(v, c, empty);
    assert(answer =~= v + c);
    lemma_trim_start_skips(v, c);
}

proof fn lemma_blank_is_space(s: Seq<char>)
    requires
        all_blank(s),
    ensures
        all_space(s),
{
    assert forall|i: int| 0 <= i < s.len() implies is_space(#[trigger] s[i]) by {
        assert(is_blank(s[i]));
    }
}

/// The closing tag is markup.
proof fn lemma_closing_tag_is_markup()
    ensures
        stripped("</think>"@) == Seq::<char>::empty(),
{
    reveal_strlit("<|im_start|>");
    reveal_strlit("<|im_end|>");
    reveal_strlit("<think>");
    reveal_strlit("</think>");
    let s = "</think>"@;
    let tags = fixed_tags();
    assert(!starts_with(s, tags[0]));
    assert(!starts_with(s, tags[1]));
    assert(!starts_with(s, tags[2])) by {
        assert(s.subrange(0, 7)[1] == '/');
        assert("<think>"@[1] == 't');
    }
    assert(starts_with(s, tags[3])) by {
        assert(s.subrange(0, 8) =~= s);
    }
    assert(tags.skip(1)[0] == tags[1]);
    assert(tags.skip(1).skip(1) =~= tags.skip(2));
    assert(tags.skip(2)[0] == tags[2]);
    assert(tags.skip(2).skip(1) =~= tags.skip(3));
    assert(tags.skip(3)[0] == tags[3]);
    assert(tag_len(s, tags.skip(3)) == Some(8int));
    assert(tag_len(s, tags.skip(2)) == Some(8int));
    assert(tag_len(s, tags.skip(1)) == Some(8int));
    assert(tag_len(s, tags) == Some(8int));
    assert(markup_len(s) == Some(8int));
    assert(s.skip(8) =~= Seq::<char>::empty());
    assert(stripped(s.skip(8)) =~= Seq::<char>::empty());
}

/// A turn token does not stand in a text whose only `<` begins `</think>`.
proof fn lemma_no_turn_token(a: Seq<char>, c: Seq<char>, token: Seq<char>)
    requires
        !a.contains('<'),
        !c.contains('<'),
        token.len() > 1,
        token[0] == '<',
        token[1] == '|',
    ensures
        remove_all(a + "</think>"@ + c, token) == a + "</think>"@ + c,
{
    reveal_strlit("</think>");
    let text = a + "</think>"@ + c;
    lemma_find(text, token);
    if contains(text, token) {
        let j = choose|j: int| occurs_at(text, token, j);
        assert(text.subrange(j, j + token.len())[0] == text[j]);
        assert(text.subrange(j, j + token.len())[1] == text[j + 1]);
        if j < a.len() {
            assert(a[j] == '<');
        } else if j < a.len() + 8 {
            assert(text[j] == "</think>"@[j - a.len()]);
            assert(text[j + 1] == '/');
        } else {
            assert(c[j - a.len() - 8] == '<');
        }
    }
}

/// The reasoning and the answer of a text whose only `<` begins `</think>`.
proof fn lemma_tagged_text(a: Seq<char>, c: Seq<char>)
    requires
        !a.contains('<'),
        !c.contains('<'),
    ensures
        reasoning_and_answer(a + "</think>"@ + c) == (trim(a), trim(c)),
{
    reveal_strlit("</think>");
    reveal_strlit("<think>");
    reveal_strlit("<|im_end|>");
    reveal_strlit("<|im_start|>");
    let tag = "</think>"@;
    let text = a + tag + c;
    lemma_no_turn_token(a, c, "<|im_end|>"@);
    lemma_no_turn_token(a, c, "<|im_start|>"@);

    let a1 = trim_start(a);
    let c1 = trim_end(c);
    lemma_trim_start_cuts_space(a);
    lemma_trim_end_cuts_space(c);
    let w1 = a.take(a.len() - a1.len());
    let w2 = c.skip(c1.len() as int);
    let t = a1 + tag + c1;
    assert(text =~= w1 + t + w2);
    assert(is_trimmed(t)) by {
        assert(!is_space('<') && !is_space('>'));
        if a1.len() > 0 {
            assert(t[0] == a1[0]);
        } else {
            assert(t[0] == '<');
        }
        if c1.len() > 0 {
            assert(t.last() == c1.last());
        } else {
            assert(t.last() == tag.last());
        }
    }
    lemma_trim_is(w1, t, w2);

    assert(!a1.contains('<')) by {
        if a1.contains('<') {
            let k = choose|k: int| 0 <= k < a1.len() && a1[k] == '<';
            assert(a[k + a.len() - a1.len()] == '<');
        }
    }
    assert(!c1.contains('<')) by {
        if c1.contains('<') {
            let k = choose|k: int| 0 <= k < c1.len() && c1[k] == '<';
            assert(c[k] == '<');
        }
    }
    let i = a1.len() as int;
    assert(t.subrange(i, i + tag.len()) =~= tag);
    assert forall|j: int| 0 <= j < i implies !occurs_at(t, tag, j) by {
        if occurs_at(t, tag, j) {
            assert(t.subrange(j, j + tag.len())[0] == t[j]);
            assert(a1[j] == '<');
        }
    }
    lemma_find_from_is(t, tag, 0, i);
    assert(t.take(i) =~= a1);
    assert(t.skip(i + tag.len()) =~= c1);

    lemma_plain_reasoning(a1);
    lemma_plain_answer(c1);
    assert(w1 + a1 + Seq::<char>::empty() =~= a);
    lemma_trim_ignores_space(w1, a1, Seq::empty());
    assert(Seq::<char>::empty() + c1 + w2 =~= c);
    lemma_trim_ignores_space(Seq::empty(), c1, w2);
}

proof fn lemma_trim_plain(s: Seq<char>)
    requires
        !s.contains('<'),
    ensures
        !trim(s).contains('<'),
        trim(trim(s)) == trim(s),
{
    lemma_trim(s);
    lemma_trim_trimmed(trim(s));
    let (i, j) = choose|i: int, j: int|
        0 <= i <= j <= s.len() && trim(s) == s.subrange(i, j);
    if trim(s).contains('<') {
        let k = choose|k: int| 0 <= k < trim(s).len() && trim(s)[k] == '<';
        assert(s[i + k] == '<');
    }
}

proof fn lemma_plain_reasoning(s: Seq<char>)
    requires
        !s.contains('<'),
    ensures
        without_leading_think(trim(s)) == trim(s),
{
    reveal_strlit("<think>");
    lemma_trim_plain(s);
    let t = trim(s);
    if starts_with(t, "<think>"@) {
        assert(t.subrange(0, 7)[0] == t[0]);
        assert(t.contains('<'));
    }
}

proof fn lemma_plain_answer(s: Seq<char>)
    requires
        !s.contains('<'),
    ensures
        without_think_tags(trim(s)) == trim(s),
{
    reveal_strlit("<think>");
    reveal_strlit("</think>");
    lemma_trim_plain(s);
    lemma_no_tag(trim(s), "<think>"@);
    lemma_no_tag(trim(s), "</think>"@);
}

} // verus!
