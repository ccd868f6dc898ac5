//! What is stripped from a text, what stays, and what is kept back.

use vstd::prelude::*;

use super::markup::{
    begins, boundary_in, fixed_tags, fragment_parts, is_blank, law_plain_text_is_kept, lemma_markup_len, lemma_settled,
    lemma_tag_ends, lemma_tag_found, lemma_tags_close_once, markup_len, may_become_markup,
    opener_len, settled, stripped, tag_len, without_blanks_after, without_blanks_before,
};
use super::round_trip::lemma_find_char;
use crate::text::{
    byte_len, is_offset, lemma_byte_len_add, lemma_byte_len_at_least, lemma_find,
    lemma_offset_unique, occurs_at, starts_with,
};

verus! {

// ---------------------------------------------------------------------------
// What is stripped
// ---------------------------------------------------------------------------

/// The tags that stand for themselves.
pub open spec fn is_tag(tag: Seq<char>) -> bool {
    ||| tag == "<|im_start|>"@
    ||| tag == "<|im_end|>"@
    ||| tag == "<think>"@
    ||| tag == "</think>"@
    ||| tag == "<tool_call>"@
    ||| tag == "</tool_call>"@
    ||| tag == "</function>"@
    ||| tag == "</parameter>"@
}

/// What a tag with an attribute begins with.
pub open spec fn is_opener(prefix: Seq<char>) -> bool {
    prefix == "<function="@ || prefix == "<parameter="@
}

proof fn lemma_some_tag(s: Seq<char>, tags: Seq<Seq<char>>, k: int)
    requires
        0 <= k < tags.len(),
        starts_with(s, tags[k]),
    ensures
        tag_len(s, tags) is Some,
    decreases tags.len(),
{
    if !starts_with(s, tags[0]) {
        assert(tags.skip(1)[k - 1] == tags[k]);
        lemma_some_tag(s, tags.skip(1), k - 1);
    }
}

proof fn lemma_tag_index(tag: Seq<char>) -> (k: int)
    requires
        is_tag(tag),
    ensures
        0 <= k < fixed_tags().len(),
        fixed_tags()[k] == tag,
{
    let tags = fixed_tags();
    if tag == "<|im_start|>"@ {
        assert(tags[0] == tag);
        0
    } else if tag == "<|im_end|>"@ {
        assert(tags[1] == tag);
        1
    } else if tag == "<think>"@ {
        assert(tags[2] == tag);
        2
    } else if tag == "</think>"@ {
        assert(tags[3] == tag);
        3
    } else if tag == "<tool_call>"@ {
        assert(tags[4] == tag);
        4
    } else if tag == "</tool_call>"@ {
        assert(tags[5] == tag);
        5
    } else if tag == "</function>"@ {
        assert(tags[6] == tag);
        6
    } else {
        assert(tags[7] == tag);
        7
    }
}

proof fn lemma_tag_markup(tag: Seq<char>, rest: Seq<char>)
    requires
        is_tag(tag),
    ensures
        markup_len(tag + rest) == Some(tag.len() as int),
        tag.len() > 0,
{
    let s = tag + rest;
    let tags = fixed_tags();
    let k = lemma_tag_index(tag);
    lemma_tag_ends(k);
    lemma_tags_close_once(k);
    assert(s.subrange(0, tag.len() as int) =~= tag);
    lemma_some_tag(s, tags, k);
    let m = lemma_tag_found(s, tags);
    let other = tags[m];
    lemma_tag_ends(m);
    lemma_tags_close_once(m);
    let a: int = tag.len() - 1;
    let b: int = other.len() - 1;
    assert(s[b] == '>') by {
        assert(s.subrange(0, other.len() as int)[b] == s[b]);
    }
    assert(s[a] == '>') by {
        assert(s[a] == tag[a]);
    }
    if b < a {
        assert(tag[b] == s[b]);
    }
    if a < b {
        assert(s.subrange(0, other.len() as int)[a] == s[a]);
        assert(other[a] == s[a]);
    }
}

/// A tag is stripped wherever it stands behind text without brackets; what
/// stands before it stays and what follows is stripped on its own.
pub proof fn law_tag_is_stripped(plain: Seq<char>, tag: Seq<char>, rest: Seq<char>)
    requires
        !plain.contains('<'),
        is_tag(tag),
    ensures
        stripped(plain + tag + rest) == plain + stripped(rest),
{
    lemma_tag_markup(tag, rest);
    assert((tag + rest).skip(tag.len() as int) =~= rest);
    law_plain_text_is_kept(plain, tag + rest);
    assert(plain + tag + rest =~= plain + (tag + rest));
}

proof fn lemma_no_fixed_tag(s: Seq<char>)
    requires
        s.len() > 1 ==> s[1] != '|' && s[1] != 't' && s[1] != '/',
    ensures
        tag_len(s, fixed_tags()) is None,
{
    reveal_strlit("<|im_start|>");
    reveal_strlit("<|im_end|>");
    reveal_strlit("<think>");
    reveal_strlit("</think>");
    reveal_strlit("<tool_call>");
    reveal_strlit("</tool_call>");
    reveal_strlit("</function>");
    reveal_strlit("</parameter>");
    let tags = fixed_tags();
    if tag_len(s, tags) is Some {
        let k = lemma_tag_found(s, tags);
        assert(tags[k].len() > 1 && (tags[k][1] == '|' || tags[k][1] == 't' || tags[k][1] == '/'));
        assert(s.subrange(0, tags[k].len() as int)[1] == s[1]);
    }
}

/// A tag with an attribute is stripped up to the first `>`.
pub proof fn law_opener_is_stripped(
    plain: Seq<char>,
    prefix: Seq<char>,
    attribute: Seq<char>,
    rest: Seq<char>,
)
    requires
        !plain.contains('<'),
        is_opener(prefix),
        !attribute.contains('>'),
    ensures
        stripped(plain + prefix + attribute.push('>') + rest) == plain + stripped(rest),
{
    reveal_strlit("<function=");
    reveal_strlit("<parameter=");
    let s = prefix + attribute.push('>') + rest;
    assert(s[1] == prefix[1]);
    lemma_no_fixed_tag(s);
    assert(s.subrange(0, prefix.len() as int) =~= prefix);
    assert(s.skip(prefix.len() as int) =~= attribute.push('>') + rest);
    lemma_find_char(attribute, '>', rest);
    if prefix == "<parameter="@ {
        assert(!starts_with(s, "<function="@)) by {
            if starts_with(s, "<function="@) {
                assert(s.subrange(0, 10)[1] == s[1]);
            }
        }
    }
    let n: int = prefix.len() + attribute.len() as int + 1;
    assert(markup_len(s) == Some(n));
    assert(s.skip(n) =~= rest);
    law_plain_text_is_kept(plain, s);
    assert(plain + prefix + attribute.push('>') + rest =~= plain + s);
}

/// A bracket that cannot begin a tag stays, and the text around it with it.
pub proof fn law_other_brackets_stay(s: Seq<char>)
    requires
        forall|i: int|
            0 <= i < s.len() - 1 && #[trigger] s[i] == '<' ==> {
                let c = s[i + 1];
                c != '|' && c != 't' && c != '/' && c != 'f' && c != 'p'
            },
    ensures
        stripped(s) == s,
    decreases s.len(),
{
    reveal_strlit("<function=");
    reveal_strlit("<parameter=");
    if s.len() > 0 {
        let tail = s.skip(1);
        assert forall|i: int| 0 <= i < tail.len() - 1 && #[trigger] tail[i] == '<' implies {
            let c = tail[i + 1];
            c != '|' && c != 't' && c != '/' && c != 'f' && c != 'p'
        } by {
            assert(tail[i] == s[i + 1]);
        }
        law_other_brackets_stay(tail);
        lemma_markup_len(s);
        if s[0] == '<' {
            lemma_no_fixed_tag(s);
            if starts_with(s, "<function="@) {
                assert(s.subrange(0, 10)[1] == s[1]);
            }
            if starts_with(s, "<parameter="@) {
                assert(s.subrange(0, 11)[1] == s[1]);
            }
        }
        assert(markup_len(s) is None);
        assert(seq![s[0]] + tail =~= s);
    }
}

// ---------------------------------------------------------------------------
// What is kept back
// ---------------------------------------------------------------------------

/// `s` is the start of `tag`, and not all of it.
pub open spec fn is_start(s: Seq<char>, tag: Seq<char>) -> bool {
    s.len() < tag.len() && starts_with(tag, s)
}

/// More text may turn `s` into a tag: it is the start of one and not all of it,
/// or a tag whose attribute is not closed.
pub open spec fn waits(s: Seq<char>) -> bool {
    &&& s.len() > 0
    &&& s[0] == '<'
    &&& !s.contains('>')
    &&& {
        ||| exists|tag: Seq<char>| is_tag(tag) && #[trigger] is_start(s, tag)
        ||| exists|prefix: Seq<char>|
            #[trigger] is_opener(prefix) && (is_start(s, prefix) || starts_with(s, prefix))
    }
}

proof fn lemma_fixed_is_tag(k: int)
    requires
        0 <= k < fixed_tags().len(),
    ensures
        is_tag(fixed_tags()[k]),
        fixed_tags()[k].len() > 0,
        fixed_tags()[k][0] == '<',
{
    reveal_strlit("<|im_start|>");
    reveal_strlit("<|im_end|>");
    reveal_strlit("<think>");
    reveal_strlit("</think>");
    reveal_strlit("<tool_call>");
    reveal_strlit("</tool_call>");
    reveal_strlit("</function>");
    reveal_strlit("</parameter>");
}

proof fn lemma_waits(s: Seq<char>)
    requires
        markup_len(s) is None,
        may_become_markup(s),
    ensures
        waits(s),
{
    reveal_strlit("<function=");
    reveal_strlit("<parameter=");
    let tags = fixed_tags();
    let f = "<function="@;
    let p = "<parameter="@;
    if exists|k: int| 0 <= k < tags.len() && begins(s, #[trigger] tags[k]) {
        let k = choose|k: int| 0 <= k < tags.len() && begins(s, #[trigger] tags[k]);
        let tag = tags[k];
        lemma_fixed_is_tag(k);
        lemma_tags_close_once(k);
        assert(tag.subrange(0, s.len() as int) =~= tag.take(s.len() as int));
        assert(is_start(s, tag));
        assert(tag.take(s.len() as int)[0] == tag[0]);
        assert(!s.contains('>')) by {
            if s.contains('>') {
                let i = s.index_of('>');
                assert(tag.take(s.len() as int)[i] == tag[i]);
            }
        }
    } else {
        let prefix = if begins(s, f) || starts_with(s, f) {
            f
        } else {
            p
        };
        assert(is_opener(prefix));
        if begins(s, prefix) {
            assert(prefix.subrange(0, s.len() as int) =~= prefix.take(s.len() as int));
            assert(is_start(s, prefix));
            assert(prefix.take(s.len() as int)[0] == prefix[0]);
            assert(!s.contains('>')) by {
                if s.contains('>') {
                    let i = s.index_of('>');
                    assert(prefix.take(s.len() as int)[i] == prefix[i]);
                }
            }
        } else {
            assert(starts_with(s, prefix));
            assert(s.subrange(0, prefix.len() as int) == prefix);
            assert(s.subrange(0, prefix.len() as int)[0] == s[0]);
            assert(tag_len(s, tags) is None);
            if prefix == p && starts_with(s, f) {
                assert(s.subrange(0, 10)[1] == s[1]);
                assert(s.subrange(0, 11)[1] == s[1]);
            }
            assert(opener_len(s, prefix) is None);
            let rest = s.skip(prefix.len() as int);
            lemma_find(rest, seq!['>']);
            assert(!s.contains('>')) by {
                if s.contains('>') {
                    let i = s.index_of('>');
                    if i < prefix.len() {
                        assert(s.subrange(0, prefix.len() as int)[i] == s[i]);
                    } else {
                        let j = i - prefix.len();
                        assert(rest.subrange(j, j + 1) =~= seq!['>']);
                        assert(occurs_at(rest, seq!['>'], j));
                    }
                }
            }
        }
    }
}

/// Nothing is kept back of a text but an end that more text may turn into a
/// tag.
pub proof fn law_only_starts_of_tags_are_kept_back(s: Seq<char>)
    ensures
        0 <= settled(s) <= s.len(),
        settled(s) < s.len() ==> waits(s.skip(settled(s))),
    decreases s.len(),
{
    lemma_settled(s, Seq::empty());
    if s.len() > 0 {
        lemma_markup_len(s);
        match markup_len(s) {
            Some(n) => {
                law_only_starts_of_tags_are_kept_back(s.skip(n));
                assert(s.skip(n).skip(settled(s.skip(n))) =~= s.skip(settled(s)));
            },
            None => if may_become_markup(s) {
                lemma_waits(s);
                assert(s.skip(0) =~= s);
            } else {
                law_only_starts_of_tags_are_kept_back(s.skip(1));
                assert(s.skip(1).skip(settled(s.skip(1))) =~= s.skip(settled(s)));
            },
        }
    }
}

/// A text without brackets is sent at once, and so is a text that ends with a
/// bracket that closes.
pub proof fn law_plain_text_is_not_kept_back(s: Seq<char>)
    requires
        !s.contains('<') || s.last() == '>',
    ensures
        settled(s) == s.len(),
{
    law_only_starts_of_tags_are_kept_back(s);
    let n = settled(s);
    if n < s.len() {
        let held = s.skip(n);
        assert(held[0] == s[n]);
        assert(held.last() == s.last());
        assert(held[held.len() - 1] == s.last());
    }
}

// ---------------------------------------------------------------------------
// Reasoning and content of a fragment
// ---------------------------------------------------------------------------

/// A line feed, a space or a tab.
pub open spec fn is_edge(c: char) -> bool {
    c == '\n' || c == ' ' || c == '\t'
}

/// `s` is `whole` without the blanks at its end.
pub open spec fn cut_after(s: Seq<char>, whole: Seq<char>) -> bool {
    &&& s.len() <= whole.len()
    &&& whole.take(s.len() as int) == s
    &&& forall|i: int| s.len() <= i < whole.len() ==> is_edge(#[trigger] whole[i])
    &&& s.len() > 0 ==> !is_edge(s.last())
}

/// `s` is `whole` without the blanks at its start.
pub open spec fn cut_before(s: Seq<char>, whole: Seq<char>) -> bool {
    &&& s.len() <= whole.len()
    &&& whole.skip(whole.len() - s.len()) == s
    &&& forall|i: int| 0 <= i < whole.len() - s.len() ==> is_edge(#[trigger] whole[i])
    &&& s.len() > 0 ==> !is_edge(s[0])
}

proof fn lemma_cut_after(s: Seq<char>)
    ensures
        cut_after(without_blanks_after(s), s),
    decreases s.len(),
{
    let w = without_blanks_after(s);
    if s.len() > 0 && is_blank(s.last()) {
        let d = s.drop_last();
        lemma_cut_after(d);
        assert(s.take(w.len() as int) =~= d.take(w.len() as int));
        assert forall|i: int| w.len() <= i < s.len() implies is_edge(#[trigger] s[i]) by {
            if i < d.len() {
                assert(d[i] == s[i]);
            }
        }
    } else {
        assert(s.take(w.len() as int) =~= s);
    }
}

proof fn lemma_cut_before(s: Seq<char>)
    ensures
        cut_before(without_blanks_before(s), s),
    decreases s.len(),
{
    let w = without_blanks_before(s);
    if s.len() > 0 && is_blank(s[0]) {
        let d = s.skip(1);
        lemma_cut_before(d);
        let k = s.len() - w.len();
        assert(s.skip(k) =~= d.skip(k - 1));
        assert forall|i: int| 0 <= i < k implies is_edge(#[trigger] s[i]) by {
            if i > 0 {
                assert(d[i - 1] == s[i]);
            }
        }
    } else {
        assert(s.skip(0) =~= s);
    }
}

/// A fragment without brackets is reasoning while the thinking goes on, and
/// content once it has ended; it comes out unchanged, its white space included.
pub proof fn law_fragment_is_sorted(fragment: Seq<char>, sent: nat, at: nat)
    requires
        !fragment.contains('<'),
    ensures
        fragment_parts(fragment, sent, None).1.len() == 0,
        fragment.len() == 0 ==> fragment_parts(fragment, sent, None).0 is None,
        fragment.len() > 0 ==> fragment_parts(fragment, sent, None).0 == Some(fragment),
        at <= sent ==> fragment_parts(fragment, sent, Some(at)) == (None::<Seq<char>>, fragment),
{
    law_plain_text_is_kept(fragment, Seq::empty());
}

/// A fragment without brackets in which the content begins is reasoning before
/// and content from there on; only the blanks on both sides of that place are
/// cut off.
pub proof fn law_fragment_is_split(reasoning: Seq<char>, content: Seq<char>, sent: nat)
    requires
        !reasoning.contains('<'),
        !content.contains('<'),
        reasoning.len() > 0,
    ensures
        ({
            let parts = fragment_parts(
                reasoning + content,
                sent,
                Some(sent + byte_len(reasoning)),
            );
            &&& parts.0 matches Some(r) ==> r.len() > 0 && cut_after(r, reasoning)
            &&& parts.0 is None ==> cut_after(Seq::empty(), reasoning)
            &&& cut_before(parts.1, content)
        }),
{
    let fragment = reasoning + content;
    let n = byte_len(reasoning);
    let k = reasoning.len() as int;
    lemma_byte_len_add(reasoning, content);
    lemma_byte_len_at_least(reasoning);
    lemma_byte_len_at_least(content);
    assert(fragment.take(k) =~= reasoning);
    assert(fragment.skip(k) =~= content);
    assert(is_offset(fragment, n as int, k));
    lemma_offset_unique(fragment, n as int, k);
    law_plain_text_is_kept(reasoning, Seq::empty());
    law_plain_text_is_kept(content, Seq::empty());
    lemma_cut_after(reasoning);
    lemma_cut_before(content);
    assert(boundary_in(fragment, sent, sent + n) == n);
    let r = without_blanks_after(reasoning);
    if r.len() == 0 {
        assert(r =~= Seq::<char>::empty());
    }
}

} // verus!
