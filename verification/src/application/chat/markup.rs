//! Stripping markup from streamed fragments and sorting them into reasoning
//! and content.

use vstd::prelude::*;
use vstd::slice::slice_subrange;

use crate::text::{
    byte_len, char_at_byte, find, from_chars, index_at_byte, is_boundary,
    lemma_find, lemma_find_append, lemma_find_from_is, occurs_at, same_chars, search, stands_at,
    starts_with, text_bytes, text_of, to_chars,
};

verus! {

// ---------------------------------------------------------------------------
// Markup
// ---------------------------------------------------------------------------

/// The tags without attributes, in the order in which they are tried.
pub open spec fn fixed_tags() -> Seq<Seq<char>> {
    seq![
        "<|im_start|>"@,
        "<|im_end|>"@,
        "<think>"@,
        "</think>"@,
        "<tool_call>"@,
        "</tool_call>"@,
        "</function>"@,
        "</parameter>"@,
    ]
}

/// The length of the first tag of `tags` that `s` starts with.
pub open spec fn tag_len(s: Seq<char>, tags: Seq<Seq<char>>) -> Option<int>
    decreases tags.len(),
{
    if tags.len() == 0 {
        None
    } else if starts_with(s, tags[0]) {
        Some(tags[0].len() as int)
    } else {
        tag_len(s, tags.skip(1))
    }
}

/// The length of the opener that `s` starts with: `prefix`, an attribute, and
/// the first `>` after it.
pub open spec fn opener_len(s: Seq<char>, prefix: Seq<char>) -> Option<int> {
    if starts_with(s, prefix) {
        match find(s.skip(prefix.len() as int), seq!['>']) {
            Some(i) => Some(prefix.len() + i + 1),
            None => None,
        }
    } else {
        None
    }
}

/// The length of the markup that `s` starts with: a fixed tag, or a
/// `<function=...>` or `<parameter=...>` opener that is closed.
pub open spec fn markup_len(s: Seq<char>) -> Option<int> {
    match tag_len(s, fixed_tags()) {
        Some(n) => Some(n),
        None => if starts_with(s, "<function="@) {
            opener_len(s, "<function="@)
        } else {
            opener_len(s, "<parameter="@)
        },
    }
}

/// Markup is not empty and lies within the text.
pub proof fn lemma_markup_len(s: Seq<char>)
    ensures
        markup_len(s) matches Some(n) ==> 0 < n <= s.len() && s[0] == '<',
{
    reveal_strlit("<|im_start|>");
    reveal_strlit("<|im_end|>");
    reveal_strlit("<think>");
    reveal_strlit("</think>");
    reveal_strlit("<tool_call>");
    reveal_strlit("</tool_call>");
    reveal_strlit("</function>");
    reveal_strlit("</parameter>");
    reveal_strlit("<function=");
    reveal_strlit("<parameter=");
    let tags = fixed_tags();
    assert forall|k: int| 0 <= k < tags.len() implies (#[trigger] tags[k]).len() > 0 && tags[k][0]
        == '<' by {}
    lemma_tag_len(s, tags);
    if tag_len(s, tags) is None {
        let p = if starts_with(s, "<function="@) {
            "<function="@
        } else {
            "<parameter="@
        };
        lemma_find(s.skip(p.len() as int), seq!['>']);
        if starts_with(s, p) {
            assert(s.subrange(0, p.len() as int)[0] == s[0]);
        }
    }
}

proof fn lemma_tag_len(s: Seq<char>, tags: Seq<Seq<char>>)
    requires
        forall|k: int| 0 <= k < tags.len() ==> (#[trigger] tags[k]).len() > 0 && tags[k][0] == '<',
    ensures
        tag_len(s, tags) matches Some(n) ==> 0 < n <= s.len() && s[0] == '<',
    decreases tags.len(),
{
    if tags.len() > 0 {
        if starts_with(s, tags[0]) {
            assert(s.subrange(0, tags[0].len() as int)[0] == s[0]);
        } else {
            lemma_tag_len(s, tags.skip(1));
        }
    }
}

/// The text without its markup, read from the left.
pub open spec fn stripped(s: Seq<char>) -> Seq<char>
    decreases s.len(),
{
    if s.len() == 0 {
        Seq::empty()
    } else {
        proof {
            lemma_markup_len(s);
        }
        match markup_len(s) {
            Some(n) => stripped(s.skip(n)),
            None => seq![s[0]] + stripped(s.skip(1)),
        }
    }
}

/// Text without `<` holds no markup: in front of a text it stays as it is, its
/// white space included.
pub proof fn law_plain_text_is_kept(plain: Seq<char>, rest: Seq<char>)
    requires
        !plain.contains('<'),
    ensures
        stripped(plain + rest) == plain + stripped(rest),
        stripped(plain) == plain,
    decreases plain.len(),
{
    if plain.len() > 0 {
        let s = plain + rest;
        let tail = plain.skip(1);
        lemma_markup_len(s);
        lemma_markup_len(plain);
        assert(plain.contains(plain[0]));
        assert(markup_len(s) is None);
        assert(markup_len(plain) is None);
        assert(!tail.contains('<')) by {
            if tail.contains('<') {
                let k = choose|k: int| 0 <= k < tail.len() && tail[k] == '<';
                assert(plain[k + 1] == '<');
            }
        }
        law_plain_text_is_kept(tail, rest);
        assert(s.skip(1) =~= tail + rest);
        assert(seq![plain[0]] + (tail + stripped(rest)) =~= plain + stripped(rest));
        assert(seq![plain[0]] + tail =~= plain);
    } else {
        assert(plain + rest =~= rest);
        assert(plain + stripped(rest) =~= stripped(rest));
    }
}

// ---------------------------------------------------------------------------
// Markup that is not complete yet
// ---------------------------------------------------------------------------

/// `s` is the start of `tag`, and not all of it.
pub open spec fn begins(s: Seq<char>, tag: Seq<char>) -> bool {
    s.len() < tag.len() && tag.take(s.len() as int) == s
}

/// More text may turn the start of `s` into markup: `s` is the start of a tag
/// or of an opener, or an opener that is not closed.
pub open spec fn may_become_markup(s: Seq<char>) -> bool {
    &&& s.len() > 0
    &&& {
        ||| exists|k: int| 0 <= k < fixed_tags().len() && begins(s, #[trigger] fixed_tags()[k])
        ||| begins(s, "<function="@)
        ||| begins(s, "<parameter="@)
        ||| starts_with(s, "<function="@)
        ||| starts_with(s, "<parameter="@)
    }
}

/// How much of `s`, read from the left, is markup or text whatever comes after
/// it: everything up to what may become markup.
pub open spec fn settled(s: Seq<char>) -> int
    decreases s.len(),
{
    if s.len() == 0 {
        0
    } else {
        proof {
            lemma_markup_len(s);
        }
        match markup_len(s) {
            Some(n) => n + settled(s.skip(n)),
            None => if may_become_markup(s) {
                0
            } else {
                1 + settled(s.skip(1))
            },
        }
    }
}

/// A closing bracket stands at the end of each tag and nowhere else in it.
pub proof fn lemma_tags_close_once(k: int)
    requires
        0 <= k < fixed_tags().len(),
    ensures
        fixed_tags()[k].len() > 0,
        forall|i: int|
            0 <= i < fixed_tags()[k].len() - 1 ==> #[trigger] fixed_tags()[k][i] != '>',
{
    reveal_strlit("<|im_start|>");
    reveal_strlit("<|im_end|>");
    reveal_strlit("<think>");
    reveal_strlit("</think>");
    reveal_strlit("<tool_call>");
    reveal_strlit("</tool_call>");
    reveal_strlit("</function>");
    reveal_strlit("</parameter>");
}

/// A longer text starts with a tag exactly where the shorter one does, unless
/// the shorter one is the start of the tag.
proof fn lemma_starts(s: Seq<char>, t: Seq<char>, tag: Seq<char>)
    requires
        !begins(s, tag),
    ensures
        starts_with(s + t, tag) == starts_with(s, tag),
{
    if s.len() >= tag.len() {
        assert((s + t).subrange(0, tag.len() as int) =~= s.subrange(0, tag.len() as int));
    } else if starts_with(s + t, tag) {
        assert(tag.take(s.len() as int) =~= s) by {
            assert forall|i: int| 0 <= i < s.len() implies tag[i] == s[i] by {
                assert((s + t).subrange(0, tag.len() as int)[i] == s[i]);
            }
        }
    }
}

proof fn lemma_same_tag_len(a: Seq<char>, b: Seq<char>, tags: Seq<Seq<char>>)
    requires
        forall|k: int|
            0 <= k < tags.len() ==> starts_with(a, #[trigger] tags[k]) == starts_with(b, tags[k]),
    ensures
        tag_len(a, tags) == tag_len(b, tags),
    decreases tags.len(),
{
    if tags.len() > 0 {
        assert(starts_with(a, tags[0]) == starts_with(b, tags[0]));
        assert forall|k: int| 0 <= k < tags.skip(1).len() implies starts_with(
            a,
            #[trigger] tags.skip(1)[k],
        ) == starts_with(b, tags.skip(1)[k]) by {
            assert(tags.skip(1)[k] == tags[k + 1]);
        }
        lemma_same_tag_len(a, b, tags.skip(1));
    }
}

/// The tag that a text starts with is one of the tags.
pub proof fn lemma_tag_found(s: Seq<char>, tags: Seq<Seq<char>>) -> (k: int)
    requires
        tag_len(s, tags) is Some,
    ensures
        0 <= k < tags.len(),
        starts_with(s, tags[k]),
        tag_len(s, tags) == Some(tags[k].len() as int),
    decreases tags.len(),
{
    if starts_with(s, tags[0]) {
        0
    } else {
        let k = lemma_tag_found(s, tags.skip(1));
        k + 1
    }
}

/// A text that holds a closing bracket before its end does not begin a tag.
proof fn lemma_closed_begins_no_tag(s: Seq<char>, i: int, k: int)
    requires
        0 <= k < fixed_tags().len(),
        0 <= i < s.len(),
        s[i] == '>',
    ensures
        !begins(s, fixed_tags()[k]),
{
    let tag = fixed_tags()[k];
    lemma_tags_close_once(k);
    if begins(s, tag) {
        assert(tag.take(s.len() as int)[i] == tag[i]);
    }
}

/// Markup stays markup whatever comes after it.
proof fn lemma_markup_stays(s: Seq<char>, t: Seq<char>)
    requires
        markup_len(s) is Some,
    ensures
        markup_len(s + t) == markup_len(s),
{
    reveal_strlit("<function=");
    reveal_strlit("<parameter=");
    lemma_markup_len(s);
    let tags = fixed_tags();
    let n = markup_len(s)->0;
    assert(s[n - 1] == '>') by {
        if tag_len(s, tags) is Some {
            let k = lemma_tag_found(s, tags);
            lemma_tag_ends(k);
            assert(s.subrange(0, tags[k].len() as int)[n - 1] == s[n - 1]);
        } else {
            let p = if starts_with(s, "<function="@) {
                "<function="@
            } else {
                "<parameter="@
            };
            let rest = s.skip(p.len() as int);
            lemma_find(rest, seq!['>']);
            let i = find(rest, seq!['>'])->0;
            assert(rest.subrange(i, i + 1)[0] == rest[i]);
        }
    }
    assert forall|k: int| 0 <= k < tags.len() implies starts_with(s + t, #[trigger] tags[k])
        == starts_with(s, tags[k]) by {
        lemma_closed_begins_no_tag(s, n - 1, k);
        lemma_starts(s, t, tags[k]);
    }
    lemma_same_tag_len(s + t, s, tags);
    if tag_len(s, tags) is None {
        let f = "<function="@;
        let p = "<parameter="@;
        lemma_starts_opener(s, t, f);
        lemma_starts_opener(s, t, p);
        let prefix = if starts_with(s, f) {
            f
        } else {
            p
        };
        let rest = s.skip(prefix.len() as int);
        lemma_find_append(rest, t, seq!['>']);
        assert((s + t).skip(prefix.len() as int) =~= rest + t);
    }
}

/// A tag ends with a closing bracket.
pub proof fn lemma_tag_ends(k: int)
    requires
        0 <= k < fixed_tags().len(),
    ensures
        fixed_tags()[k].len() > 0,
        fixed_tags()[k].last() == '>',
{
    reveal_strlit("<|im_start|>");
    reveal_strlit("<|im_end|>");
    reveal_strlit("<think>");
    reveal_strlit("</think>");
    reveal_strlit("<tool_call>");
    reveal_strlit("</tool_call>");
    reveal_strlit("</function>");
    reveal_strlit("</parameter>");
}

/// Once a text starts with one of the openers, a longer one starts with the
/// same.
proof fn lemma_starts_opener(s: Seq<char>, t: Seq<char>, opener: Seq<char>)
    requires
        starts_with(s, "<function="@) || starts_with(s, "<parameter="@),
        opener == "<function="@ || opener == "<parameter="@,
    ensures
        starts_with(s + t, opener) == starts_with(s, opener),
{
    reveal_strlit("<function=");
    reveal_strlit("<parameter=");
    if begins(s, opener) {
        if starts_with(s, "<function="@) {
            assert(s.subrange(0, 10)[1] == s[1]);
            assert(opener.take(s.len() as int)[1] == opener[1]);
        } else {
            assert(s.len() >= 11);
        }
    }
    lemma_starts(s, t, opener);
}

/// What is no markup and cannot become any stays none.
proof fn lemma_text_stays(s: Seq<char>, t: Seq<char>)
    requires
        s.len() > 0,
        markup_len(s) is None,
        !may_become_markup(s),
    ensures
        markup_len(s + t) is None,
{
    let tags = fixed_tags();
    assert forall|k: int| 0 <= k < tags.len() implies starts_with(s + t, #[trigger] tags[k])
        == starts_with(s, tags[k]) by {
        lemma_starts(s, t, tags[k]);
    }
    lemma_same_tag_len(s + t, s, tags);
    lemma_starts(s, t, "<function="@);
    lemma_starts(s, t, "<parameter="@);
}

proof fn lemma_tag_len_take(s: Seq<char>, m: int, tags: Seq<Seq<char>>)
    requires
        0 <= m <= s.len(),
    ensures
        tag_len(s, tags) is None ==> tag_len(s.take(m), tags) is None,
        tag_len(s, tags) matches Some(n) ==> n <= m ==> tag_len(s.take(m), tags) == Some(n),
    decreases tags.len(),
{
    if tags.len() > 0 {
        lemma_starts_take(s, m, tags[0]);
        lemma_tag_len_take(s, m, tags.skip(1));
    }
}

proof fn lemma_starts_take(s: Seq<char>, m: int, tag: Seq<char>)
    requires
        0 <= m <= s.len(),
    ensures
        starts_with(s.take(m), tag) == (starts_with(s, tag) && tag.len() <= m),
{
    if tag.len() <= m {
        assert(s.take(m).subrange(0, tag.len() as int) =~= s.subrange(0, tag.len() as int));
    }
}

/// Markup is found in as much of a text as holds it.
proof fn lemma_markup_take(s: Seq<char>, m: int)
    requires
        markup_len(s) is Some,
        markup_len(s)->0 <= m <= s.len(),
    ensures
        markup_len(s.take(m)) == markup_len(s),
{
    lemma_markup_len(s);
    let tags = fixed_tags();
    lemma_tag_len_take(s, m, tags);
    if tag_len(s, tags) is None {
        let f = "<function="@;
        let p = "<parameter="@;
        lemma_starts_take(s, m, f);
        lemma_starts_take(s, m, p);
        let prefix = if starts_with(s, f) {
            f
        } else {
            p
        };
        let close = seq!['>'];
        let rest = s.skip(prefix.len() as int);
        lemma_find(rest, close);
        let i = find(rest, close)->0;
        let part = s.take(m).skip(prefix.len() as int);
        assert(part =~= rest.take(m - prefix.len()));
        assert(part.subrange(i, i + 1) =~= rest.subrange(i, i + 1));
        assert forall|j: int| 0 <= j < i implies !occurs_at(part, close, j) by {
            assert(part.subrange(j, j + 1) =~= rest.subrange(j, j + 1));
            assert(!occurs_at(rest, close, j));
        }
        lemma_find_from_is(part, close, 0, i);
    }
}

/// What is settled is stripped once and for all: the rest is stripped together
/// with whatever comes after it.
pub proof fn lemma_settled(s: Seq<char>, t: Seq<char>)
    ensures
        0 <= settled(s) <= s.len(),
        stripped(s + t) == stripped(s.take(settled(s))) + stripped(s.skip(settled(s)) + t),
    decreases s.len(),
{
    let k = settled(s);
    let empty = Seq::<char>::empty();
    if s.len() == 0 {
        assert(s.take(0) =~= empty);
        assert(s.skip(0) + t =~= s + t);
        assert(stripped(empty) + stripped(s + t) =~= stripped(s + t));
    } else {
        lemma_markup_len(s);
        match markup_len(s) {
            Some(n) => {
                let rest = s.skip(n);
                lemma_settled(rest, t);
                lemma_markup_stays(s, t);
                lemma_markup_take(s, k);
                assert((s + t).skip(n) =~= rest + t);
                assert(s.take(k).skip(n) =~= rest.take(k - n));
                assert(s.skip(k) =~= rest.skip(k - n));
            },
            None => {
                if may_become_markup(s) {
                    assert(s.take(0) =~= empty);
                    assert(s.skip(0) + t =~= s + t);
                    assert(stripped(empty) + stripped(s + t) =~= stripped(s + t));
                } else {
                    let rest = s.skip(1);
                    lemma_settled(rest, t);
                    lemma_text_stays(s, t);
                    let u = s.take(k);
                    assert(u + s.skip(k) =~= s);
                    if markup_len(u) is Some {
                        lemma_markup_stays(u, s.skip(k));
                    }
                    assert((s + t).skip(1) =~= rest + t);
                    assert(u.skip(1) =~= rest.take(k - 1));
                    assert(s.skip(k) =~= rest.skip(k - 1));
                    let a = stripped(rest.take(k - 1));
                    let b = stripped(rest.skip(k - 1) + t);
                    assert(seq![s[0]] + (a + b) =~= (seq![s[0]] + a) + b);
                }
            },
        }
    }
}

/// Whether `s` is the start of `tag`, and not all of it.
fn is_start_of(s: &[char], tag: &str) -> (r: bool)
    ensures
        r == begins(s@, tag@),
{
    let chars = to_chars(tag);
    let n: usize = s.len();
    if n >= chars.len() {
        return false;
    }
    let head = slice_subrange(chars.as_slice(), 0, n);
    assert(head@ == tag@.take(n as int));
    same_chars(s, head)
}

/// Whether more text may turn the start of `s` into markup.
fn is_unsettled(s: &[char]) -> (r: bool)
    ensures
        r == may_become_markup(s@),
{
    if s.len() == 0 {
        return false;
    }
    let tags: [&str; 8] = [
        "<|im_start|>",
        "<|im_end|>",
        "<think>",
        "</think>",
        "<tool_call>",
        "</tool_call>",
        "</function>",
        "</parameter>",
    ];
    let ghost all = fixed_tags();
    for k in 0..8usize
        invariant
            forall|j: int| 0 <= j < 8 ==> (#[trigger] tags@[j])@ == all[j],
            all == fixed_tags(),
            all.len() == 8,
            tags@.len() == 8,
            s@.len() > 0,
            forall|j: int| 0 <= j < k ==> !begins(s@, #[trigger] all[j]),
    {
        assert(tags@[k as int]@ == all[k as int]);
        if is_start_of(s, tags[k]) {
            return true;
        }
    }
    let function = to_chars("<function=");
    let parameter = to_chars("<parameter=");
    is_start_of(s, "<function=") || is_start_of(s, "<parameter=") || stands_at(
        s,
        function.as_slice(),
        0,
    ) || stands_at(s, parameter.as_slice(), 0)
}

/// How much of `s` is markup or text whatever comes after it.
pub fn settled_len(s: &[char]) -> (n: usize)
    ensures
        n == settled(s@),
        n <= s@.len(),
{
    let mut i: usize = 0;
    let end: usize = s.len();
    assert(s@.skip(0) =~= s@);
    while i < end
        invariant
            i <= end == s@.len(),
            settled(s@) == i + settled(s@.skip(i as int)),
        decreases end - i,
    {
        let rest = slice_subrange(s, i, end);
        assert(rest@ == s@.skip(i as int));
        match measure_markup(rest) {
            Some(n) => {
                assert(rest@.skip(n as int) =~= s@.skip(i + n));
                i = i + n;
            },
            None => {
                if is_unsettled(rest) {
                    return i;
                }
                assert(rest@.skip(1) =~= s@.skip(i + 1));
                i = i + 1;
            },
        }
    }
    i
}

// ---------------------------------------------------------------------------
// Stripping
// ---------------------------------------------------------------------------

/// The length of the markup that `s` starts with.
fn measure_markup(s: &[char]) -> (r: Option<usize>)
    ensures
        match r {
            Some(n) => markup_len(s@) == Some(n as int) && 0 < n <= s@.len(),
            None => markup_len(s@) is None,
        },
{
    proof {
        lemma_markup_len(s@);
    }
    let end: usize = s.len();
    let tags: [&str; 8] = [
        "<|im_start|>",
        "<|im_end|>",
        "<think>",
        "</think>",
        "<tool_call>",
        "</tool_call>",
        "</function>",
        "</parameter>",
    ];
    let ghost all = fixed_tags();
    assert(all.skip(0) =~= all);
    for k in 0..8usize
        invariant
            forall|j: int| 0 <= j < 8 ==> (#[trigger] tags@[j])@ == all[j],
            all == fixed_tags(),
            all.len() == 8,
            tags@.len() == 8,
            end == s@.len(),
            tag_len(s@, all) == tag_len(s@, all.skip(k as int)),
            markup_len(s@) matches Some(n) ==> 0 < n <= s@.len(),
    {
        let tag = to_chars(tags[k]);
        assert(all.skip(k as int)[0] == tag@);
        if stands_at(s, tag.as_slice(), 0) {
            return Some(tag.len());
        }
        assert(all.skip(k as int).skip(1) =~= all.skip(k + 1));
    }
    let function = to_chars("<function=");
    let parameter = to_chars("<parameter=");
    let is_function = stands_at(s, function.as_slice(), 0);
    let prefix: &Vec<char> = if is_function {
        &function
    } else {
        &parameter
    };
    if stands_at(s, prefix.as_slice(), 0) {
        let rest = slice_subrange(s, prefix.len(), end);
        assert(rest@ == s@.skip(prefix@.len() as int));
        let close: [char; 1] = ['>'];
        assert(close@ =~= seq!['>']);
        match search(rest, close.as_slice()) {
            Some(i) => Some(prefix.len() + i + 1),
            None => None,
        }
    } else {
        None
    }
}

/// Remove special tokens and tool-call XML markup from a text fragment.
///
/// Handles both fixed tags (`<|im_end|>`, `<think>`, `<tool_call>`, ...) and
/// the attribute-bearing openers of the tool format (`<function=...>`,
/// `<parameter=...>`). What is only the start of a tag stays: a stream of
/// fragments keeps it back, as [`settled_len`] tells, until the rest has come.
pub fn strip_markup(text: &str) -> (r: String)
    ensures
        r@ == stripped(text@),
{
    let chars = to_chars(text);
    let kept = strip_chars(chars.as_slice());
    from_chars(kept.as_slice())
}

fn strip_chars(s: &[char]) -> (out: Vec<char>)
    ensures
        out@ == stripped(s@),
{
    let mut out: Vec<char> = Vec::new();
    let mut i: usize = 0;
    let end: usize = s.len();
    assert(s@.skip(0) =~= s@);
    while i < end
        invariant
            i <= end == s@.len(),
            stripped(s@) == out@ + stripped(s@.skip(i as int)),
        decreases end - i,
    {
        let rest = slice_subrange(s, i, end);
        assert(rest@ == s@.skip(i as int));
        let ghost before = out@;
        match measure_markup(rest) {
            Some(n) => {
                assert(rest@.skip(n as int) =~= s@.skip(i + n));
                i = i + n;
            },
            None => {
                out.push(s[i]);
                proof {
                    let tail = stripped(s@.skip(i + 1));
                    assert(rest@.skip(1) =~= s@.skip(i + 1));
                    assert(before + (seq![rest@[0]] + tail) =~= out@ + tail);
                }
                i = i + 1;
            },
        }
    }
    assert(out@ + stripped(s@.skip(i as int)) =~= out@);
    out
}

// ---------------------------------------------------------------------------
// Streamed fragments
// ---------------------------------------------------------------------------

/// A line feed, a space or a tab.
pub open spec fn is_blank(c: char) -> bool {
    c == '\n' || c == ' ' || c == '\t'
}

/// `s` without the blanks at its start.
pub open spec fn without_blanks_before(s: Seq<char>) -> Seq<char>
    decreases s.len(),
{
    if s.len() > 0 && is_blank(s[0]) {
        without_blanks_before(s.skip(1))
    } else {
        s
    }
}

/// `s` without the blanks at its end.
pub open spec fn without_blanks_after(s: Seq<char>) -> Seq<char>
    decreases s.len(),
{
    if s.len() > 0 && is_blank(s.last()) {
        without_blanks_after(s.drop_last())
    } else {
        s
    }
}

/// A text, or nothing where it is empty.
pub open spec fn unless_empty(s: Seq<char>) -> Option<Seq<char>> {
    if s.len() == 0 {
        None
    } else {
        Some(s)
    }
}

/// The byte offset in a fragment at which its content begins.
pub open spec fn boundary_in(fragment: Seq<char>, sent: nat, start: nat) -> int {
    if start - sent < byte_len(fragment) {
        start - sent
    } else {
        byte_len(fragment) as int
    }
}

/// The reasoning and the content in a fragment that begins at byte `sent` of
/// the whole text, when the content begins at byte `start` of it.
pub open spec fn fragment_parts(fragment: Seq<char>, sent: nat, start: Option<nat>) -> (
    Option<Seq<char>>,
    Seq<char>,
) {
    match start {
        None => (unless_empty(stripped(fragment)), Seq::empty()),
        Some(at) => if at <= sent {
            (None, stripped(fragment))
        } else {
            let k = char_at_byte(fragment, boundary_in(fragment, sent, at));
            (
                unless_empty(without_blanks_after(stripped(fragment.take(k)))),
                without_blanks_before(stripped(fragment.skip(k))),
            )
        },
    }
}

/// Compute `(reasoning, content)` deltas for an incremental streamed fragment.
///
/// * `new_text`: the not-yet-emitted fragment.
/// * `sent_len`: byte offset in the full buffer where `new_text` begins.
/// * `content_start`: byte offset in the full buffer where the content phase
///   begins (immediately after the first `</think>`); `None` while still
///   thinking.
///
/// The boundary is a position in the *full* buffer, not a string search in the
/// fragment, so it stays correct even when `</think>` is split across tokens.
/// Whitespace inside a fragment is preserved; only the edges around the
/// boundary are trimmed. A stray second `</think>` is stripped, not re-split.
pub fn split_stream_chunk(
    new_text: &str,
    sent_len: usize,
    content_start: Option<usize>,
) -> (r: (Option<String>, String))
    requires
        content_start matches Some(at) ==> at > sent_len ==> is_boundary(
            new_text@,
            boundary_in(new_text@, sent_len as nat, at as nat),
        ),
    ensures
        (text_of(r.0), r.1@) == fragment_parts(
            new_text@,
            sent_len as nat,
            match content_start {
                Some(at) => Some(at as nat),
                None => None,
            },
        ),
{
    match content_start {
        None => (non_empty(strip_markup(new_text)), String::new()),
        Some(at) => {
            if at <= sent_len {
                return (None, strip_markup(new_text));
            }
            let total: usize = text_bytes(new_text);
            let wanted: usize = at - sent_len;
            let rel: usize = if wanted < total {
                wanted
            } else {
                total
            };
            let chars = to_chars(new_text);
            let s = chars.as_slice();
            let end: usize = s.len();
            let k: usize = index_at_byte(s, rel);
            let before = strip_chars(slice_subrange(s, 0, k));
            let after = strip_chars(slice_subrange(s, k, end));
            assert(s@.subrange(0, k as int) == s@.take(k as int));
            assert(s@.subrange(k as int, end as int) == s@.skip(k as int));
            (
                non_empty(from_chars(drop_blanks_after(before.as_slice()))),
                from_chars(drop_blanks_before(after.as_slice())),
            )
        },
    }
}

fn non_empty(s: String) -> (r: Option<String>)
    ensures
        text_of(r) == unless_empty(s@),
{
    if s.as_str().is_empty() {
        None
    } else {
        Some(s)
    }
}

fn drop_blanks_after<'a>(s: &'a [char]) -> (r: &'a [char])
    ensures
        r@ == without_blanks_after(s@),
{
    let mut j: usize = s.len();
    assert(s@.take(j as int) =~= s@);
    while j > 0 && (s[j - 1] == '\n' || s[j - 1] == ' ' || s[j - 1] == '\t')
        invariant
            j <= s@.len(),
            without_blanks_after(s@) == without_blanks_after(s@.take(j as int)),
        decreases j,
    {
        assert(s@.take(j as int).drop_last() =~= s@.take(j - 1));
        j = j - 1;
    }
    assert(s@.subrange(0, j as int) == s@.take(j as int));
    slice_subrange(s, 0, j)
}

fn drop_blanks_before<'a>(s: &'a [char]) -> (r: &'a [char])
    ensures
        r@ == without_blanks_before(s@),
{
    let end: usize = s.len();
    let mut i: usize = 0;
    assert(s@.skip(0) =~= s@);
    while i < end && (s[i] == '\n' || s[i] == ' ' || s[i] == '\t')
        invariant
            i <= end == s@.len(),
            without_blanks_before(s@) == without_blanks_before(s@.skip(i as int)),
        decreases end - i,
    {
        assert(s@.skip(i as int).skip(1) =~= s@.skip(i + 1));
        i = i + 1;
    }
    assert(s@.subrange(i as int, end as int) == s@.skip(i as int));
    slice_subrange(s, i, end)
}

} // verus!
