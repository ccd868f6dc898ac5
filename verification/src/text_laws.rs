//! What the operations on texts do.

use vstd::prelude::*;

use crate::application::chat::round_trip::{lemma_find_after, lemma_find_char, lemma_no_char};
use crate::text::{
    all_space, contains, count_matches, find, is_space, is_trimmed, lemma_find, lemma_trim,
    lemma_trim_end_cuts_space, lemma_trim_start_cuts_space, lines, occurs_at, remove_all, trim,
    trim_end, trim_start,
};

verus! {

/// A line ends at a line feed, and a carriage return before that is no part of
/// it; a text without a line feed is one line, and an empty text none.
pub proof fn law_lines_end_at_feeds(line: Seq<char>, rest: Seq<char>)
    requires
        !line.contains('\n'),
    ensures
        line.len() == 0 || line.last() != '\r' ==> lines(line.push('\n') + rest) == seq![line]
            + lines(rest),
        lines(line.push('\r').push('\n') + rest) == seq![line] + lines(rest),
        line.len() > 0 ==> lines(line) == seq![line],
        lines(Seq::empty()) == Seq::<Seq<char>>::empty(),
{
    let returned = line.push('\r');
    lemma_find_char(line, '\n', rest);
    assert((line.push('\n') + rest).take(line.len() as int) =~= line);
    assert((line.push('\n') + rest).skip(line.len() as int + 1) =~= rest);
    assert(!returned.contains('\n')) by {
        if returned.contains('\n') {
            let i = returned.index_of('\n');
            assert(line[i] == '\n');
        }
    }
    lemma_find_char(returned, '\n', rest);
    assert((returned.push('\n') + rest).take(returned.len() as int) =~= returned);
    assert((returned.push('\n') + rest).skip(returned.len() as int + 1) =~= rest);
    assert(returned.drop_last() =~= line);
    lemma_no_char(line, '\n');
}

/// Trimming cuts white space off at both ends and nothing else, and leaves none
/// there.
pub proof fn law_trimming_cuts_white_space(s: Seq<char>)
    ensures
        exists|before: Seq<char>, after: Seq<char>|
            #![trigger all_space(before), all_space(after)]
            all_space(before) && all_space(after) && s == before + trim(s) + after,
        trim(s).len() > 0 ==> !is_space(trim(s)[0]) && !is_space(trim(s).last()),
{
    let t = trim_start(s);
    let m = trim_end(t);
    lemma_trim(s);
    lemma_trim_start_cuts_space(s);
    lemma_trim_end_cuts_space(t);
    let before = s.take(s.len() - t.len());
    let after = t.skip(m.len() as int);
    assert(s =~= before + trim(s) + after);
    assert(all_space(before) && all_space(after));
    assert(is_trimmed(trim(s)));
}

/// Blanks, tabs and the ends of lines are white space, and so are the spaces
/// beyond ASCII; what prints in ASCII is not.
pub proof fn law_white_space(c: char)
    ensures
        is_space(' ') && is_space('\t') && is_space('\n') && is_space('\r'),
        is_space('\u{b}') && is_space('\u{c}') && is_space('\u{85}') && is_space('\u{a0}'),
        is_space('\u{2003}') && is_space('\u{2028}') && is_space('\u{3000}'),
        0x21 <= c as u32 <= 0x7e ==> !is_space(c),
        c as u32 <= 8 || 0xe <= c as u32 <= 0x1f ==> !is_space(c),
        c as u32 == 0x200b || c as u32 == 0xfeff ==> !is_space(c),
{
}

/// A pattern in which the first character comes once is found where it stands
/// first, is removed there, and is counted there; the text behind it is looked
/// at on its own. A text without it is left as it is.
pub proof fn law_pattern_is_found(before: Seq<char>, p: Seq<char>, after: Seq<char>)
    requires
        p.len() > 0,
        forall|j: int| 0 < j < p.len() ==> #[trigger] p[j] != p[0],
        !contains(before, p),
    ensures
        contains(before + p + after, p),
        find(before + p + after, p) == Some(before.len() as int),
        remove_all(before + p + after, p) == before + remove_all(after, p),
        count_matches(before + p + after, p) == 1 + count_matches(after, p),
        find(before, p) is None,
        remove_all(before, p) == before,
        count_matches(before, p) == 0,
{
    let s = before + p + after;
    lemma_find_after(before, p, after);
    assert(s.take(before.len() as int) =~= before);
    assert(s.skip(before.len() as int + p.len()) =~= after);
    lemma_find(s, p);
    lemma_find(before, p);
    assert(occurs_at(s, p, before.len() as int));
}

} // verus!
