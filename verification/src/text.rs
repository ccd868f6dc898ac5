//! Text as sequences of characters: searching, trimming, splitting into lines.
//!
//! Every function here states its result over `Seq<char>`, the view of `str`
//! and `String`, so that callers never reason about bytes unless they ask for
//! a byte offset by name.

use vstd::prelude::*;
use vstd::slice::slice_subrange;
use vstd::string::*;
use vstd::utf8::*;

verus! {

// ---------------------------------------------------------------------------
// Conversions between strings and characters
// ---------------------------------------------------------------------------

/// `String::push` of the standard library: appends one character.
pub assume_specification[ String::push ](s: &mut String, c: char)
    ensures
        final(s)@ == old(s)@.push(c),
;

/// The characters of `s`, in order.
pub fn to_chars(s: &str) -> (chars: Vec<char>)
    ensures
        chars@ == s@,
{
    let mut chars: Vec<char> = Vec::new();
    for c in it: s.chars()
        invariant
            chars@ == s@.take(it.index() as int),
            it.seq() == s@,
    {
        chars.push(c);
        assert(s@.take(it.index() + 1) == s@.take(it.index() as int).push(c));
    }
    assert(s@.take(s@.len() as int) == s@);
    chars
}

/// The string made of `chars`, in order.
pub fn from_chars(chars: &[char]) -> (s: String)
    ensures
        s@ == chars@,
{
    let mut s = String::new();
    for i in 0..chars.len()
        invariant
            s@ == chars@.take(i as int),
    {
        s.push(chars[i]);
        assert(chars@.take(i + 1) == chars@.take(i as int).push(chars@[i as int]));
    }
    assert(chars@.take(chars@.len() as int) == chars@);
    s
}

/// The text in an optional string.
pub open spec fn text_of(s: Option<String>) -> Option<Seq<char>> {
    match s {
        Some(t) => Some(t@),
        None => None,
    }
}

/// The texts of the strings of a list.
pub open spec fn texts_of(v: Seq<String>) -> Seq<Seq<char>> {
    v.map_values(|s: String| s@)
}

/// Whether two texts hold the same characters.
pub fn same_text(a: &str, b: &str) -> (r: bool)
    ensures
        r == (a@ == b@),
{
    same_chars(to_chars(a).as_slice(), to_chars(b).as_slice())
}

/// Whether two character slices hold the same characters.
pub fn same_chars(a: &[char], b: &[char]) -> (r: bool)
    ensures
        r == (a@ == b@),
{
    if a.len() != b.len() {
        return false;
    }
    for i in 0..a.len()
        invariant
            a.len() == b.len(),
            forall|j: int| 0 <= j < i ==> a@[j] == b@[j],
    {
        if a[i] != b[i] {
            return false;
        }
    }
    assert(a@ =~= b@);
    true
}

// ---------------------------------------------------------------------------
// Searching
// ---------------------------------------------------------------------------

/// `p` stands in `s` at index `i`.
pub open spec fn occurs_at(s: Seq<char>, p: Seq<char>, i: int) -> bool {
    &&& 0 <= i
    &&& i + p.len() <= s.len()
    &&& s.subrange(i, i + p.len()) == p
}

/// `p` stands somewhere in `s`.
pub open spec fn contains(s: Seq<char>, p: Seq<char>) -> bool {
    exists|i: int| occurs_at(s, p, i)
}

/// The first index not below `from` at which `p` stands in `s`.
pub open spec fn find_from(s: Seq<char>, p: Seq<char>, from: int) -> Option<int>
    decreases s.len() - from + 1,
{
    if from < 0 || from + p.len() > s.len() {
        None
    } else if occurs_at(s, p, from) {
        Some(from)
    } else {
        find_from(s, p, from + 1)
    }
}

/// The first index at which `p` stands in `s`.
pub open spec fn find(s: Seq<char>, p: Seq<char>) -> Option<int> {
    find_from(s, p, 0)
}

/// `find_from` gives the least index at or after `from` where `p` stands.
pub proof fn lemma_find_from(s: Seq<char>, p: Seq<char>, from: int)
    requires
        0 <= from,
    ensures
        find_from(s, p, from) matches Some(i) ==> {
            &&& from <= i
            &&& occurs_at(s, p, i)
            &&& forall|j: int| from <= j < i ==> !occurs_at(s, p, j)
        },
        find_from(s, p, from) is None ==> forall|j: int| from <= j ==> !occurs_at(s, p, j),
    decreases s.len() - from + 1,
{
    if from + p.len() <= s.len() && !occurs_at(s, p, from) {
        lemma_find_from(s, p, from + 1);
    }
}

/// `find` gives the least index where `p` stands, and one exists if and only
/// if `s` contains `p`.
pub proof fn lemma_find(s: Seq<char>, p: Seq<char>)
    ensures
        find(s, p) is Some <==> contains(s, p),
        find(s, p) matches Some(i) ==> {
            &&& occurs_at(s, p, i)
            &&& forall|j: int| 0 <= j < i ==> !occurs_at(s, p, j)
        },
        find(s, p) is None ==> forall|j: int| !occurs_at(s, p, j),
{
    lemma_find_from(s, p, 0);
}

/// The least index where `p` stands is what `find_from` gives.
pub proof fn lemma_find_from_is(s: Seq<char>, p: Seq<char>, from: int, i: int)
    requires
        0 <= from <= i,
        occurs_at(s, p, i),
        forall|j: int| from <= j < i ==> !occurs_at(s, p, j),
    ensures
        find_from(s, p, from) == Some(i),
{
    lemma_find_from(s, p, from);
}

/// What comes after a text does not change where `p` stands first in it.
pub proof fn lemma_find_append(a: Seq<char>, b: Seq<char>, p: Seq<char>)
    requires
        find(a, p) is Some,
    ensures
        find(a + b, p) == find(a, p),
{
    lemma_find(a, p);
    let i = find(a, p)->0;
    assert((a + b).subrange(i, i + p.len()) =~= a.subrange(i, i + p.len()));
    assert forall|j: int| 0 <= j < i implies !occurs_at(a + b, p, j) by {
        assert((a + b).subrange(j, j + p.len()) =~= a.subrange(j, j + p.len()));
        assert(!occurs_at(a, p, j));
    }
    lemma_find_from_is(a + b, p, 0, i);
}

/// Whether `p` stands in `s` at index `i`.
pub fn stands_at(s: &[char], p: &[char], i: usize) -> (r: bool)
    ensures
        r == occurs_at(s@, p@, i as int),
{
    if i > s.len() || s.len() - i < p.len() {
        return false;
    }
    let part = slice_subrange(s, i, i + p.len());
    same_chars(part, p)
}

/// The first index at or after `from` at which `p` stands in `s`.
pub fn search_from(s: &[char], p: &[char], from: usize) -> (r: Option<usize>)
    ensures
        match r {
            Some(i) => find_from(s@, p@, from as int) == Some(i as int),
            None => find_from(s@, p@, from as int) is None,
        },
{
    let mut i: usize = from;
    while i <= s.len() && p.len() <= s.len() - i
        invariant
            from <= i,
            find_from(s@, p@, from as int) == find_from(s@, p@, i as int),
        decreases s@.len() + 1 - i,
    {
        if stands_at(s, p, i) {
            return Some(i);
        }
        proof {
            if i == s@.len() {
                assert(s@.subrange(i as int, i as int) =~= p@);
            }
        }
        i = i + 1;
    }
    None
}

/// The first index at which `p` stands in `s`.
pub fn search(s: &[char], p: &[char]) -> (r: Option<usize>)
    ensures
        match r {
            Some(i) => find(s@, p@) == Some(i as int) && occurs_at(s@, p@, i as int),
            None => find(s@, p@) is None && !contains(s@, p@),
        },
{
    proof {
        lemma_find(s@, p@);
    }
    search_from(s, p, 0)
}

/// `p` stands at the start of `s`.
pub open spec fn starts_with(s: Seq<char>, p: Seq<char>) -> bool {
    occurs_at(s, p, 0)
}

/// `p` stands at the end of `s`.
pub open spec fn ends_with(s: Seq<char>, p: Seq<char>) -> bool {
    occurs_at(s, p, s.len() - p.len())
}

/// Whether `p` stands at the end of `s`.
pub fn has_suffix(s: &[char], p: &[char]) -> (r: bool)
    ensures
        r == ends_with(s@, p@),
{
    if s.len() < p.len() {
        return false;
    }
    stands_at(s, p, s.len() - p.len())
}

// ---------------------------------------------------------------------------
// Removing and counting
// ---------------------------------------------------------------------------

/// `s` without the occurrences of `p`, taken from the left and not overlapping.
pub open spec fn remove_all(s: Seq<char>, p: Seq<char>) -> Seq<char>
    decreases s.len(),
{
    if p.len() == 0 {
        s
    } else {
        proof {
            lemma_find(s, p);
        }
        match find(s, p) {
            None => s,
            Some(i) => s.take(i) + remove_all(s.skip(i + p.len()), p),
        }
    }
}

/// How many occurrences of `p` there are in `s`, taken from the left and not
/// overlapping.
pub open spec fn count_matches(s: Seq<char>, p: Seq<char>) -> nat
    decreases s.len(),
{
    if p.len() == 0 {
        0
    } else {
        proof {
            lemma_find(s, p);
        }
        match find(s, p) {
            None => 0,
            Some(i) => 1 + count_matches(s.skip(i + p.len()), p),
        }
    }
}

/// Appends `part` to `out`.
pub fn extend_chars(out: &mut Vec<char>, part: &[char])
    ensures
        final(out)@ == old(out)@ + part@,
{
    let ghost before = out@;
    for i in 0..part.len()
        invariant
            out@ == before + part@.take(i as int),
    {
        out.push(part[i]);
        assert(part@.take(i + 1) == part@.take(i as int).push(part@[i as int]));
        assert(before + part@.take(i + 1) =~= (before + part@.take(i as int)).push(
            part@[i as int],
        ));
    }
    assert(part@.take(part@.len() as int) == part@);
}

/// `s` without the occurrences of `p`.
pub fn without(s: &[char], p: &str) -> (r: Vec<char>)
    requires
        p@.len() > 0,
    ensures
        r@ == remove_all(s@, p@),
{
    let pat = to_chars(p);
    let mut out: Vec<char> = Vec::new();
    let mut rest: &[char] = s;
    loop
        invariant
            pat@ == p@,
            p@.len() > 0,
            remove_all(s@, p@) == out@ + remove_all(rest@, p@),
        decreases rest@.len(),
    {
        match search(rest, pat.as_slice()) {
            None => {
                extend_chars(&mut out, rest);
                return out;
            },
            Some(i) => {
                let ghost before = out@;
                let ghost from = rest@;
                extend_chars(&mut out, slice_subrange(rest, 0, i));
                let end: usize = rest.len();
                rest = slice_subrange(rest, i + pat.len(), end);
                assert(from.take(i as int) == from.subrange(0, i as int));
                assert(rest@ == from.skip(i + p@.len()));
                assert(before + (from.take(i as int) + remove_all(rest@, p@)) =~= out@
                    + remove_all(rest@, p@));
            },
        }
    }
}

/// How many times `p` stands in `s`, not overlapping.
pub fn occurrences(s: &[char], p: &str) -> (n: usize)
    requires
        p@.len() > 0,
    ensures
        n == count_matches(s@, p@),
{
    let pat = to_chars(p);
    let mut n: usize = 0;
    let total: usize = s.len();
    let mut rest: &[char] = s;
    loop
        invariant
            pat@ == p@,
            p@.len() > 0,
            count_matches(s@, p@) == n + count_matches(rest@, p@),
            n + rest@.len() <= total,
        decreases rest@.len(),
    {
        match search(rest, pat.as_slice()) {
            None => {
                return n;
            },
            Some(i) => {
                let ghost from = rest@;
                let end: usize = rest.len();
                rest = slice_subrange(rest, i + pat.len(), end);
                assert(rest@ == from.skip(i + p@.len()));
                n = n + 1;
            },
        }
    }
}

// ---------------------------------------------------------------------------
// Whitespace
// ---------------------------------------------------------------------------

/// The characters with the Unicode property `White_Space`.
pub open spec fn is_space(c: char) -> bool {
    let u = c as u32;
    ||| 0x09 <= u <= 0x0d
    ||| u == 0x20
    ||| u == 0x85
    ||| u == 0xa0
    ||| u == 0x1680
    ||| 0x2000 <= u <= 0x200a
    ||| u == 0x2028
    ||| u == 0x2029
    ||| u == 0x202f
    ||| u == 0x205f
    ||| u == 0x3000
}

/// Whether `c` has the Unicode property `White_Space`.
pub fn is_whitespace(c: char) -> (r: bool)
    ensures
        r == is_space(c),
{
    let u: u32 = c as u32;
    (0x09 <= u && u <= 0x0d) || u == 0x20 || u == 0x85 || u == 0xa0 || u == 0x1680 || (0x2000 <= u
        && u <= 0x200a) || u == 0x2028 || u == 0x2029 || u == 0x202f || u == 0x205f || u == 0x3000
}

/// `s` without its leading white space.
pub open spec fn trim_start(s: Seq<char>) -> Seq<char>
    decreases s.len(),
{
    if s.len() > 0 && is_space(s[0]) {
        trim_start(s.skip(1))
    } else {
        s
    }
}

/// `s` without its trailing white space.
pub open spec fn trim_end(s: Seq<char>) -> Seq<char>
    decreases s.len(),
{
    if s.len() > 0 && is_space(s.last()) {
        trim_end(s.drop_last())
    } else {
        s
    }
}

/// `s` without white space at either end.
pub open spec fn trim(s: Seq<char>) -> Seq<char> {
    trim_end(trim_start(s))
}

/// `s` neither starts nor ends with white space.
pub open spec fn is_trimmed(s: Seq<char>) -> bool {
    s.len() > 0 ==> !is_space(s[0]) && !is_space(s.last())
}

/// A trimmed text is its own trimming.
pub proof fn lemma_trim_trimmed(s: Seq<char>)
    requires
        is_trimmed(s),
    ensures
        trim(s) == s,
{
}

/// Trimming yields a trimmed stretch of the text.
pub proof fn lemma_trim(s: Seq<char>)
    ensures
        is_trimmed(trim(s)),
        trim(s).len() <= s.len(),
        exists|i: int, j: int| 0 <= i <= j <= s.len() && trim(s) == s.subrange(i, j),
{
    let t = trim_start(s);
    lemma_trim_start(s);
    lemma_trim_end(t);
    let e = trim_end(t);
    let i = s.len() - t.len();
    assert(e =~= s.subrange(i, i + e.len()));
}

proof fn lemma_trim_start(s: Seq<char>)
    ensures
        trim_start(s).len() <= s.len(),
        trim_start(s) == s.skip(s.len() - trim_start(s).len()),
        trim_start(s).len() > 0 ==> !is_space(trim_start(s)[0]),
    decreases s.len(),
{
    if s.len() > 0 && is_space(s[0]) {
        lemma_trim_start(s.skip(1));
        assert(trim_start(s) =~= s.skip(s.len() - trim_start(s).len()));
    } else {
        assert(s.skip(0) =~= s);
    }
}

proof fn lemma_trim_end(s: Seq<char>)
    ensures
        trim_end(s).len() <= s.len(),
        trim_end(s) == s.take(trim_end(s).len() as int),
        trim_end(s).len() > 0 ==> !is_space(trim_end(s).last()),
    decreases s.len(),
{
    if s.len() > 0 && is_space(s.last()) {
        lemma_trim_end(s.drop_last());
        assert(trim_end(s) =~= s.take(trim_end(s).len() as int));
    } else {
        assert(s.take(s.len() as int) =~= s);
    }
}

/// Every character is white space.
pub open spec fn all_space(s: Seq<char>) -> bool {
    forall|i: int| 0 <= i < s.len() ==> is_space(#[trigger] s[i])
}

/// What trimming cuts off is white space.
pub proof fn lemma_trim_start_cuts_space(s: Seq<char>)
    ensures
        ({
            let n = s.len() - trim_start(s).len();
            &&& 0 <= n
            &&& all_space(s.take(n))
            &&& s == s.take(n) + trim_start(s)
        }),
        trim_start(s).len() > 0 ==> !is_space(trim_start(s)[0]),
    decreases s.len(),
{
    lemma_trim_start(s);
    let n = s.len() - trim_start(s).len();
    assert(s =~= s.take(n) + s.skip(n));
    if s.len() > 0 && is_space(s[0]) {
        lemma_trim_start_cuts_space(s.skip(1));
        assert forall|i: int| 0 <= i < n implies is_space(#[trigger] s.take(n)[i]) by {
            if i > 0 {
                assert(s.skip(1).take(n - 1)[i - 1] == s[i]);
            }
        }
    }
}

/// What trimming cuts off is white space.
pub proof fn lemma_trim_end_cuts_space(s: Seq<char>)
    ensures
        trim_end(s).len() <= s.len(),
        all_space(s.skip(trim_end(s).len() as int)),
        s == trim_end(s) + s.skip(trim_end(s).len() as int),
        trim_end(s).len() > 0 ==> !is_space(trim_end(s).last()),
    decreases s.len(),
{
    lemma_trim_end(s);
    let n = trim_end(s).len() as int;
    assert(s =~= s.take(n) + s.skip(n));
    if s.len() > 0 && is_space(s.last()) {
        lemma_trim_end_cuts_space(s.drop_last());
        assert forall|i: int| 0 <= i < s.len() - n implies is_space(#[trigger] s.skip(n)[i]) by {
            if i < s.len() - n - 1 {
                assert(s.drop_last().skip(n)[i] == s[i + n]);
            }
        }
    }
}

/// A trimmed text between white space is what trimming leaves.
pub proof fn lemma_trim_is(before: Seq<char>, middle: Seq<char>, after: Seq<char>)
    requires
        all_space(before),
        is_trimmed(middle),
        all_space(after),
    ensures
        trim(before + middle + after) == middle,
{
    assert(before + middle + after =~= before + (middle + after));
    lemma_trim_start_skips(before, middle + after);
    if middle.len() > 0 {
        assert((middle + after)[0] == middle[0]);
        lemma_trim_end_skips(middle, after);
    } else {
        assert(middle + after =~= after);
        lemma_trim_start_skips(after, middle);
        assert(after + middle =~= after);
        assert(trim_start(middle) == middle);
    }
}

/// White space in front of a text is skipped.
pub proof fn lemma_trim_start_skips(before: Seq<char>, s: Seq<char>)
    requires
        all_space(before),
    ensures
        trim_start(before + s) == trim_start(s),
    decreases before.len(),
{
    if before.len() == 0 {
        assert(before + s =~= s);
    } else {
        assert((before + s)[0] == before[0]);
        assert((before + s).skip(1) =~= before.skip(1) + s);
        assert(all_space(before.skip(1)));
        lemma_trim_start_skips(before.skip(1), s);
    }
}

proof fn lemma_trim_end_skips(s: Seq<char>, after: Seq<char>)
    requires
        all_space(after),
    ensures
        trim_end(s + after) == trim_end(s),
    decreases after.len(),
{
    if after.len() == 0 {
        assert(s + after =~= s);
    } else {
        assert((s + after).last() == after.last());
        assert((s + after).drop_last() =~= s + after.drop_last());
        assert(all_space(after.drop_last()));
        lemma_trim_end_skips(s, after.drop_last());
    }
}

/// White space around a text does not change its trimming.
pub proof fn lemma_trim_ignores_space(before: Seq<char>, s: Seq<char>, after: Seq<char>)
    requires
        all_space(before),
        all_space(after),
    ensures
        trim(before + s + after) == trim(s),
{
    let t = trim_start(s);
    let m = trim_end(t);
    lemma_trim_start_cuts_space(s);
    lemma_trim_end_cuts_space(t);
    lemma_trim(s);
    let w1 = s.take(s.len() - t.len());
    let w2 = t.skip(m.len() as int);
    assert(before + s + after =~= (before + w1) + m + (w2 + after));
    assert(all_space(before + w1));
    assert(all_space(w2 + after));
    lemma_trim_is(before + w1, m, w2 + after);
}

/// The stretch of `s` without white space at either end.
pub fn trimmed<'a>(s: &'a [char]) -> (r: &'a [char])
    ensures
        r@ == trim(s@),
        r@.len() <= s@.len(),
{
    let end: usize = s.len();
    let mut i: usize = 0;
    assert(s@.skip(0) =~= s@);
    while i < end && is_whitespace(s[i])
        invariant
            end == s@.len(),
            i <= end,
            trim_start(s@) == trim_start(s@.skip(i as int)),
        decreases end - i,
    {
        assert(s@.skip(i as int).skip(1) =~= s@.skip(i + 1));
        i = i + 1;
    }
    let ghost t = trim_start(s@);
    assert(t == s@.skip(i as int));
    let mut j: usize = end;
    assert(s@.subrange(i as int, j as int) =~= t);
    while i < j && is_whitespace(s[j - 1])
        invariant
            end == s@.len(),
            i <= j <= end,
            trim_end(t) == trim_end(s@.subrange(i as int, j as int)),
        decreases j,
    {
        assert(s@.subrange(i as int, j as int).drop_last() =~= s@.subrange(i as int, j - 1));
        j = j - 1;
    }
    slice_subrange(s, i, j)
}

/// `s` without the copies of `p` that stand one after the other at its start.
pub open spec fn trim_start_matches(s: Seq<char>, p: Seq<char>) -> Seq<char>
    decreases s.len(),
{
    if p.len() > 0 && starts_with(s, p) {
        trim_start_matches(s.skip(p.len() as int), p)
    } else {
        s
    }
}

/// The stretch of `s` after the copies of `p` at its start.
pub fn after_leading<'a>(s: &'a [char], p: &str) -> (r: &'a [char])
    requires
        p@.len() > 0,
    ensures
        r@ == trim_start_matches(s@, p@),
{
    let pat = to_chars(p);
    let mut rest: &'a [char] = s;
    while stands_at(rest, pat.as_slice(), 0)
        invariant
            pat@ == p@,
            p@.len() > 0,
            trim_start_matches(s@, p@) == trim_start_matches(rest@, p@),
        decreases rest@.len(),
    {
        let ghost from = rest@;
        let end: usize = rest.len();
        rest = slice_subrange(rest, pat.len(), end);
        assert(rest@ == from.skip(p@.len() as int));
    }
    rest
}

// ---------------------------------------------------------------------------
// Lines
// ---------------------------------------------------------------------------

/// A line's text when it is ended by a line feed: without a carriage return at
/// its end.
pub open spec fn without_return(line: Seq<char>) -> Seq<char> {
    if line.len() > 0 && line.last() == '\r' {
        line.drop_last()
    } else {
        line
    }
}

/// The lines of `s`. A line ends with a line feed, or a carriage return and a
/// line feed, or at the end of the text; an empty last line does not count.
pub open spec fn lines(s: Seq<char>) -> Seq<Seq<char>>
    decreases s.len(),
{
    if s.len() == 0 {
        Seq::empty()
    } else {
        proof {
            lemma_find(s, seq!['\n']);
        }
        match find(s, seq!['\n']) {
            None => seq![s],
            Some(i) => seq![without_return(s.take(i))] + lines(s.skip(i + 1)),
        }
    }
}

/// The lines of `s`, as stretches of it.
pub fn split_lines<'a>(s: &'a [char]) -> (r: Vec<&'a [char]>)
    ensures
        r@.map_values(|l: &[char]| l@) == lines(s@),
{
    let mut out: Vec<&'a [char]> = Vec::new();
    let mut rest: &'a [char] = s;
    let feed: [char; 1] = ['\n'];
    assert(feed@ =~= seq!['\n']);
    let ghost f = |l: &[char]| l@;
    assert(out@.map_values(f) + lines(rest@) =~= lines(s@));
    while rest.len() > 0
        invariant
            feed@ == seq!['\n'],
            f == (|l: &[char]| l@),
            out@.map_values(f) + lines(rest@) == lines(s@),
        decreases rest@.len(),
    {
        let end: usize = rest.len();
        let ghost from = rest@;
        let ghost before = out@;
        match search(rest, feed.as_slice()) {
            None => {
                out.push(rest);
                assert(out@.map_values(f) =~= before.map_values(f) + seq![from]);
                return out;
            },
            Some(i) => {
                let mut stop: usize = i;
                if i > 0 && rest[i - 1] == '\r' {
                    stop = i - 1;
                }
                let line = slice_subrange(rest, 0, stop);
                out.push(line);
                rest = slice_subrange(rest, i + 1, end);
                proof {
                    assert(line@ =~= without_return(from.take(i as int)));
                    assert(rest@ == from.skip(i + 1));
                    assert(out@.map_values(f) =~= before.map_values(f).push(line@));
                    assert(before.map_values(f) + (seq![line@] + lines(rest@)) =~= out@.map_values(
                        f,
                    ) + lines(rest@));
                }
            },
        }
    }
    assert(out@.map_values(f) + lines(rest@) =~= out@.map_values(f));
    out
}

// ---------------------------------------------------------------------------
// Byte offsets
// ---------------------------------------------------------------------------

/// How many bytes `c` takes in UTF-8.
pub open spec fn char_width(c: char) -> nat {
    let u = c as u32;
    if u < 0x80 {
        1
    } else if u < 0x800 {
        2
    } else if u < 0x10000 {
        3
    } else {
        4
    }
}

/// How many bytes `s` takes in UTF-8.
pub open spec fn byte_len(s: Seq<char>) -> nat
    decreases s.len(),
{
    if s.len() == 0 {
        0
    } else {
        byte_len(s.drop_last()) + char_width(s.last())
    }
}

/// The byte lengths of two texts add up when the texts are joined.
pub proof fn lemma_byte_len_add(a: Seq<char>, b: Seq<char>)
    ensures
        byte_len(a + b) == byte_len(a) + byte_len(b),
    decreases b.len(),
{
    if b.len() == 0 {
        assert(a + b =~= a);
    } else {
        assert((a + b).drop_last() =~= a + b.drop_last());
        lemma_byte_len_add(a, b.drop_last());
    }
}

/// A text has at least one byte for each character.
pub proof fn lemma_byte_len_at_least(s: Seq<char>)
    ensures
        s.len() <= byte_len(s),
    decreases s.len(),
{
    if s.len() > 0 {
        lemma_byte_len_at_least(s.drop_last());
    }
}

/// `byte_len` is the length of the UTF-8 encoding.
pub proof fn lemma_byte_len_utf8(s: Seq<char>)
    ensures
        byte_len(s) == encode_utf8(s).len(),
    decreases s.len(),
{
    if s.len() > 0 {
        let first = s.take(1);
        lemma_byte_len_utf8(s.drop_first());
        char_is_scalar(s[0]);
        assert(first.drop_last() =~= Seq::<char>::empty());
        assert(byte_len(first.drop_last()) == 0);
        assert(first.last() == s[0]);
        assert(byte_len(first) == char_width(s[0]));
        assert(s =~= first + s.drop_first());
        lemma_byte_len_add(first, s.drop_first());
    }
}

/// How many bytes `c` takes in UTF-8.
pub fn width(c: char) -> (n: usize)
    ensures
        n == char_width(c),
{
    let u: u32 = c as u32;
    if u < 0x80 {
        1
    } else if u < 0x800 {
        2
    } else if u < 0x10000 {
        3
    } else {
        4
    }
}

/// How many bytes `s` takes in UTF-8.
pub fn text_bytes(s: &str) -> (n: usize)
    ensures
        n == byte_len(s@),
{
    proof {
        lemma_byte_len_utf8(s@);
    }
    s.as_bytes().len()
}

/// `n` is the byte offset of the character at index `k` of `s`.
pub open spec fn is_offset(s: Seq<char>, n: int, k: int) -> bool {
    &&& 0 <= k <= s.len()
    &&& byte_len(s.take(k)) == n
}

/// `n` is the byte offset of some character of `s`, or of its end.
pub open spec fn is_boundary(s: Seq<char>, n: int) -> bool {
    exists|k: int| is_offset(s, n, k)
}

/// The index of the character of `s` that starts at byte `n`.
pub open spec fn char_at_byte(s: Seq<char>, n: int) -> int {
    choose|k: int| is_offset(s, n, k)
}

/// No two characters start at the same byte.
pub proof fn lemma_offset_unique(s: Seq<char>, n: int, k: int)
    requires
        is_offset(s, n, k),
    ensures
        is_boundary(s, n),
        char_at_byte(s, n) == k,
{
    let m = char_at_byte(s, n);
    assert(is_offset(s, n, m));
    if m < k {
        lemma_offsets_grow(s, m, k);
    } else if k < m {
        lemma_offsets_grow(s, k, m);
    }
}

/// Later characters start at later bytes.
pub proof fn lemma_offsets_grow(s: Seq<char>, k: int, m: int)
    requires
        0 <= k <= m <= s.len(),
    ensures
        byte_len(s.take(k)) + (m - k) <= byte_len(s.take(m)),
{
    assert(s.take(m) =~= s.take(k) + s.subrange(k, m));
    lemma_byte_len_add(s.take(k), s.subrange(k, m));
    lemma_byte_len_at_least(s.subrange(k, m));
}

/// The index of the character of `s` that starts at byte `n`.
pub fn index_at_byte(s: &[char], n: usize) -> (k: usize)
    requires
        is_boundary(s@, n as int),
    ensures
        is_offset(s@, n as int, k as int),
        k == char_at_byte(s@, n as int),
{
    let mut bytes: usize = 0;
    let mut k: usize = 0;
    let end: usize = s.len();
    let ghost m = char_at_byte(s@, n as int);
    assert(is_offset(s@, n as int, m));
    assert(s@.take(0) =~= Seq::<char>::empty());
    while bytes < n
        invariant
            end == s@.len(),
            0 <= k <= m <= end,
            is_offset(s@, n as int, m),
            is_offset(s@, bytes as int, k as int),
            bytes <= n,
        decreases end - k,
    {
        proof {
            if k == m {
                assert(false);
            }
            lemma_offsets_grow(s@, k + 1, m);
            assert(s@.take(k + 1).drop_last() =~= s@.take(k as int));
            assert(byte_len(s@.take(k + 1)) == bytes + char_width(s@[k as int]));
        }
        bytes = bytes + width(s[k]);
        k = k + 1;
    }
    proof {
        lemma_offset_unique(s@, n as int, k as int);
    }
    k
}

} // verus!
