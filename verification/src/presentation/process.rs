//! What the process uses, as the `proc` file system tells it.

use vstd::prelude::*;
use vstd::slice::slice_subrange;

use crate::application::chat::round_trip::{lemma_find_after, lemma_find_char, lemma_no_char};
use crate::number::{decimal, is_digit, lemma_decimal_value, parse_unsigned, unsigned_value};
use crate::text::{
    all_space, contains, find, from_chars, is_space, lemma_find, lemma_trim_is, search, to_chars,
    trim, trimmed,
};

verus! {

/// What comes after the last `c`; everything where there is none.
pub open spec fn after_last(s: Seq<char>, c: char) -> Seq<char>
    decreases s.len(),
{
    if s.len() == 0 || s.last() == c {
        Seq::empty()
    } else {
        after_last(s.drop_last(), c).push(s.last())
    }
}

/// The field with the number `n` of a text in which spaces separate the
/// fields; empty where there are fewer.
pub open spec fn field(s: Seq<char>, n: nat) -> Seq<char>
    decreases n,
{
    match find(s, seq![' ']) {
        Some(i) => if n == 0 {
            s.take(i)
        } else {
            field(s.skip(i + 1), (n - 1) as nat)
        },
        None => if n == 0 {
            s
        } else {
            Seq::empty()
        },
    }
}

/// The number of 64 bits that a text is; zero where it is none.
pub open spec fn number_in(s: Seq<char>) -> nat {
    match unsigned_value(s, 0xffff_ffff_ffff_ffff) {
        Some(n) => n,
        None => 0,
    }
}

/// A number, or the greatest of 64 bits where it is greater.
pub open spec fn saturated(n: nat) -> nat {
    if n <= 0xffff_ffff_ffff_ffff {
        n
    } else {
        0xffff_ffff_ffff_ffff
    }
}

/// The CPU time in `/proc/self/stat`, in milliseconds. Behind the name of the
/// program, which stands in brackets, the time in user mode and the time in
/// kernel mode are the fields 12 and 13, in hundredths of a second.
pub open spec fn stat_cpu_ms(stat: Seq<char>) -> nat {
    let rest = after_last(stat, ')');
    saturated((number_in(field(rest, 12)) + number_in(field(rest, 13))) * 10)
}

/// The resident set size in `/proc/self/status`, in bytes. It is written in
/// kilobytes.
pub open spec fn status_rss_bytes(status: Seq<char>) -> nat {
    match find(status, "VmRSS:"@) {
        Some(i) => saturated(
            number_in(field(trim(status.skip(i + "VmRSS:"@.len())), 0)) * 1024,
        ),
        None => 0,
    }
}

fn tail_after<'a>(s: &'a [char], c: char) -> (r: &'a [char])
    ensures
        r@ == after_last(s@, c),
{
    let end: usize = s.len();
    let mut i: usize = end;
    assert(s@.take(end as int) =~= s@);
    assert(after_last(s@, c) =~= after_last(s@.take(i as int), c) + s@.skip(i as int));
    while i > 0 && s[i - 1] != c
        invariant
            i <= end == s@.len(),
            after_last(s@, c) == after_last(s@.take(i as int), c) + s@.skip(i as int),
        decreases i,
    {
        assert(s@.take(i as int).drop_last() =~= s@.take(i - 1));
        assert(s@.skip(i - 1) =~= seq![s@[i - 1]] + s@.skip(i as int));
        assert(after_last(s@.take(i as int), c) + s@.skip(i as int) =~= after_last(
            s@.take(i - 1),
            c,
        ) + s@.skip(i - 1));
        i = i - 1;
    }
    assert(after_last(s@.take(i as int), c) =~= Seq::<char>::empty());
    let r = slice_subrange(s, i, end);
    assert(r@ =~= after_last(s@, c));
    r
}

fn number_at(s: &[char], n: usize) -> (r: u64)
    ensures
        r == number_in(field(s@, n as nat)),
{
    let space: [char; 1] = [' '];
    assert(space@ =~= seq![' ']);
    let mut rest: &[char] = s;
    let mut k: usize = n;
    loop
        invariant
            space@ == seq![' '],
            field(s@, n as nat) == field(rest@, k as nat),
        decreases k,
    {
        let end: usize = rest.len();
        let ghost from = rest@;
        match search(rest, space.as_slice()) {
            Some(i) => {
                if k == 0 {
                    let part = slice_subrange(rest, 0, i);
                    assert(part@ == from.take(i as int));
                    return read_number(part);
                }
                rest = slice_subrange(rest, i + 1, end);
                assert(rest@ == from.skip(i + 1));
                k = k - 1;
            },
            None => {
                if k == 0 {
                    return read_number(rest);
                }
                return read_number(slice_subrange(rest, 0, 0));
            },
        }
    }
}

fn narrowed(n: u128) -> (r: u64)
    ensures
        r == saturated(n as nat),
{
    if n <= 0xffff_ffff_ffff_ffff {
        n as u64
    } else {
        0xffff_ffff_ffff_ffff
    }
}

fn read_number(s: &[char]) -> (r: u64)
    ensures
        r == number_in(s@),
{
    match parse_unsigned(from_chars(s).as_str(), 0xffff_ffff_ffff_ffff) {
        Some(n) => n,
        None => 0,
    }
}

/// The CPU time in `/proc/self/stat`, in milliseconds.
pub fn cpu_ms(stat: &str) -> (ms: u64)
    ensures
        ms == stat_cpu_ms(stat@),
{
    let chars = to_chars(stat);
    let rest = tail_after(chars.as_slice(), ')');
    let user: u64 = number_at(rest, 12);
    let system: u64 = number_at(rest, 13);
    narrowed((user as u128 + system as u128) * 10)
}

/// The resident set size in `/proc/self/status`, in bytes.
pub fn rss_bytes(status: &str) -> (bytes: u64)
    ensures
        bytes == status_rss_bytes(status@),
{
    let chars = to_chars(status);
    let label = to_chars("VmRSS:");
    let end: usize = chars.len();
    match search(chars.as_slice(), label.as_slice()) {
        Some(i) => {
            let rest = slice_subrange(chars.as_slice(), i + label.len(), end);
            assert(rest@ == status@.skip(i + label@.len()));
            narrowed(number_at(trimmed(rest), 0) as u128 * 1024)
        },
        None => 0,
    }
}

// ---------------------------------------------------------------------------
// What the numbers are
// ---------------------------------------------------------------------------

/// Fields with a space between them.
pub open spec fn spaced(fields: Seq<Seq<char>>) -> Seq<char>
    decreases fields.len(),
{
    if fields.len() == 0 {
        Seq::empty()
    } else if fields.len() == 1 {
        fields[0]
    } else {
        fields[0].push(' ') + spaced(fields.skip(1))
    }
}

proof fn lemma_field(fields: Seq<Seq<char>>, n: nat)
    requires
        n < fields.len(),
        forall|i: int| 0 <= i < fields.len() ==> !(#[trigger] fields[i]).contains(' '),
    ensures
        field(spaced(fields), n) == fields[n as int],
    decreases fields.len(),
{
    let first = fields[0];
    if fields.len() == 1 {
        lemma_no_char(first, ' ');
    } else {
        let rest = spaced(fields.skip(1));
        let s = first.push(' ') + rest;
        lemma_find_char(first, ' ', rest);
        assert(s.take(first.len() as int) =~= first);
        assert(s.skip(first.len() as int + 1) =~= rest);
        if n > 0 {
            assert forall|i: int| 0 <= i < fields.skip(1).len() implies !(
            #[trigger] fields.skip(1)[i]).contains(' ') by {
                assert(fields.skip(1)[i] == fields[i + 1]);
            }
            lemma_field(fields.skip(1), (n - 1) as nat);
        }
    }
}

proof fn lemma_after_last(head: Seq<char>, c: char, tail: Seq<char>)
    requires
        !tail.contains(c),
    ensures
        after_last(head.push(c) + tail, c) == tail,
    decreases tail.len(),
{
    let s = head.push(c) + tail;
    if tail.len() == 0 {
        assert(s.last() == c);
        assert(tail =~= Seq::<char>::empty());
    } else {
        let less = tail.drop_last();
        assert(s.drop_last() =~= head.push(c) + less);
        assert(s.last() == tail.last());
        assert(tail.contains(tail.last()));
        assert(!less.contains(c)) by {
            if less.contains(c) {
                let i = less.index_of(c);
                assert(tail[i] == c);
            }
        }
        lemma_after_last(head, c, less);
        assert(less.push(tail.last()) =~= tail);
    }
}

/// The CPU time is ten milliseconds for each tick in user mode and each tick in
/// kernel mode, which stand in the twelfth and the thirteenth field behind the
/// name of the program, whatever that name is and whatever the other fields
/// hold; it is no more than a number of 64 bits can be.
pub proof fn law_ticks_are_cpu_time(
    head: Seq<char>,
    fields: Seq<Seq<char>>,
    user: nat,
    system: nat,
)
    requires
        fields.len() > 13,
        forall|i: int| 0 <= i < fields.len() ==> !(#[trigger] fields[i]).contains(' '),
        !spaced(fields).contains(')'),
        fields[12] == decimal(user),
        fields[13] == decimal(system),
        user <= u64::MAX,
        system <= u64::MAX,
    ensures
        ({
            let ms = stat_cpu_ms(head.push(')') + spaced(fields));
            &&& 10 * user + 10 * system <= u64::MAX ==> ms == 10 * user + 10 * system
            &&& 10 * user + 10 * system > u64::MAX ==> ms == u64::MAX
        }),
{
    lemma_after_last(head, ')', spaced(fields));
    lemma_field(fields, 12);
    lemma_field(fields, 13);
    lemma_decimal_value(user);
    lemma_decimal_value(system);
}

/// The resident set size is 1024 bytes for each kilobyte that stands behind the
/// first `VmRSS:`, white space aside; without that label it is zero.
pub proof fn law_kilobytes_are_bytes(
    before: Seq<char>,
    space: Seq<char>,
    kilobytes: nat,
    after: Seq<char>,
)
    requires
        !contains(before, "VmRSS:"@),
        all_space(space),
        kilobytes <= u64::MAX,
        after.len() > 0 && !is_space(after.last()),
    ensures
        status_rss_bytes(before) == 0,
        ({
            let bytes = status_rss_bytes(
                before + "VmRSS:"@ + (space + decimal(kilobytes).push(' ') + after),
            );
            &&& 1024 * kilobytes <= u64::MAX ==> bytes == 1024 * kilobytes
            &&& 1024 * kilobytes > u64::MAX ==> bytes == u64::MAX
        }),
{
    reveal_strlit("VmRSS:");
    let label = "VmRSS:"@;
    let digits = decimal(kilobytes);
    let middle = digits.push(' ') + after;
    let rest = space + digits.push(' ') + after;
    let empty = Seq::<char>::empty();
    lemma_find(before, label);
    lemma_find_after(before, label, rest);
    assert((before + label + rest).skip(before.len() as int + label.len()) =~= rest);
    lemma_decimal_value(kilobytes);
    assert(is_digit(digits[0]));
    assert(!is_space(digits[0]));
    assert(middle[0] == digits[0]);
    assert(middle.last() == after.last());
    assert(rest =~= space + middle + empty);
    lemma_trim_is(space, middle, empty);
    assert(!digits.contains(' ')) by {
        if digits.contains(' ') {
            let i = digits.index_of(' ');
            assert(is_digit(digits[i]));
        }
    }
    lemma_find_char(digits, ' ', after);
    assert(middle.take(digits.len() as int) =~= digits);
}

proof fn lemma_field_missing(fields: Seq<Seq<char>>, n: nat)
    requires
        0 < fields.len() <= n,
        forall|i: int| 0 <= i < fields.len() ==> !(#[trigger] fields[i]).contains(' '),
    ensures
        field(spaced(fields), n).len() == 0,
    decreases fields.len(),
{
    let first = fields[0];
    if fields.len() == 1 {
        lemma_no_char(first, ' ');
    } else {
        let rest = spaced(fields.skip(1));
        let s = first.push(' ') + rest;
        lemma_find_char(first, ' ', rest);
        assert(s.skip(first.len() as int + 1) =~= rest);
        assert forall|i: int| 0 <= i < fields.skip(1).len() implies !(
        #[trigger] fields.skip(1)[i]).contains(' ') by {
            assert(fields.skip(1)[i] == fields[i + 1]);
        }
        lemma_field_missing(fields.skip(1), (n - 1) as nat);
    }
}

/// Fields that are missing, or that hold no number, count as zero.
pub proof fn law_missing_ticks_are_zero(head: Seq<char>, fields: Seq<Seq<char>>, user: nat)
    requires
        fields.len() > 0,
        forall|i: int| 0 <= i < fields.len() ==> !(#[trigger] fields[i]).contains(' '),
        !spaced(fields).contains(')'),
        user * 10 <= u64::MAX,
    ensures
        fields.len() <= 12 ==> stat_cpu_ms(head.push(')') + spaced(fields)) == 0,
        fields.len() == 13 && fields[12] == decimal(user) ==> stat_cpu_ms(
            head.push(')') + spaced(fields),
        ) == 10 * user,
{
    lemma_after_last(head, ')', spaced(fields));
    lemma_decimal_value(user);
    if fields.len() <= 12 {
        lemma_field_missing(fields, 12);
    }
    if fields.len() <= 13 {
        lemma_field_missing(fields, 13);
    }
    if fields.len() == 13 {
        lemma_field(fields, 12);
    }
}

} // verus!
