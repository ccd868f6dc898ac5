//! Identifiers and times that the outside world supplies.

use vstd::prelude::*;

use crate::text::{from_chars, to_chars};

verus! {

/// `c` is a lower-case hexadecimal digit.
pub open spec fn is_hex(c: char) -> bool {
    '0' <= c <= '9' || 'a' <= c <= 'f'
}

/// The text of a random (version 4) UUID: 32 lower-case hexadecimal digits in
/// five groups with hyphens between them, the version digit 4 at the head of
/// the third group and the variant at the head of the fourth.
pub open spec fn is_uuid_text(s: Seq<char>) -> bool {
    &&& s.len() == 36
    &&& s[8] == '-' && s[13] == '-' && s[18] == '-' && s[23] == '-'
    &&& forall|i: int|
        0 <= i < 36 && i != 8 && i != 13 && i != 18 && i != 23 ==> is_hex(#[trigger] s[i])
    &&& s[14] == '4'
    &&& s[19] == '8' || s[19] == '9' || s[19] == 'a' || s[19] == 'b'
}

/// `uuid::Uuid::new_v4` and its text: a new random identifier. Which one comes
/// is left to chance; only its form is stated.
#[verifier::external_body]
pub(crate) fn new_uuid_text() -> (s: String)
    ensures
        is_uuid_text(s@),
{
    uuid::Uuid::new_v4().to_string()
}

/// `chrono::Utc::now` and its `timestamp`: the seconds since the start of
/// 1970. Which number comes is left to the clock; nothing is stated of it.
#[verifier::external_body]
pub(crate) fn now_timestamp() -> (t: i64)
{
    chrono::Utc::now().timestamp()
}

/// The text without its hyphens.
pub open spec fn without_hyphens(s: Seq<char>) -> Seq<char> {
    s.filter(|c: char| c != '-')
}

/// The identifier of the tool call that was given the UUID `uuid`.
pub fn tool_call_id(uuid: &str) -> (id: String)
    ensures
        id@ == "call_"@ + without_hyphens(uuid@),
{
    let chars = to_chars(uuid);
    let ghost keep = |c: char| c != '-';
    let mut kept: Vec<char> = Vec::new();
    for i in 0..chars.len()
        invariant
            keep == (|c: char| c != '-'),
            kept@ == chars@.take(i as int).filter(keep),
    {
        assert(chars@.take(i + 1) == chars@.take(i as int).push(chars@[i as int]));
        proof {
            chars@.take(i as int).lemma_filter_push(chars@[i as int], keep);
        }
        if chars[i] != '-' {
            kept.push(chars[i]);
        }
    }
    assert(chars@.take(chars@.len() as int) == chars@);
    "call_".to_string().concat(from_chars(kept.as_slice()).as_str())
}

/// The identifier of the chat completion that was given the UUID `uuid`.
pub fn completion_id(uuid: &str) -> (id: String)
    ensures
        id@ == "chatcmpl-"@ + uuid@,
{
    "chatcmpl-".to_string().concat(uuid)
}

/// `id` is what a chat completion is named by: `chatcmpl-` and a UUID.
pub open spec fn is_completion_id(id: Seq<char>) -> bool {
    &&& id.len() == 45
    &&& id.take(9) == "chatcmpl-"@
    &&& is_uuid_text(id.skip(9))
}

/// A new identifier of a chat completion.
pub fn new_completion_id() -> (id: String)
    ensures
        is_completion_id(id@),
{
    let uuid = new_uuid_text();
    let id = completion_id(uuid.as_str());
    proof {
        reveal_strlit("chatcmpl-");
        assert(id@.take(9) =~= "chatcmpl-"@);
        assert(id@.skip(9) =~= uuid@);
    }
    id
}

/// `id` is what a tool call is named by: `call_` and 32 hexadecimal digits.
pub open spec fn is_tool_call_id(id: Seq<char>) -> bool {
    &&& id.len() == 37
    &&& id.take(5) == "call_"@
    &&& forall|i: int| 5 <= i < 37 ==> is_hex(#[trigger] id[i])
}

/// A tool call that is given a random UUID is named by `call_` and the 32
/// digits of the UUID.
pub proof fn law_tool_call_id(uuid: Seq<char>)
    requires
        is_uuid_text(uuid),
    ensures
        is_tool_call_id("call_"@ + without_hyphens(uuid)),
        without_hyphens(uuid) == uuid.subrange(0, 8) + uuid.subrange(9, 13) + uuid.subrange(14, 18)
            + uuid.subrange(19, 23) + uuid.subrange(24, 36),
{
    reveal_strlit("call_");
    let keep = |c: char| c != '-';
    let dash = seq!['-'];
    let a = uuid.subrange(0, 8);
    let b = uuid.subrange(9, 13);
    let c = uuid.subrange(14, 18);
    let d = uuid.subrange(19, 23);
    let e = uuid.subrange(24, 36);
    assert(uuid =~= a + dash + b + dash + c + dash + d + dash + e);
    assert(dash.filter(keep) =~= Seq::<char>::empty()) by {
        assert(dash.drop_last() =~= Seq::<char>::empty());
        reveal(Seq::filter);
    }
    lemma_keeps_all(a);
    lemma_keeps_all(b);
    lemma_keeps_all(c);
    lemma_keeps_all(d);
    lemma_keeps_all(e);
    Seq::filter_distributes_over_add(a, dash, keep);
    Seq::filter_distributes_over_add(a + dash, b, keep);
    Seq::filter_distributes_over_add(a + dash + b, dash, keep);
    Seq::filter_distributes_over_add(a + dash + b + dash, c, keep);
    Seq::filter_distributes_over_add(a + dash + b + dash + c, dash, keep);
    Seq::filter_distributes_over_add(a + dash + b + dash + c + dash, d, keep);
    Seq::filter_distributes_over_add(a + dash + b + dash + c + dash + d, dash, keep);
    Seq::filter_distributes_over_add(a + dash + b + dash + c + dash + d + dash, e, keep);
    let r = a + b + c + d + e;
    assert(without_hyphens(uuid) =~= r);
    let id = "call_"@ + r;
    assert(id.take(5) =~= "call_"@);
    assert forall|i: int| 5 <= i < 37 implies is_hex(#[trigger] id[i]) by {
        let k = i - 5;
        let j = if k < 8 {
            k
        } else if k < 12 {
            k + 1
        } else if k < 16 {
            k + 2
        } else if k < 20 {
            k + 3
        } else {
            k + 4
        };
        assert(id[i] == r[k]);
        assert(r[k] == uuid[j]);
    }
}

proof fn lemma_keeps_all(s: Seq<char>)
    requires
        forall|i: int| 0 <= i < s.len() ==> #[trigger] s[i] != '-',
    ensures
        s.filter(|c: char| c != '-') == s,
    decreases s.len(),
{
    reveal(Seq::filter);
    if s.len() > 0 {
        lemma_keeps_all(s.drop_last());
        assert(s.drop_last().push(s.last()) =~= s);
    }
}

/// What an identifier looks like: that of a completion is `chatcmpl-` and a UUID
/// of 36 characters, that of a tool call is `call_` and 32 hexadecimal digits
/// without hyphens. No identifier is both.
pub proof fn law_identifiers_have_form(id: Seq<char>, i: int)
    ensures
        is_completion_id(id) ==> id.len() == 45 && id.take(9) == "chatcmpl-"@ && id[17]
            == '-' && id[23] == '4',
        is_tool_call_id(id) ==> id.len() == 37 && id.take(5) == "call_"@,
        is_tool_call_id(id) && 5 <= i < id.len() ==> '0' <= id[i] <= '9' || 'a' <= id[i] <= 'f',
        !(is_completion_id(id) && is_tool_call_id(id)),
{
    if is_completion_id(id) {
        assert(id.skip(9)[8] == id[17]);
        assert(id.skip(9)[14] == id[23]);
    }
}

} // verus!
