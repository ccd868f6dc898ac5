//! Authentication.
//!
//! Checks for a valid Bearer token in the Authorization header. Only applied
//! to routes that require authentication.

use vstd::prelude::*;

use super::error::AppError;
use super::metrics::{count_error, count_request, Metrics};
use crate::json::{entries_text, escaped, escaped_text, json_text, quoted, Json};
use crate::text::{ends_with, same_text, starts_with};

verus! {

/// The body that a refused request is answered with.
pub const UNAUTHORIZED_BODY: &'static str =
    "{\"error\":\"unauthorized\",\"message\":\"Invalid API key\"}";

/// A request that is refused: the status code and the body of the answer.
pub struct Refusal {
    pub status: u16,
    pub body: String,
}

/// A route that requires authentication. The others are public.
pub open spec fn is_protected(path: Seq<char>) -> bool {
    path == "/v1/chat/completions"@
}

/// The header gives access: the key as a Bearer token, or the bare key. An
/// empty key gives access to everyone.
pub open spec fn grants_access(api_key: Seq<char>, header: Seq<char>) -> bool {
    api_key.len() == 0 || header == "Bearer "@ + api_key || header == api_key
}

/// The header as it counts: one that is missing counts as empty.
pub open spec fn header_text(header: Option<String>) -> Seq<char> {
    match header {
        Some(h) => h@,
        None => Seq::empty(),
    }
}

/// Check the Authorization header against the key.
///
/// If the key is empty, authentication is disabled and all requests pass. If
/// set, a request without a matching token is refused.
pub fn check_auth(api_key: &str, header: &Option<String>) -> (r: Result<(), Refusal>)
    ensures
        r is Ok <==> grants_access(api_key@, header_text(*header)),
        r matches Err(refusal) ==> refusal.status == 401 && refusal.body@ == UNAUTHORIZED_BODY@,
{
    if api_key.is_empty() {
        return Ok(());
    }
    let expected = "Bearer ".to_string().concat(api_key);
    let given = match header {
        Some(h) => h.clone(),
        None => String::new(),
    };
    if same_text(given.as_str(), expected.as_str()) || same_text(given.as_str(), api_key) {
        return Ok(());
    }
    Err(Refusal { status: 401, body: UNAUTHORIZED_BODY.to_string() })
}

/// Decide whether a request to a path may go on: a public one always, another
/// one if its header gives access. A request that is refused is counted, and an
/// error with it.
pub fn auth_middleware(
    metrics: &mut Metrics,
    path: &str,
    api_key: &str,
    header: &Option<String>,
) -> (r: Result<(), Refusal>)
    ensures
        *final(metrics) == (if r is Ok {
            *old(metrics)
        } else {
            old(metrics).after_request(false).after_answer(true)
        }),
        r is Ok <==> !is_protected(path@) || grants_access(api_key@, header_text(*header)),
        r matches Err(refusal) ==> refusal.status == 401 && refusal.body@ == UNAUTHORIZED_BODY@,
{
    if same_text(path, "/v1/chat/completions") {
        let r = check_auth(api_key, header);
        if r.is_err() {
            count_request(metrics, false);
            count_error(metrics);
        }
        r
    } else {
        Ok(())
    }
}

/// With a key set, the key gives access as a Bearer token and bare, and a
/// request without a header is refused.
pub proof fn law_key_gives_access(api_key: Seq<char>)
    requires
        api_key.len() > 0,
    ensures
        grants_access(api_key, "Bearer "@ + api_key),
        grants_access(api_key, api_key),
        !grants_access(api_key, header_text(None)),
{
    reveal_strlit("Bearer ");
    assert(("Bearer "@ + api_key).len() > 0);
}

/// A text without quotes, backslashes and control characters stands in JSON
/// as it is.
proof fn lemma_plain_is_unescaped(s: Seq<char>)
    requires
        forall|i: int|
            0 <= i < s.len() ==> {
                &&& #[trigger] s[i] != '"'
                &&& s[i] != '\\'
                &&& s[i] as u32 >= 0x20
            },
    ensures
        escaped_text(s) == s,
    decreases s.len(),
{
    if s.len() > 0 {
        lemma_plain_is_unescaped(s.drop_last());
        assert(escaped(s.last()) == seq![s.last()]);
        assert(s.drop_last() + seq![s.last()] =~= s);
    }
}

/// A refused request is answered as an authentication error is: the body is
/// the JSON object of the error and the message, under the same status.
pub proof fn law_refusal_is_unauthorized_reply()
    ensures
        ({
            let reply = AppError::Unauthorized.reply_view();
            &&& reply.status == 401
            &&& UNAUTHORIZED_BODY@ == json_text(
                Json::Object(
                    seq![
                        ("error"@, Json::Text(reply.error)),
                        ("message"@, Json::Text(reply.message)),
                    ],
                ),
            )
        }),
{
    reveal_strlit("error");
    reveal_strlit("message");
    reveal_strlit("unauthorized");
    reveal_strlit("Invalid API key");
    reveal_strlit("{\"error\":\"unauthorized\",\"message\":\"Invalid API key\"}");
    lemma_plain_is_unescaped("error"@);
    lemma_plain_is_unescaped("message"@);
    lemma_plain_is_unescaped("unauthorized"@);
    lemma_plain_is_unescaped("Invalid API key"@);
    let entries = seq![
        ("error"@, Json::Text("unauthorized"@)),
        ("message"@, Json::Text("Invalid API key"@)),
    ];
    let first = entries.drop_last();
    assert(first.drop_last() =~= Seq::<(Seq<char>, Json)>::empty());
    assert(entries_text(first.drop_last()) =~= Seq::<char>::empty());
    assert(json_text(first.last().1) == quoted("unauthorized"@));
    assert(entries_text(first) =~= quoted("error"@) + seq![':'] + quoted("unauthorized"@));
    assert(json_text(entries.last().1) == quoted("Invalid API key"@));
    assert(entries_text(entries) =~= entries_text(first) + seq![','] + quoted("message"@) + seq![
        ':',
    ] + quoted("Invalid API key"@));
    assert(UNAUTHORIZED_BODY@ =~= json_text(Json::Object(entries)));
}

/// With a key set, nothing but the key gives access: the header is the key, or
/// `Bearer `, with one space, and the key. Without a key everyone has access.
pub proof fn law_nothing_else_gives_access(api_key: Seq<char>, header: Seq<char>)
    ensures
        api_key.len() == 0 ==> grants_access(api_key, header),
        api_key.len() > 0 && grants_access(api_key, header) ==> {
            let n = header.len() - api_key.len();
            &&& n == 0 || n == 7
            &&& header.skip(n) == api_key
            &&& n == 7 ==> header.take(7) == "Bearer "@
        },
{
    reveal_strlit("Bearer ");
    if api_key.len() > 0 && grants_access(api_key, header) {
        if header == api_key {
            assert(header.skip(0) =~= api_key);
        } else {
            assert(header.skip(7) =~= api_key);
            assert(header.take(7) =~= "Bearer "@);
        }
    }
}

/// A header that gives access with one key gives none with another key of the
/// same length.
pub proof fn law_other_key_is_refused(api_key: Seq<char>, other: Seq<char>, header: Seq<char>)
    requires
        api_key.len() == other.len() > 0,
        api_key != other,
        grants_access(api_key, header),
    ensures
        !grants_access(other, header),
{
    law_nothing_else_gives_access(api_key, header);
    if grants_access(other, header) {
        law_nothing_else_gives_access(other, header);
    }
}

/// Only chat completions are protected.
pub proof fn law_other_routes_are_public(path: Seq<char>)
    ensures
        is_protected(path) <==> path.len() == 20 && starts_with(path, "/v1/chat/"@) && ends_with(
            path,
            "completions"@,
        ),
{
    reveal_strlit("/v1/chat/completions");
    reveal_strlit("/v1/chat/");
    reveal_strlit("completions");
    let full = "/v1/chat/completions"@;
    assert(full.subrange(0, 9) =~= "/v1/chat/"@);
    assert(full.subrange(9, 20) =~= "completions"@);
    if path.len() == 20 {
        assert(path =~= path.subrange(0, 9) + path.subrange(9, 20));
        assert(full =~= full.subrange(0, 9) + full.subrange(9, 20));
    }
}

/// A header counts as it is, and one that is missing as empty.
pub proof fn law_header_counts_as_it_is(header: String)
    ensures
        header_text(Some(header)) == header@,
        header_text(None).len() == 0,
{
}

} // verus!
