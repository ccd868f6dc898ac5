//! What the plain server does, in words of its requests and answers.

use vstd::prelude::*;

use crate::application::chat::cleaning::lemma_no_tag;
use crate::application::chat::cleaning_laws::{lemma_absent, lemma_removed};
use crate::domain::entity::FinishReason;
use crate::infrastructure::pieces::joined;
use crate::plain::{
    action_of, granted_tokens, message_text, messages_text, next, plain_text, response_view,
    stage_text, started, PlainAction, PlainEvent, PlainMessage, PlainProgress, Stage,
};
use crate::presentation::error::says;
use crate::text::{contains, occurs_at, remove_all, trim};

verus! {

// ---------------------------------------------------------------------------
// The prompt
// ---------------------------------------------------------------------------

/// The prompt holds the messages in their order, each in a frame of its own
/// under its role, with its content unchanged; a role that is not known counts
/// as the user's.
pub proof fn law_message_is_framed(messages: Seq<PlainMessage>, m: PlainMessage)
    ensures
        messages_text(Seq::empty()) == Seq::<char>::empty(),
        ({
            let role = if m.role@ == "system"@ {
                "system"@
            } else if m.role@ == "assistant"@ {
                "assistant"@
            } else {
                "user"@
            };
            messages_text(messages.push(m)) == messages_text(messages) + ("<|im_start|>"@ + role
                + "\n"@ + m.content@ + "<|im_end|>\n"@)
        }),
{
    let f = |x: PlainMessage| message_text(x);
    assert(Seq::<PlainMessage>::empty().map_values(f) =~= Seq::<Seq<char>>::empty());
    assert(messages.push(m).map_values(f) =~= messages.map_values(f).push(message_text(m)));
    assert(messages.push(m).map_values(f).drop_last() =~= messages.map_values(f));
}

/// A request gets what it asks for up to 1024 tokens, and 256 where it does not
/// say.
pub proof fn law_plain_tokens_are_granted(asked: u32)
    ensures
        granted_tokens(Some(asked)) <= asked,
        granted_tokens(Some(asked)) <= 1024,
        granted_tokens(Some(asked)) == asked || granted_tokens(Some(asked)) == 1024,
        granted_tokens(None) == granted_tokens(Some(256)) == 256,
{
}

// ---------------------------------------------------------------------------
// The text
// ---------------------------------------------------------------------------

/// The tags that a plain answer is cleaned of.
pub open spec fn is_cleaned(tag: Seq<char>) -> bool {
    tag == "<|im_end|>"@ || tag == "<|im_start|>"@ || tag == "<think>"@ || tag == "</think>"@
}

spec fn is_closed_tag(tag: Seq<char>) -> bool {
    &&& tag.len() > 1
    &&& tag[0] == '<'
    &&& tag.last() == '>'
    &&& forall|i: int| 0 < i < tag.len() ==> #[trigger] tag[i] != '<'
    &&& forall|i: int| 0 <= i < tag.len() - 1 ==> #[trigger] tag[i] != '>'
}

proof fn lemma_closed_tags()
    ensures
        is_closed_tag("<|im_end|>"@),
        is_closed_tag("<|im_start|>"@),
        is_closed_tag("<think>"@),
        is_closed_tag("</think>"@),
{
    reveal_strlit("<|im_end|>");
    reveal_strlit("<|im_start|>");
    reveal_strlit("<think>");
    reveal_strlit("</think>");
}

/// A text whose only tag is one holds no other.
proof fn lemma_other_tag(a: Seq<char>, tag: Seq<char>, b: Seq<char>, other: Seq<char>)
    requires
        !a.contains('<'),
        !b.contains('<'),
        is_closed_tag(tag),
        is_closed_tag(other),
        tag != other,
    ensures
        !contains(a + tag + b, other),
{
    let s = a + tag + b;
    let n = a.len() as int;
    if contains(s, other) {
        let j = choose|j: int| occurs_at(s, other, j);
        let part = s.subrange(j, j + other.len());
        assert(part == other);
        assert(part[0] == s[j]);
        if j < n {
            assert(a[j] == '<');
        } else if j >= n + tag.len() {
            assert(b[j - n - tag.len()] == '<');
        } else {
            assert(s[j] == tag[j - n]);
            assert(j == n);
        }
        let p: int = tag.len() - 1;
        let q: int = other.len() - 1;
        if q < p {
            assert(part[q] == s[n + q]);
            assert(s[n + q] == tag[q]);
        } else if p < q {
            assert(part[p] == s[n + p]);
            assert(s[n + p] == tag[p]);
        } else {
            assert(tag =~= other) by {
                assert forall|i: int| 0 <= i < tag.len() implies tag[i] == other[i] by {
                    assert(part[i] == s[n + i]);
                    assert(s[n + i] == tag[i]);
                }
            }
        }
    }
}

proof fn lemma_no_bracket(a: Seq<char>, b: Seq<char>)
    requires
        !a.contains('<'),
        !b.contains('<'),
    ensures
        !(a + b).contains('<'),
{
    if (a + b).contains('<') {
        let i = (a + b).index_of('<');
        if i < a.len() {
            assert(a[i] == '<');
        } else {
            assert(b[i - a.len()] == '<');
        }
    }
}

/// Text without brackets comes out trimmed and otherwise unchanged, and each of
/// the four tags is taken out of it.
pub proof fn law_plain_text_is_cleaned(before: Seq<char>, tag: Seq<char>, after: Seq<char>)
    requires
        !before.contains('<'),
        !after.contains('<'),
        is_cleaned(tag),
    ensures
        plain_text(before) == trim(before),
        plain_text(before + tag + after) == trim(before + after),
{
    let e = "<|im_end|>"@;
    let s = "<|im_start|>"@;
    let t = "<think>"@;
    let c = "</think>"@;
    let whole = before + tag + after;
    let rest = before + after;
    lemma_closed_tags();
    lemma_no_bracket(before, after);
    lemma_no_tag(before, e);
    lemma_no_tag(before, s);
    lemma_no_tag(before, t);
    lemma_no_tag(before, c);
    lemma_no_tag(rest, e);
    lemma_no_tag(rest, s);
    lemma_no_tag(rest, t);
    lemma_no_tag(rest, c);
    lemma_no_tag(before, tag);
    lemma_no_tag(after, tag);
    lemma_removed(before, tag, after);
    assert(remove_all(whole, tag) == rest);
    if tag != e {
        lemma_other_tag(before, tag, after, e);
        lemma_absent(whole, e);
        if tag != s {
            lemma_other_tag(before, tag, after, s);
            lemma_absent(whole, s);
            if tag != t {
                lemma_other_tag(before, tag, after, t);
                lemma_absent(whole, t);
            }
        }
    }
}

// ---------------------------------------------------------------------------
// The run
// ---------------------------------------------------------------------------

/// A token that may still be generated and does not end the generation is kept
/// and fed at the position behind all tokens before it; once it was taken the
/// run goes on, or ends where the tokens are used up. A token that ends the
/// generation is not kept. A token that was not taken breaks the run off.
pub proof fn law_plain_token_goes_round(g: PlainProgress, token: i32)
    requires
        g.phase is Sampling,
        g.output.len() < g.max_tokens,
        g.prompt_len + g.output.len() <= i32::MAX,
    ensures
        ({
            let feeding = next(g, PlainEvent::Sampled { token, end: false });
            let fed = next(feeding, PlainEvent::Fed { ok: true });
            let ended = next(g, PlainEvent::Sampled { token, end: true });
            let cut = PlainEvent::Sampled { token, end: false };
            &&& action_of(g) == PlainAction::Sample
            &&& feeding.output == g.output.push(token)
            &&& (action_of(feeding) matches PlainAction::Feed(t, pos) && t == token && pos
                == g.prompt_len + g.output.len())
            &&& fed.output == g.output.push(token)
            &&& fed.output.len() < g.max_tokens ==> action_of(fed) == PlainAction::Sample
            &&& fed.output.len() == g.max_tokens && g.streaming ==> action_of(fed)
                == PlainAction::Finish(FinishReason::Length)
            &&& fed.output.len() == g.max_tokens && !g.streaming ==> next(fed, cut).output
                == fed.output && action_of(next(fed, cut)) == PlainAction::Finish(
                FinishReason::Length,
            )
            &&& ended.output == g.output
            &&& action_of(ended) == PlainAction::Finish(FinishReason::Stop)
            &&& action_of(next(feeding, PlainEvent::Fed { ok: false })) == PlainAction::Fail
        }),
{
}

/// A run that may generate nothing generates nothing: a stream ends before it
/// asks for a token, another run at the first token.
pub proof fn law_no_tokens_no_answer(prompt_len: nat, streaming: bool, token: i32, end: bool)
    ensures
        ({
            let g = started(prompt_len, 0, streaming);
            &&& g.output.len() == 0
            &&& streaming ==> action_of(g) == PlainAction::Finish(FinishReason::Length)
            &&& !streaming ==> action_of(g) == PlainAction::Sample && action_of(
                next(g, PlainEvent::Sampled { token, end }),
            ) == PlainAction::Finish(FinishReason::Length)
        }),
{
}

// ---------------------------------------------------------------------------
// The answer
// ---------------------------------------------------------------------------

/// The answer is one choice, by the assistant: the cleaned text of all pieces,
/// without reasoning and without tool calls. It was cut short exactly where it
/// has as many tokens as were allowed, and the usage counts the prompt, the
/// pieces, and both.
pub proof fn law_plain_answer_is_complete(
    id: Seq<char>,
    created: i64,
    model: Seq<char>,
    prompt_tokens: u32,
    max_tokens: u32,
    pieces: Seq<Seq<char>>,
)
    requires
        prompt_tokens + pieces.len() <= u32::MAX,
    ensures
        ({
            let r = response_view(id, created, model, prompt_tokens, max_tokens, pieces);
            let choice = r.choices[0];
            &&& r.id == id && r.created == created && r.model == model
            &&& r.object == "chat.completion"@
            &&& r.choices.len() == 1
            &&& choice.index == 0
            &&& choice.message.role == "assistant"@
            &&& choice.message.content == Some(plain_text(joined(pieces)))
            &&& choice.message.reasoning_content is None
            &&& choice.message.tool_calls is None
            &&& pieces.len() < max_tokens ==> choice.finish_reason == "stop"@
            &&& pieces.len() >= max_tokens ==> choice.finish_reason == "length"@
            &&& r.usage.prompt_tokens == prompt_tokens
            &&& r.usage.completion_tokens == pieces.len()
            &&& r.usage.total_tokens == prompt_tokens + pieces.len()
            &&& r.usage.duration_ms is None && r.usage.tokens_per_second is None
        }),
{
}

/// A failure is told by its message, after the stage at which it came; a failure
/// to read the prompt by its message alone.
pub proof fn law_failure_tells_stage(message: Seq<char>)
    ensures
        stage_text(Stage::Tokenize) + message == message,
        says(stage_text(Stage::Prefill) + message, "Prefill: "@, message),
        says(stage_text(Stage::Decode) + message, "Decode: "@, message),
{
    let prefill = "Prefill: "@;
    let decode = "Decode: "@;
    assert(Seq::<char>::empty() + message =~= message);
    assert((prefill + message).take(prefill.len() as int) =~= prefill);
    assert((prefill + message).skip(prefill.len() as int) =~= message);
    assert((decode + message).take(decode.len() as int) =~= decode);
    assert((decode + message).skip(decode.len() as int) =~= message);
}

} // verus!
