//! What a client receives of a stream.

use vstd::prelude::*;

use super::metrics::{counted, Metrics};
use super::streaming::{
    after_piece, calls_delta, chunk_events, closing_chunks, closing_deltas, content_deltas,
    delta_chunks, ends_stream, error_event_json, law_thinking_ends_once, lemma_boundary_in_piece,
    lemma_ready, no_flow, part_deltas, piece_deltas, read_at_end, ready, reasoning_delta,
    role_delta, streamed, think_end, Flow, StreamEventView, DONE,
};
use super::chat::reported_reason;
use crate::application::chat::markup::{
    boundary_in,     fragment_parts, is_blank, lemma_settled, settled, stripped, unless_empty, without_blanks_after, without_blanks_before,
};
use crate::application::chat::markup_laws::{law_only_starts_of_tags_are_kept_back, waits};
use crate::domain::entity::{
    delta_chunk, finish_chunk, usage_chunk, usage_of, SseDeltaView, ToolCallView,
};
use crate::domain::error::LlmError;
use crate::infrastructure::generation::GenerationOutcome;
use crate::infrastructure::pieces::joined;
use crate::json::json_text;
use crate::text::{
    byte_len, char_at_byte, find, lemma_byte_len_add, lemma_find, lemma_offset_unique, is_offset, occurs_at,
};

verus! {

// ---------------------------------------------------------------------------
// Whole streams
// ---------------------------------------------------------------------------

/// What of the pieces was sent and what is kept back.
pub open spec fn flow_after(pieces: Seq<Seq<char>>) -> Flow
    decreases pieces.len(),
{
    if pieces.len() == 0 {
        no_flow()
    } else {
        after_piece(flow_after(pieces.drop_last()), pieces.last())
    }
}

/// The deltas that are sent for pieces that come one after the other.
pub open spec fn stream_deltas(pieces: Seq<Seq<char>>) -> Seq<SseDeltaView>
    decreases pieces.len(),
{
    if pieces.len() == 0 {
        Seq::empty()
    } else {
        stream_deltas(pieces.drop_last()) + piece_deltas(
            flow_after(pieces.drop_last()),
            pieces.last(),
        )
    }
}

/// The deltas of a whole stream, with those at its end.
pub open spec fn all_deltas(pieces: Seq<Seq<char>>, calls: Seq<ToolCallView>) -> Seq<SseDeltaView> {
    stream_deltas(pieces) + closing_deltas(flow_after(pieces), calls)
}

/// The text in an optional text.
pub open spec fn or_nothing(s: Option<Seq<char>>) -> Seq<char> {
    match s {
        Some(t) => t,
        None => Seq::empty(),
    }
}

/// The reasoning that a client has received.
pub open spec fn received_reasoning(deltas: Seq<SseDeltaView>) -> Seq<char> {
    joined(deltas.map_values(|d: SseDeltaView| or_nothing(d.reasoning_content)))
}

/// The content that a client has received.
pub open spec fn received_content(deltas: Seq<SseDeltaView>) -> Seq<char> {
    joined(deltas.map_values(|d: SseDeltaView| or_nothing(d.content)))
}

pub proof fn lemma_joined_add(a: Seq<Seq<char>>, b: Seq<Seq<char>>)
    ensures
        joined(a + b) == joined(a) + joined(b),
    decreases b.len(),
{
    if b.len() == 0 {
        assert(a + b =~= a);
        assert(joined(a) + joined(b) =~= joined(a));
    } else {
        assert((a + b).drop_last() =~= a + b.drop_last());
        lemma_joined_add(a, b.drop_last());
        assert(joined(a) + (joined(b.drop_last()) + b.last()) =~= joined(a) + joined(b.drop_last())
            + b.last());
    }
}

proof fn lemma_joined_one(s: Seq<char>)
    ensures
        joined(seq![s]) == s,
{
    assert(seq![s].drop_last() =~= Seq::<Seq<char>>::empty());
    assert(joined(Seq::<Seq<char>>::empty()) + s =~= s);
}

/// What is received of deltas is what is received of the first, then of the
/// rest.
proof fn lemma_received_add(a: Seq<SseDeltaView>, b: Seq<SseDeltaView>)
    ensures
        received_reasoning(a + b) == received_reasoning(a) + received_reasoning(b),
        received_content(a + b) == received_content(a) + received_content(b),
{
    let f = |d: SseDeltaView| or_nothing(d.reasoning_content);
    let g = |d: SseDeltaView| or_nothing(d.content);
    assert((a + b).map_values(f) =~= a.map_values(f) + b.map_values(f));
    assert((a + b).map_values(g) =~= a.map_values(g) + b.map_values(g));
    lemma_joined_add(a.map_values(f), b.map_values(f));
    lemma_joined_add(a.map_values(g), b.map_values(g));
}

/// What is received of the deltas of a reasoning and a content.
proof fn lemma_received_parts(parts: (Option<Seq<char>>, Seq<char>))
    ensures
        received_reasoning(part_deltas(parts)) == or_nothing(parts.0),
        received_content(part_deltas(parts)) == parts.1,
{
    let f = |d: SseDeltaView| or_nothing(d.reasoning_content);
    let g = |d: SseDeltaView| or_nothing(d.content);
    let a: Seq<SseDeltaView> = match parts.0 {
        Some(r) => seq![reasoning_delta(r)],
        None => seq![],
    };
    let b = content_deltas(parts.1);
    let nothing = Seq::<char>::empty();
    lemma_received_add(a, b);
    lemma_joined_one(nothing);
    match parts.0 {
        Some(r) => {
            assert(a.map_values(f) =~= seq![r]);
            assert(a.map_values(g) =~= seq![nothing]);
            lemma_joined_one(r);
        },
        None => {
            assert(a.map_values(f) =~= Seq::<Seq<char>>::empty());
            assert(a.map_values(g) =~= Seq::<Seq<char>>::empty());
        },
    }
    if parts.1.len() > 0 {
        assert(b.map_values(f) =~= seq![nothing]);
        assert(b.map_values(g) =~= seq![parts.1]);
        lemma_joined_one(parts.1);
    } else {
        assert(b.map_values(f) =~= Seq::<Seq<char>>::empty());
        assert(b.map_values(g) =~= Seq::<Seq<char>>::empty());
    }
    assert(received_reasoning(part_deltas(parts)) =~= or_nothing(parts.0));
    assert(received_content(part_deltas(parts)) =~= parts.1);
}

/// Every character is a blank.
pub open spec fn all_blank(s: Seq<char>) -> bool {
    forall|i: int| 0 <= i < s.len() ==> is_blank(#[trigger] s[i])
}

/// `s` is `whole` up to blanks at its end.
pub open spec fn lacks_blanks_after(s: Seq<char>, whole: Seq<char>) -> bool {
    &&& s.len() <= whole.len()
    &&& whole.take(s.len() as int) == s
    &&& all_blank(whole.skip(s.len() as int))
}

/// `s` is `whole` up to blanks at its start.
pub open spec fn lacks_blanks_before(s: Seq<char>, whole: Seq<char>) -> bool {
    &&& s.len() <= whole.len()
    &&& whole.skip(whole.len() - s.len()) == s
    &&& all_blank(whole.take(whole.len() - s.len()))
}

/// What was sent and what is kept back make up the text, and where the
/// thinking has ended, its end was sent.
pub proof fn law_nothing_is_lost(pieces: Seq<Seq<char>>)
    ensures
        flow_after(pieces).sent + flow_after(pieces).held == joined(pieces),
        think_end(joined(pieces)) matches Some(at) ==> at <= byte_len(flow_after(pieces).sent),
    decreases pieces.len(),
{
    if pieces.len() == 0 {
        let empty = Seq::<char>::empty();
        assert(empty + empty =~= empty);
        lemma_find(empty, "</think>"@);
        reveal_strlit("</think>");
    } else {
        let first = pieces.drop_last();
        let flow = flow_after(first);
        let new = flow.held + pieces.last();
        law_nothing_is_lost(first);
        lemma_ready(flow.sent, new);
        let n = ready(flow.sent, new);
        assert(flow.sent + new.take(n) + new.skip(n) =~= joined(first) + pieces.last());
        assert(flow.sent + new =~= joined(pieces));
        lemma_byte_len_add(flow.sent, new.take(n));
    }
}

/// The deltas of a piece after the thinking has ended are its content alone.
pub proof fn law_content_after_thinking(flow: Flow, piece: Seq<char>)
    requires
        think_end(flow.sent + flow.held) matches Some(at) && at <= byte_len(flow.sent),
    ensures
        piece_deltas(flow, piece) == content_deltas(
            stripped((flow.held + piece).take(settled(flow.held + piece))),
        ),
        ready(flow.sent, flow.held + piece) == settled(flow.held + piece),
{
    law_thinking_ends_once(flow.sent + flow.held, piece);
    assert(flow.sent + flow.held + piece =~= flow.sent + (flow.held + piece));
    let c = content_deltas(stripped((flow.held + piece).take(settled(flow.held + piece))));
    assert(Seq::<SseDeltaView>::empty() + c =~= c);
}

/// While the thinking goes on, what was received and what is kept back, with
/// whatever comes after it, are the stripped text.
proof fn lemma_thinking(pieces: Seq<Seq<char>>, t: Seq<char>)
    requires
        think_end(joined(pieces)) is None,
    ensures
        received_reasoning(stream_deltas(pieces)) + stripped(flow_after(pieces).held + t)
            == stripped(joined(pieces) + t),
        received_content(stream_deltas(pieces)) == Seq::<char>::empty(),
    decreases pieces.len(),
{
    let empty = Seq::<char>::empty();
    if pieces.len() == 0 {
        lemma_received_nothing();
        assert(joined(pieces) + t =~= t);
        assert(empty + t =~= t);
        assert(empty + stripped(t) =~= stripped(t));
    } else {
        let first = pieces.drop_last();
        let piece = pieces.last();
        let flow = flow_after(first);
        let new = flow.held + piece;
        if think_end(joined(first)) is Some {
            law_thinking_ends_once(joined(first), piece);
        }
        law_nothing_is_lost(first);
        assert(flow.sent + new =~= joined(pieces));
        lemma_thinking(first, piece + t);
        lemma_settled(new, t);
        let n = settled(new);
        let parts = fragment_parts(new.take(n), byte_len(flow.sent), think_end(joined(pieces)));
        lemma_received_parts(parts);
        lemma_received_add(stream_deltas(first), piece_deltas(flow, piece));
        assert(or_nothing(parts.0) =~= stripped(new.take(n)));
        assert(flow.held + (piece + t) =~= new + t);
        assert(joined(first) + (piece + t) =~= joined(pieces) + t);
        let r = received_reasoning(stream_deltas(first));
        let a = stripped(new.take(n));
        let b = stripped(new.skip(n) + t);
        assert(r + (a + b) =~= (r + a) + b);
        assert(received_content(stream_deltas(pieces)) =~= empty);
    }
}

proof fn lemma_received_nothing()
    ensures
        received_reasoning(Seq::empty()) == Seq::<char>::empty(),
        received_content(Seq::empty()) == Seq::<char>::empty(),
{
    let f = |d: SseDeltaView| or_nothing(d.reasoning_content);
    let g = |d: SseDeltaView| or_nothing(d.content);
    assert(Seq::<SseDeltaView>::empty().map_values(f) =~= Seq::<Seq<char>>::empty());
    assert(Seq::<SseDeltaView>::empty().map_values(g) =~= Seq::<Seq<char>>::empty());
}

/// The index behind the first `</think>`.
pub open spec fn think_index(text: Seq<char>) -> int {
    find(text, "</think>"@)->0 + "</think>"@.len()
}

/// The piece in which the thinking ends.
#[verifier::rlimit(60)]
#[verifier::spinoff_prover]
proof fn lemma_closing_piece(pieces: Seq<Seq<char>>, t: Seq<char>)
    requires
        pieces.len() > 0,
        think_end(joined(pieces)) is Some,
        think_end(joined(pieces.drop_last())) is None,
    ensures
        ({
            let e = think_index(joined(pieces));
            &&& 0 <= e <= joined(pieces).len()
            &&& lacks_blanks_after(
                received_reasoning(stream_deltas(pieces)),
                stripped(joined(pieces).take(e)),
            )
            &&& lacks_blanks_before(
                received_content(stream_deltas(pieces)) + stripped(flow_after(pieces).held + t),
                stripped(joined(pieces).skip(e) + t),
            )
        }),
{
    reveal_strlit("</think>");
    let tag = "</think>"@;
    let first = pieces.drop_last();
    let piece = pieces.last();
    let flow = flow_after(first);
    let before = joined(first);
    let new = flow.held + piece;
    let text = joined(pieces);
    law_nothing_is_lost(first);
    assert(flow.sent + new =~= text);
    lemma_find(text, tag);
    lemma_find(before, tag);
    let i = find(text, tag)->0;
    let e = think_index(text);
    if e <= before.len() {
        assert(before.subrange(i, e) =~= text.subrange(i, e));
        assert(occurs_at(before, tag, i));
    }
    let b = e - flow.sent.len();
    assert(text.take(e) =~= flow.sent + new.take(b));
    lemma_byte_len_add(flow.sent, new.take(b));
    let at = think_end(text)->0;
    crate::text::lemma_byte_len_at_least(new.take(b));
    assert(at > byte_len(flow.sent));
    lemma_ready(flow.sent, new);
    lemma_boundary_in_piece(flow.sent, new);
    let rel = at - byte_len(flow.sent);
    assert(is_offset(new, rel, b));
    lemma_offset_unique(new, rel, b);
    let after = new.skip(b);
    let m = settled(after);
    let n = ready(flow.sent, new);
    assert(n == b + m);
    lemma_settled(after, t);
    let part = new.take(n);
    assert(part.take(b) =~= new.take(b));
    assert(part.skip(b) =~= after.take(m));
    assert(new.skip(n) =~= after.skip(m));
    assert(text.skip(e) =~= after);
    let parts = fragment_parts(part, byte_len(flow.sent), think_end(text));
    let x = stripped(new.take(b));
    let y = stripped(after.take(m));
    assert(parts.0 == unless_empty(without_blanks_after(x)));
    assert(parts.1 == without_blanks_before(y));
    lemma_received_parts(parts);
    lemma_received_add(stream_deltas(first), piece_deltas(flow, piece));
    assert(or_nothing(parts.0) =~= without_blanks_after(x));

    let u = piece.take(e - before.len());
    lemma_thinking(first, u);
    assert(before + u =~= text.take(e));
    assert(flow.held + u =~= new.take(b));
    let r = received_reasoning(stream_deltas(first));
    lemma_cut_after(x);
    let whole = stripped(text.take(e));
    let got = r + without_blanks_after(x);
    assert(whole == r + x);
    assert(whole.take(got.len() as int) =~= got);
    assert(whole.skip(got.len() as int) =~= x.skip(without_blanks_after(x).len() as int));
    assert(received_reasoning(stream_deltas(pieces)) == got);

    lemma_cut_before(y);
    let z = stripped(after.skip(m) + t);
    let full = stripped(after + t);
    let c = without_blanks_before(y);
    assert(received_content(stream_deltas(pieces)) =~= c);
    assert(full == y + z);
    assert(full.skip(full.len() - (c + z).len()) =~= c + z);
    assert(full.take(full.len() - (c + z).len()) =~= y.take(y.len() - c.len()));
}

/// What is cut off at the end is blank.
proof fn lemma_cut_after(s: Seq<char>)
    ensures
        lacks_blanks_after(without_blanks_after(s), s),
    decreases s.len(),
{
    let w = without_blanks_after(s);
    if s.len() > 0 && is_blank(s.last()) {
        let d = s.drop_last();
        lemma_cut_after(d);
        assert(s.take(w.len() as int) =~= d.take(w.len() as int));
        assert(s.skip(w.len() as int) =~= d.skip(w.len() as int).push(s.last()));
    } else {
        assert(s.take(w.len() as int) =~= s);
    }
}

/// What is cut off at the start is blank.
proof fn lemma_cut_before(s: Seq<char>)
    ensures
        lacks_blanks_before(without_blanks_before(s), s),
    decreases s.len(),
{
    let w = without_blanks_before(s);
    if s.len() > 0 && is_blank(s[0]) {
        let d = s.skip(1);
        lemma_cut_before(d);
        let k = s.len() - w.len();
        assert(s.skip(k) =~= d.skip(k - 1));
        assert(s.take(k) =~= seq![s[0]] + d.take(k - 1));
    } else {
        assert(s.skip(0) =~= s);
    }
}

/// After the thinking has ended, the reasoning that was received is the text
/// before its end, and the content, with what is kept back and whatever comes
/// after it, is the text behind.
proof fn lemma_answering(pieces: Seq<Seq<char>>, t: Seq<char>)
    requires
        think_end(joined(pieces)) is Some,
    ensures
        ({
            let e = think_index(joined(pieces));
            &&& 0 <= e <= joined(pieces).len()
            &&& lacks_blanks_after(
                received_reasoning(stream_deltas(pieces)),
                stripped(joined(pieces).take(e)),
            )
            &&& lacks_blanks_before(
                received_content(stream_deltas(pieces)) + stripped(flow_after(pieces).held + t),
                stripped(joined(pieces).skip(e) + t),
            )
        }),
    decreases pieces.len(),
{
    reveal_strlit("</think>");
    if pieces.len() == 0 {
        lemma_find(joined(pieces), "</think>"@);
    } else if think_end(joined(pieces.drop_last())) is None {
        lemma_closing_piece(pieces, t);
    } else {
        let first = pieces.drop_last();
        let piece = pieces.last();
        let flow = flow_after(first);
        let before = joined(first);
        let new = flow.held + piece;
        let text = joined(pieces);
        law_nothing_is_lost(first);
        lemma_answering(first, piece + t);
        law_content_after_thinking(flow, piece);
        crate::text::lemma_find_append(before, piece, "</think>"@);
        let e = think_index(text);
        assert(e == think_index(before));
        assert(text.take(e) =~= before.take(e));
        assert(text.skip(e) + t =~= before.skip(e) + (piece + t));
        let n = settled(new);
        lemma_settled(new, t);
        assert(flow.held + (piece + t) =~= new + t);
        let parts = (None::<Seq<char>>, stripped(new.take(n)));
        assert(part_deltas(parts) =~= content_deltas(parts.1));
        lemma_received_parts(parts);
        lemma_received_add(stream_deltas(first), piece_deltas(flow, piece));
        assert(received_reasoning(stream_deltas(pieces)) =~= received_reasoning(
            stream_deltas(first),
        ));
        let c = received_content(stream_deltas(first));
        let a = stripped(new.take(n));
        let b = stripped(new.skip(n) + t);
        assert(c + (a + b) =~= (c + a) + b);
    }
}

/// What is received of the end of a stream.
proof fn lemma_received_closing(pieces: Seq<Seq<char>>, calls: Seq<ToolCallView>)
    ensures
        ({
            let flow = flow_after(pieces);
            let kept = stripped(flow.held);
            let closing = closing_deltas(flow, calls);
            if think_end(joined(pieces)) is None {
                &&& received_reasoning(closing) == kept
                &&& received_content(closing) == stripped(joined(pieces))
            } else {
                &&& received_reasoning(closing) == Seq::<char>::empty()
                &&& received_content(closing) == kept
            }
        }),
{
    let f = |d: SseDeltaView| or_nothing(d.reasoning_content);
    let g = |d: SseDeltaView| or_nothing(d.content);
    let nothing = Seq::<char>::empty();
    let flow = flow_after(pieces);
    let text = joined(pieces);
    law_nothing_is_lost(pieces);
    let parts = fragment_parts(flow.held, byte_len(flow.sent), think_end(text));
    lemma_received_parts(parts);
    let flushed: Seq<SseDeltaView> = if think_end(text) is None {
        content_deltas(stripped(text))
    } else {
        seq![]
    };
    let called: Seq<SseDeltaView> = if calls.len() > 0 {
        seq![calls_delta(calls)]
    } else {
        seq![]
    };
    lemma_received_add(part_deltas(parts), flushed);
    lemma_received_add(part_deltas(parts) + flushed, called);
    lemma_received_nothing();
    lemma_joined_one(nothing);
    if think_end(text) is None {
        let whole = (None::<Seq<char>>, stripped(text));
        assert(part_deltas(whole) =~= flushed);
        lemma_received_parts(whole);
        assert(or_nothing(parts.0) =~= stripped(flow.held));
    }
    if calls.len() > 0 {
        assert(called.map_values(f) =~= seq![nothing]);
        assert(called.map_values(g) =~= seq![nothing]);
    }
    let closing = closing_deltas(flow, calls);
    assert(closing == part_deltas(parts) + flushed + called);
    assert(received_reasoning(closing) =~= or_nothing(parts.0) + nothing + nothing);
    assert(received_content(closing) =~= parts.1 + received_content(flushed) + nothing);
    if think_end(text) is None {
        assert(received_reasoning(closing) =~= stripped(flow.held));
        assert(received_content(closing) =~= stripped(text));
    } else {
        assert(received_reasoning(closing) =~= nothing);
        assert(received_content(closing) =~= stripped(flow.held));
    }
}

/// A client whose model never closed its thinking has received the whole text
/// without its markup as reasoning, and at the end as content, however the text
/// was cut into pieces.
pub proof fn law_thinking_is_received(pieces: Seq<Seq<char>>, calls: Seq<ToolCallView>)
    requires
        think_end(joined(pieces)) is None,
    ensures
        received_reasoning(all_deltas(pieces, calls)) == stripped(joined(pieces)),
        received_content(all_deltas(pieces, calls)) == stripped(joined(pieces)),
{
    let empty = Seq::<char>::empty();
    let flow = flow_after(pieces);
    lemma_thinking(pieces, empty);
    lemma_received_closing(pieces, calls);
    lemma_received_add(stream_deltas(pieces), closing_deltas(flow, calls));
    assert(flow.held + empty =~= flow.held);
    assert(joined(pieces) + empty =~= joined(pieces));
    assert(received_content(all_deltas(pieces, calls)) =~= stripped(joined(pieces)));
}

/// A client whose model closed its thinking has received the text up to the
/// first `</think>` as reasoning and the text behind it as content, both
/// without their markup, however the text was cut into pieces. Only blanks
/// around the tag may be missing.
pub proof fn law_stream_splits_at_tag(pieces: Seq<Seq<char>>, calls: Seq<ToolCallView>)
    requires
        think_end(joined(pieces)) is Some,
    ensures
        ({
            let e = think_index(joined(pieces));
            &&& lacks_blanks_after(
                received_reasoning(all_deltas(pieces, calls)),
                stripped(joined(pieces).take(e)),
            )
            &&& lacks_blanks_before(
                received_content(all_deltas(pieces, calls)),
                stripped(joined(pieces).skip(e)),
            )
        }),
{
    let empty = Seq::<char>::empty();
    let flow = flow_after(pieces);
    let e = think_index(joined(pieces));
    lemma_answering(pieces, empty);
    lemma_received_closing(pieces, calls);
    lemma_received_add(stream_deltas(pieces), closing_deltas(flow, calls));
    assert(flow.held + empty =~= flow.held);
    assert(joined(pieces).skip(e) + empty =~= joined(pieces).skip(e));
    let r = received_reasoning(stream_deltas(pieces));
    assert(r + empty =~= r);
}

/// No reasoning comes after content.
pub open spec fn reasoning_first(deltas: Seq<SseDeltaView>) -> bool {
    forall|i: int, j: int|
        0 <= i < j < deltas.len() && (#[trigger] deltas[i]).content is Some ==> (
        #[trigger] deltas[j]).reasoning_content is None
}

/// No delta carries content.
pub open spec fn without_content(deltas: Seq<SseDeltaView>) -> bool {
    forall|i: int| 0 <= i < deltas.len() ==> (#[trigger] deltas[i]).content is None
}

/// No delta carries reasoning.
pub open spec fn without_reasoning(deltas: Seq<SseDeltaView>) -> bool {
    forall|i: int| 0 <= i < deltas.len() ==> (#[trigger] deltas[i]).reasoning_content is None
}

proof fn lemma_order_of_pieces(pieces: Seq<Seq<char>>)
    ensures
        reasoning_first(stream_deltas(pieces)),
        think_end(joined(pieces)) is None ==> without_content(stream_deltas(pieces)),
    decreases pieces.len(),
{
    if pieces.len() > 0 {
        let first = pieces.drop_last();
        let flow = flow_after(first);
        let a = stream_deltas(first);
        let b = piece_deltas(flow, pieces.last());
        lemma_order_of_pieces(first);
        law_nothing_is_lost(first);
        assert(flow.sent + (flow.held + pieces.last()) =~= joined(pieces));
        if think_end(joined(first)) is Some {
            law_thinking_ends_once(joined(first), pieces.last());
            law_content_after_thinking(flow, pieces.last());
            assert(without_reasoning(b));
        } else {
            assert(without_content(a));
        }
        assert forall|i: int, j: int|
            0 <= i < j < (a + b).len() && (#[trigger] (a + b)[i]).content is Some implies (
        #[trigger] (a + b)[j]).reasoning_content is None by {
            if i >= a.len() {
                assert((a + b)[i] == b[i - a.len()]);
                assert((a + b)[j] == b[j - a.len()]);
            } else {
                assert((a + b)[i] == a[i]);
                if j < a.len() {
                    assert((a + b)[j] == a[j]);
                } else {
                    assert((a + b)[j] == b[j - a.len()]);
                }
            }
        }
    }
}

/// In a whole stream no reasoning comes after content.
pub proof fn law_reasoning_comes_first(pieces: Seq<Seq<char>>, calls: Seq<ToolCallView>)
    ensures
        reasoning_first(all_deltas(pieces, calls)),
{
    let flow = flow_after(pieces);
    let a = stream_deltas(pieces);
    let b = closing_deltas(flow, calls);
    lemma_order_of_pieces(pieces);
    law_nothing_is_lost(pieces);
    if think_end(joined(pieces)) is Some {
        assert(without_reasoning(b));
    } else {
        assert(without_content(a));
        assert(reasoning_first(b));
    }
    assert forall|i: int, j: int|
        0 <= i < j < (a + b).len() && (#[trigger] (a + b)[i]).content is Some implies (
    #[trigger] (a + b)[j]).reasoning_content is None by {
        if i >= a.len() {
            assert((a + b)[i] == b[i - a.len()]);
            assert((a + b)[j] == b[j - a.len()]);
        } else {
            assert((a + b)[i] == a[i]);
            if j < a.len() {
                assert((a + b)[j] == a[j]);
            } else {
                assert((a + b)[j] == b[j - a.len()]);
            }
        }
    }
}

// ---------------------------------------------------------------------------
// The events of a stream
// ---------------------------------------------------------------------------

/// All the events of a stream: the role, the deltas of the pieces, and the end.
pub open spec fn stream_events(
    id: Seq<char>,
    created: i64,
    model: Seq<char>,
    pieces: Seq<Seq<char>>,
    end: Seq<StreamEventView>,
) -> Seq<StreamEventView> {
    seq![StreamEventView::Chunk(delta_chunk(id, created, model, role_delta()))] + chunk_events(
        delta_chunks(id, created, model, stream_deltas(pieces)),
    ) + end
}

/// The chunk carries the identifier, the time and the model of its stream.
pub open spec fn belongs(e: StreamEventView, id: Seq<char>, created: i64, model: Seq<char>) -> bool {
    e matches StreamEventView::Chunk(c) ==> {
        &&& c.id == id
        &&& c.created == created
        &&& c.model == model
        &&& c.object == "chat.completion.chunk"@
    }
}

/// The event is a chunk that carries neither a reason for the end nor a usage.
pub open spec fn carries_delta(e: StreamEventView) -> bool {
    e matches StreamEventView::Chunk(c) && c.usage is None && c.choices.len() == 1
        && c.choices[0].finish_reason is None
}

/// A stream begins with the role and ends with the terminator, and all its
/// chunks carry one identifier, time and model. After a generation the last
/// chunks are the reason for the end and the usage, and no other chunk carries
/// either. After an error the one event that tells of it stands before the
/// terminator, no chunk carries a reason or a usage, and one error is counted.
pub proof fn law_stream_events(
    id: Seq<char>,
    created: i64,
    model: Seq<char>,
    pieces: Seq<Seq<char>>,
    outcome: Result<GenerationOutcome, LlmError>,
    prompt_tokens: u32,
    duration_ms: u64,
    end: Seq<StreamEventView>,
    m: Metrics,
)
    requires
        ends_stream(
            end,
            id,
            created,
            model,
            flow_after(pieces),
            outcome,
            prompt_tokens,
            duration_ms,
        ),
        outcome matches Ok(o) ==> prompt_tokens + o.tokens@.len() <= u32::MAX,
    ensures
        ({
            let events = stream_events(id, created, model, pieces, end);
            let n = events.len() as int;
            &&& n >= 3
            &&& events[0] == StreamEventView::Chunk(delta_chunk(id, created, model, role_delta()))
            &&& events[n - 1] == StreamEventView::Text(DONE@)
            &&& forall|i: int| 0 <= i < n ==> belongs(#[trigger] events[i], id, created, model)
            &&& match outcome {
                Ok(o) => {
                    let usage = usage_of(prompt_tokens, o.tokens@.len() as u32, duration_ms);
                    &&& n >= 4
                    &&& usage.total_tokens == prompt_tokens + o.tokens@.len()
                    &&& events[n - 2] == StreamEventView::Chunk(
                        usage_chunk(id, created, model, usage),
                    )
                    &&& exists|calls: Seq<ToolCallView>|
                        #[trigger] read_at_end(calls, o) && events[n - 3] == StreamEventView::Chunk(
                            finish_chunk(
                                id,
                                created,
                                model,
                                reported_reason(o.finish, calls.len() > 0),
                            ),
                        )
                    &&& forall|i: int| 0 <= i < n - 3 ==> carries_delta(#[trigger] events[i])
                    &&& streamed(m, outcome, prompt_tokens, duration_ms).errors_total
                        == m.errors_total
                },
                Err(e) => {
                    &&& events[n - 2] == StreamEventView::Text(
                        json_text(error_event_json(e.text())),
                    )
                    &&& forall|i: int| 0 <= i < n - 2 ==> carries_delta(#[trigger] events[i])
                    &&& streamed(m, outcome, prompt_tokens, duration_ms).errors_total == counted(
                        m.errors_total,
                        1,
                    )
                },
            }
        }),
{
    let events = stream_events(id, created, model, pieces, end);
    let n = events.len() as int;
    let deltas = delta_chunks(id, created, model, stream_deltas(pieces));
    let k = 1 + deltas.len() as int;
    assert forall|i: int| 0 <= i < k implies carries_delta(#[trigger] events[i]) && belongs(
        events[i],
        id,
        created,
        model,
    ) by {
        if i > 0 {
            assert(events[i] == chunk_events(deltas)[i - 1]);
        }
    }
    match outcome {
        Ok(o) => {
            let usage = usage_of(prompt_tokens, o.tokens@.len() as u32, duration_ms);
            let flow = flow_after(pieces);
            let calls = choose|calls: Seq<ToolCallView>|
                read_at_end(calls, o) && end == chunk_events(
                    #[trigger] closing_chunks(id, created, model, flow, calls, o.finish, usage),
                ).push(StreamEventView::Text(DONE@));
            let closing = closing_chunks(id, created, model, flow, calls, o.finish, usage);
            let last = delta_chunks(id, created, model, closing_deltas(flow, calls));
            assert(end.len() == last.len() + 3);
            assert forall|i: int| k <= i < n - 3 implies carries_delta(#[trigger] events[i])
                && belongs(events[i], id, created, model) by {
                assert(events[i] == end[i - k]);
                assert(end[i - k] == StreamEventView::Chunk(last[i - k]));
            }
            assert(events[n - 1] == end[end.len() - 1]);
            assert(events[n - 2] == end[end.len() - 2]);
            assert(events[n - 3] == end[end.len() - 3]);
            assert(end[end.len() - 3] == StreamEventView::Chunk(
                finish_chunk(id, created, model, reported_reason(o.finish, calls.len() > 0)),
            ));
        },
        Err(e) => {
            assert(events[n - 1] == end[1]);
            assert(events[n - 2] == end[0]);
        },
    }
}

/// However a text is cut into pieces, at most the start of a tag is kept back:
/// everything before it was sent as soon as it came.
pub proof fn law_stream_keeps_back_little(pieces: Seq<Seq<char>>)
    ensures
        flow_after(pieces).held.len() == 0 || waits(flow_after(pieces).held),
    decreases pieces.len(),
{
    if pieces.len() > 0 {
        let flow = flow_after(pieces.drop_last());
        let new = flow.held + pieces.last();
        let n = ready(flow.sent, new);
        lemma_ready(flow.sent, new);
        match think_end(flow.sent + new) {
            Some(at) => if at > byte_len(flow.sent) {
                let b = char_at_byte(new, boundary_in(new, byte_len(flow.sent), at));
                law_only_starts_of_tags_are_kept_back(new.skip(b));
                assert(new.skip(n) =~= new.skip(b).skip(settled(new.skip(b))));
            } else {
                law_only_starts_of_tags_are_kept_back(new);
            },
            None => {
                law_only_starts_of_tags_are_kept_back(new);
            },
        }
    }
}

/// While the model is thinking, everything that was sent, and nothing else, was
/// received as reasoning, without its tags; nothing was received as content.
pub proof fn law_sent_thinking_is_received(pieces: Seq<Seq<char>>)
    requires
        think_end(joined(pieces)) is None,
    ensures
        received_content(stream_deltas(pieces)).len() == 0,
        received_reasoning(stream_deltas(pieces)) + stripped(flow_after(pieces).held) == stripped(
            joined(pieces),
        ),
{
    let empty = Seq::<char>::empty();
    lemma_thinking(pieces, empty);
    assert(flow_after(pieces).held + empty =~= flow_after(pieces).held);
    assert(joined(pieces) + empty =~= joined(pieces));
}

} // verus!
