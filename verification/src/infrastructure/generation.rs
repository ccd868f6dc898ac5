//! The generation loop, as a machine that is told what the model did and says
//! what to do next.
//!
//! The model is asked for a token, the token for its text, and the token is
//! fed back, until an end-of-generation token comes, a stop sequence or a
//! complete tool call stands in the text, the tokens are used up, or the
//! generation is aborted.

use vstd::prelude::*;

use crate::application::chat::cleaning::{clean_text, reasoning_and_answer};
use crate::application::chat::round_trip::lemma_find_after;
use crate::application::chat::tool_calls::{
    answer_beside_calls, calls_in, calls_match, parse_tool_calls,
};
use crate::domain::entity::{calls_view, FinishReason, ToolCall};
use crate::infrastructure::pieces::joined;
use crate::text::{
    contains, count_matches, lemma_find, occurrences, occurs_at, search, texts_of, to_chars,
};

verus! {

// ---------------------------------------------------------------------------
// The machine
// ---------------------------------------------------------------------------

/// What the machine waits for.
#[derive(Debug, Clone, Copy, PartialEq, Eq, Structural)]
pub enum Phase {
    /// The next token.
    Sampling,
    /// The text of the last token.
    Reading,
    /// That the last token was fed.
    Feeding,
    /// That an end-of-generation token before the answer was fed.
    Skipping(i32),
    /// Nothing: the generation is over.
    Done(FinishReason),
}

/// What is to be done next.
#[derive(Debug, Clone, Copy, PartialEq, Eq, Structural)]
pub enum Action {
    /// Sample a token.
    Sample,
    /// Get the text of a token.
    Read(i32),
    /// Feed a token at a position.
    Feed(i32, i32),
    /// Stop.
    Finish(FinishReason),
}

/// What the model did.
pub enum Event {
    /// It gave a token, which ends the generation or not.
    Sampled { token: i32, end: bool },
    /// It gave the text of the last token, and the reader of the text wants
    /// more or not.
    Read { piece: Seq<char>, wanted: bool },
    /// It took a token or failed to.
    Fed { ok: bool },
}

/// How far a generation is.
pub struct Progress {
    /// The number of tokens of the prompt.
    pub prompt_len: nat,
    /// The number of tokens that may be generated.
    pub max_tokens: nat,
    /// The texts that end the generation.
    pub stop: Seq<Seq<char>>,
    /// The tokens so far.
    pub output: Seq<i32>,
    /// The text so far.
    pub text: Seq<char>,
    pub phase: Phase,
}

/// A generation in progress.
pub struct Generation {
    pub prompt_len: usize,
    pub max_tokens: u32,
    pub stop: Vec<String>,
    pub output: Vec<i32>,
    pub text: String,
    pub phase: Phase,
}

/// What a generation run produced.
pub struct GenerationOutcome {
    pub tokens: Vec<i32>,
    pub text: String,
    pub finish: FinishReason,
}

impl View for Generation {
    type V = Progress;

    open spec fn view(&self) -> Progress {
        Progress {
            prompt_len: self.prompt_len as nat,
            max_tokens: self.max_tokens as nat,
            stop: texts_of(self.stop@),
            output: self.output@,
            text: self.text@,
            phase: self.phase,
        }
    }
}

/// One of the stop sequences stands in the text.
pub open spec fn stopped(text: Seq<char>, stop: Seq<Seq<char>>) -> bool {
    exists|i: int| 0 <= i < stop.len() && contains(text, #[trigger] stop[i])
}

/// The text holds a tool call, and every tool call in it is closed.
pub open spec fn tool_calls_complete(text: Seq<char>) -> bool {
    &&& count_matches(text, "<tool_call>"@) > 0
    &&& count_matches(text, "</tool_call>"@) >= count_matches(text, "<tool_call>"@)
}

/// A generation that has just been prefilled.
pub open spec fn started(prompt_len: nat, max_tokens: nat, stop: Seq<Seq<char>>) -> Progress {
    Progress {
        prompt_len,
        max_tokens,
        stop,
        output: Seq::empty(),
        text: Seq::empty(),
        phase: Phase::Sampling,
    }
}

/// The event is what the machine waits for.
pub open spec fn expected(g: Progress, e: Event) -> bool {
    match e {
        Event::Sampled { .. } => g.phase is Sampling,
        Event::Read { .. } => g.phase is Reading,
        Event::Fed { .. } => g.phase is Feeding || g.phase is Skipping,
    }
}

/// The progress after an event.
pub open spec fn next(g: Progress, e: Event) -> Progress {
    match e {
        Event::Sampled { token, end } => if end && g.output.len() == 0 {
            Progress { phase: Phase::Skipping(token), ..g }
        } else if g.output.len() >= g.max_tokens {
            Progress { phase: Phase::Done(FinishReason::Length), ..g }
        } else if end {
            Progress { phase: Phase::Done(FinishReason::Stop), ..g }
        } else {
            Progress { output: g.output.push(token), phase: Phase::Reading, ..g }
        },
        Event::Read { piece, wanted } => {
            let text = g.text + piece;
            let phase = if !wanted {
                Phase::Done(FinishReason::Aborted)
            } else if stopped(text, g.stop) {
                Phase::Done(FinishReason::Stop)
            } else if tool_calls_complete(text) {
                Phase::Done(FinishReason::ToolCalls)
            } else {
                Phase::Feeding
            };
            Progress { text, phase, ..g }
        },
        Event::Fed { ok } => {
            let phase = if ok {
                Phase::Sampling
            } else if g.phase is Feeding {
                Phase::Done(FinishReason::Aborted)
            } else if g.max_tokens == 0 {
                Phase::Done(FinishReason::Length)
            } else {
                Phase::Done(FinishReason::Stop)
            };
            Progress { phase, ..g }
        },
    }
}

/// What is to be done next. The tokens of the answer follow the prompt, each
/// at a position of its own; an end-of-generation token before the answer is
/// fed where the answer will begin.
pub open spec fn action_of(g: Progress) -> Action {
    match g.phase {
        Phase::Sampling => Action::Sample,
        Phase::Reading => Action::Read(g.output.last()),
        Phase::Feeding => Action::Feed(
            g.output.last(),
            (g.prompt_len + g.output.len() - 1) as i32,
        ),
        Phase::Skipping(token) => Action::Feed(token, g.prompt_len as i32),
        Phase::Done(reason) => Action::Finish(reason),
    }
}

/// What holds of every progress: there are no more tokens than allowed, the
/// phase fits them, and their positions are numbers of 32 bits.
pub open spec fn well_formed(g: Progress) -> bool {
    &&& g.output.len() <= g.max_tokens
    &&& g.phase is Reading || g.phase is Feeding ==> g.output.len() > 0
    &&& g.phase is Skipping ==> g.output.len() == 0
    &&& g.prompt_len <= i32::MAX
    &&& g.output.len() > 0 ==> g.prompt_len + g.output.len() - 1 <= i32::MAX
}

/// The position of the next token is a number of 32 bits.
pub open spec fn room_for_token(g: Progress) -> bool {
    g.prompt_len + g.output.len() <= i32::MAX
}

impl Generation {
    /// A generation whose prompt has been fed.
    pub fn start(prompt_len: usize, max_tokens: u32, stop: Vec<String>) -> (g: Self)
        requires
            prompt_len <= i32::MAX,
        ensures
            g@ == started(prompt_len as nat, max_tokens as nat, texts_of(stop@)),
            well_formed(g@),
    {
        Generation {
            prompt_len,
            max_tokens,
            stop,
            output: Vec::new(),
            text: String::new(),
            phase: Phase::Sampling,
        }
    }

    /// What is to be done next.
    pub fn action(&self) -> (a: Action)
        requires
            well_formed(self@),
        ensures
            a == action_of(self@),
    {
        match self.phase {
            Phase::Sampling => Action::Sample,
            Phase::Reading => Action::Read(self.output[self.output.len() - 1]),
            Phase::Feeding => {
                let last: usize = self.output.len() - 1;
                Action::Feed(self.output[last], self.prompt_len as i32 + last as i32)
            },
            Phase::Skipping(token) => Action::Feed(token, self.prompt_len as i32),
            Phase::Done(reason) => Action::Finish(reason),
        }
    }

    /// Whether the position of the next token is a number of 32 bits.
    pub fn has_room(&self) -> (r: bool)
        requires
            well_formed(self@),
        ensures
            r == room_for_token(self@),
    {
        let n: usize = self.output.len();
        n <= 0x7fff_ffff && self.prompt_len <= 0x7fff_ffff - n
    }

    /// The model gave a token.
    pub fn sampled(&mut self, token: i32, end: bool)
        requires
            well_formed(old(self)@),
            old(self)@.phase is Sampling,
            room_for_token(old(self)@),
        ensures
            final(self)@ == next(old(self)@, Event::Sampled { token, end }),
            well_formed(final(self)@),
    {
        let n: usize = self.output.len();
        if end && n == 0 {
            self.phase = Phase::Skipping(token);
        } else if n >= self.max_tokens as usize {
            self.phase = Phase::Done(FinishReason::Length);
        } else if end {
            self.phase = Phase::Done(FinishReason::Stop);
        } else {
            self.output.push(token);
            self.phase = Phase::Reading;
        }
    }

    /// The model gave the text of the last token; `wanted` tells whether the
    /// reader of the text wants more.
    pub fn read(&mut self, piece: &str, wanted: bool)
        requires
            well_formed(old(self)@),
            old(self)@.phase is Reading,
        ensures
            final(self)@ == next(old(self)@, Event::Read { piece: piece@, wanted }),
            well_formed(final(self)@),
    {
        self.text.append(piece);
        if !wanted {
            self.phase = Phase::Done(FinishReason::Aborted);
        } else if has_stopped(self.text.as_str(), &self.stop) {
            self.phase = Phase::Done(FinishReason::Stop);
        } else if has_complete_tool_calls(self.text.as_str()) {
            self.phase = Phase::Done(FinishReason::ToolCalls);
        } else {
            self.phase = Phase::Feeding;
        }
    }

    /// The model took the token that it was fed, or failed to.
    pub fn fed(&mut self, ok: bool)
        requires
            well_formed(old(self)@),
            old(self)@.phase is Feeding || old(self)@.phase is Skipping,
        ensures
            final(self)@ == next(old(self)@, Event::Fed { ok }),
            well_formed(final(self)@),
    {
        if ok {
            self.phase = Phase::Sampling;
        } else {
            match self.phase {
                Phase::Feeding => {
                    self.phase = Phase::Done(FinishReason::Aborted);
                },
                _ => {
                    if self.max_tokens == 0 {
                        self.phase = Phase::Done(FinishReason::Length);
                    } else {
                        self.phase = Phase::Done(FinishReason::Stop);
                    }
                },
            }
        }
    }

    /// What a generation that is over has produced.
    pub fn into_outcome(self) -> (outcome: Option<GenerationOutcome>)
        ensures
            match self.phase {
                Phase::Done(reason) => outcome matches Some(o) && o.tokens@ == self.output@
                    && o.text@ == self.text@ && o.finish == reason,
                _ => outcome is None,
            },
    {
        match self.phase {
            Phase::Done(reason) => Some(
                GenerationOutcome { tokens: self.output, text: self.text, finish: reason },
            ),
            _ => None,
        }
    }
}

/// What a generated text says: the reasoning, the answer, and the tool calls in
/// the answer.
pub struct GeneratedAnswer {
    pub reasoning: String,
    /// The answer without special tokens and thinking tags.
    pub cleaned: String,
    /// The answer beside its tool calls.
    pub content: String,
    pub tool_calls: Vec<ToolCall>,
}

impl GenerationOutcome {
    /// The cleaned text and the tool calls of a generation.
    pub fn answer(&self) -> (a: GeneratedAnswer)
        ensures
            (a.reasoning@, a.cleaned@) == reasoning_and_answer(self.text@),
            a.content@ == answer_beside_calls(a.cleaned@),
            calls_match(calls_view(a.tool_calls@), calls_in(a.cleaned@)),
    {
        let (reasoning, cleaned) = clean_text(self.text.as_str());
        let (content, tool_calls) = parse_tool_calls(cleaned.as_str());
        GeneratedAnswer { reasoning, cleaned, content, tool_calls }
    }
}

/// Whether one of the stop sequences stands in the text.
fn has_stopped(text: &str, stop: &Vec<String>) -> (r: bool)
    ensures
        r == stopped(text@, texts_of(stop@)),
{
    let chars = to_chars(text);
    let ghost all = texts_of(stop@);
    for i in 0..stop.len()
        invariant
            chars@ == text@,
            all == texts_of(stop@),
            forall|j: int| 0 <= j < i ==> !contains(text@, #[trigger] all[j]),
    {
        let s = to_chars(stop[i].as_str());
        assert(all[i as int] == s@);
        match search(chars.as_slice(), s.as_slice()) {
            Some(_) => {
                return true;
            },
            None => {},
        }
    }
    false
}

/// Whether the text holds a tool call and every tool call in it is closed.
fn has_complete_tool_calls(text: &str) -> (r: bool)
    ensures
        r == tool_calls_complete(text@),
{
    proof {
        reveal_strlit("<tool_call>");
        reveal_strlit("</tool_call>");
    }
    let chars = to_chars(text);
    let opening = to_chars("<tool_call>");
    match search(chars.as_slice(), opening.as_slice()) {
        None => {
            assert(count_matches(chars@, opening@) == 0);
            false
        },
        Some(_) => {
            let closed: usize = occurrences(chars.as_slice(), "</tool_call>");
            let opened: usize = occurrences(chars.as_slice(), "<tool_call>");
            opened > 0 && closed >= opened
        },
    }
}

// ---------------------------------------------------------------------------
// Whole runs
// ---------------------------------------------------------------------------

/// The progress after a number of events.
pub open spec fn run(g: Progress, events: Seq<Event>) -> Progress
    decreases events.len(),
{
    if events.len() == 0 {
        g
    } else {
        next(run(g, events.drop_last()), events.last())
    }
}

/// Every event was what the machine waited for.
pub open spec fn valid_run(g: Progress, events: Seq<Event>) -> bool
    decreases events.len(),
{
    events.len() == 0 || (valid_run(g, events.drop_last()) && expected(
        run(g, events.drop_last()),
        events.last(),
    ))
}

/// The texts that were read.
pub open spec fn pieces_of(events: Seq<Event>) -> Seq<Seq<char>>
    decreases events.len(),
{
    if events.len() == 0 {
        Seq::empty()
    } else {
        let before = pieces_of(events.drop_last());
        match events.last() {
            Event::Read { piece, .. } => before.push(piece),
            _ => before,
        }
    }
}

/// A run never generates more tokens than it may, and it ends for want of
/// tokens only when it has generated that many.
pub proof fn law_tokens_within_limit(
    prompt_len: nat,
    max_tokens: nat,
    stop: Seq<Seq<char>>,
    events: Seq<Event>,
)
    requires
        valid_run(started(prompt_len, max_tokens, stop), events),
    ensures
        run(started(prompt_len, max_tokens, stop), events).output.len() <= max_tokens,
        run(started(prompt_len, max_tokens, stop), events).phase == Phase::Done(
            FinishReason::Length,
        ) ==> run(started(prompt_len, max_tokens, stop), events).output.len() == max_tokens,
{
    lemma_run(prompt_len, max_tokens, stop, events);
}

/// The text of a run is what was read, piece after piece, and there is one
/// piece for each token whose text the run does not still wait for.
pub proof fn law_text_is_pieces(
    prompt_len: nat,
    max_tokens: nat,
    stop: Seq<Seq<char>>,
    events: Seq<Event>,
)
    requires
        valid_run(started(prompt_len, max_tokens, stop), events),
    ensures
        ({
            let g = run(started(prompt_len, max_tokens, stop), events);
            &&& g.text == joined(pieces_of(events))
            &&& g.output.len() == pieces_of(events).len() + if g.phase is Reading {
                1int
            } else {
                0
            }
        }),
{
    lemma_run(prompt_len, max_tokens, stop, events);
}

/// A run that goes on after it has read text holds no stop sequence and no
/// complete tool call; one that ends with a tool call holds a complete one.
pub proof fn law_stops_in_time(
    prompt_len: nat,
    max_tokens: nat,
    stop: Seq<Seq<char>>,
    events: Seq<Event>,
)
    requires
        valid_run(started(prompt_len, max_tokens, stop), events),
    ensures
        ({
            let g = run(started(prompt_len, max_tokens, stop), events);
            &&& (g.phase is Feeding || g.phase is Sampling) && g.output.len() > 0 ==> !stopped(
                g.text,
                stop,
            ) && !tool_calls_complete(g.text)
            &&& g.phase == Phase::Done(FinishReason::ToolCalls) ==> tool_calls_complete(g.text)
                && !stopped(g.text, stop)
        }),
{
    lemma_run(prompt_len, max_tokens, stop, events);
}

/// The tokens of the answer are fed at consecutive positions after the
/// prompt: the one that is fed after `n` texts were read stands at the
/// position `n - 1` behind the prompt.
pub proof fn law_positions_follow_prompt(
    prompt_len: nat,
    max_tokens: nat,
    stop: Seq<Seq<char>>,
    events: Seq<Event>,
)
    requires
        valid_run(started(prompt_len, max_tokens, stop), events),
        well_formed(run(started(prompt_len, max_tokens, stop), events)),
    ensures
        ({
            let g = run(started(prompt_len, max_tokens, stop), events);
            g.phase is Feeding ==> (action_of(g) matches Action::Feed(token, pos) && token
                == g.output.last() && pos == prompt_len + pieces_of(events).len() - 1)
        }),
{
    lemma_run(prompt_len, max_tokens, stop, events);
}

/// No token that ends the generation is part of the answer.
pub proof fn law_end_tokens_are_not_kept(
    prompt_len: nat,
    max_tokens: nat,
    stop: Seq<Seq<char>>,
    events: Seq<Event>,
    ends: spec_fn(i32) -> bool,
)
    requires
        valid_run(started(prompt_len, max_tokens, stop), events),
        forall|i: int|
            0 <= i < events.len() ==> ((#[trigger] events[i]) matches Event::Sampled { token, end }
                ==> end == ends(token)),
    ensures
        ({
            let g = run(started(prompt_len, max_tokens, stop), events);
            forall|k: int| 0 <= k < g.output.len() ==> !ends(#[trigger] g.output[k])
        }),
    decreases events.len(),
{
    if events.len() > 0 {
        let first = events.drop_last();
        assert forall|i: int| 0 <= i < first.len() implies ((#[trigger] first[i]) matches Event::Sampled {
            token,
            end,
        } ==> end == ends(token)) by {
            assert(first[i] == events[i]);
        }
        law_end_tokens_are_not_kept(prompt_len, max_tokens, stop, first, ends);
        assert(events.last() == events[events.len() - 1]);
    }
}

/// The reason for the end of a run tells what its last event was: a stop
/// sequence or an end token, the tokens used up, a complete tool call, or a
/// generation that was cut short.
pub proof fn law_reason_tells_event(
    prompt_len: nat,
    max_tokens: nat,
    stop: Seq<Seq<char>>,
    events: Seq<Event>,
)
    requires
        events.len() > 0,
        valid_run(started(prompt_len, max_tokens, stop), events),
        run(started(prompt_len, max_tokens, stop), events).phase is Done,
        // Every token before the answer could be fed.
        !(run(started(prompt_len, max_tokens, stop), events.drop_last()).phase is Skipping),
    ensures
        ({
            let g = run(started(prompt_len, max_tokens, stop), events);
            let e = events.last();
            let wanted = e matches Event::Read { wanted, .. } && wanted;
            &&& g.phase == Phase::Done(FinishReason::Length) <==> e is Sampled && g.output.len()
                == max_tokens
            &&& g.phase == Phase::Done(FinishReason::Stop) <==> (e matches Event::Sampled {
                end,
                ..
            } && end && g.output.len() < max_tokens) || (wanted && stopped(g.text, stop))
            &&& g.phase == Phase::Done(FinishReason::ToolCalls) <==> wanted && tool_calls_complete(
                g.text,
            ) && !stopped(g.text, stop)
            &&& g.phase == Phase::Done(FinishReason::Aborted) <==> (e is Read && !wanted) || e
                is Fed
        }),
{
    lemma_run(prompt_len, max_tokens, stop, events);
    lemma_run(prompt_len, max_tokens, stop, events.drop_last());
}

/// A generation that is over stays over.
pub proof fn law_over_is_over(g: Progress, e: Event)
    requires
        g.phase is Done,
    ensures
        !expected(g, e),
        action_of(g) is Finish,
{
}

proof fn lemma_run(prompt_len: nat, max_tokens: nat, stop: Seq<Seq<char>>, events: Seq<Event>)
    requires
        valid_run(started(prompt_len, max_tokens, stop), events),
    ensures
        ({
            let g = run(started(prompt_len, max_tokens, stop), events);
            &&& g.prompt_len == prompt_len
            &&& g.max_tokens == max_tokens
            &&& g.stop == stop
            &&& g.output.len() <= max_tokens
            &&& g.phase == Phase::Done(FinishReason::Length) ==> g.output.len() == max_tokens
            &&& g.phase is Skipping ==> g.output.len() == 0
            &&& g.phase is Reading || g.phase is Feeding ==> g.output.len() > 0
            &&& g.text == joined(pieces_of(events))
            &&& g.output.len() == pieces_of(events).len() + if g.phase is Reading {
                1int
            } else {
                0
            }
            &&& (g.phase is Feeding || g.phase is Sampling) && g.output.len() > 0 ==> !stopped(
                g.text,
                stop,
            ) && !tool_calls_complete(g.text)
            &&& g.phase == Phase::Done(FinishReason::ToolCalls) ==> tool_calls_complete(g.text)
                && !stopped(g.text, stop)
        }),
    decreases events.len(),
{
    if events.len() > 0 {
        lemma_run(prompt_len, max_tokens, stop, events.drop_last());
        match events.last() {
            Event::Read { piece, wanted } => {
                assert(pieces_of(events).drop_last() =~= pieces_of(events.drop_last()));
            },
            _ => {},
        }
    }
}

// ---------------------------------------------------------------------------
// One step
// ---------------------------------------------------------------------------

/// The tokens that were sampled and do not end the generation.
pub open spec fn kept_tokens(events: Seq<Event>) -> Seq<i32>
    decreases events.len(),
{
    if events.len() == 0 {
        Seq::empty()
    } else {
        let before = kept_tokens(events.drop_last());
        match events.last() {
            Event::Sampled { token, end } => if end {
                before
            } else {
                before.push(token)
            },
            _ => before,
        }
    }
}

/// The tokens of a run are those that were sampled, in their order and without
/// those that end the generation; only one that comes after the last that is
/// allowed is dropped.
pub proof fn law_answer_is_what_was_sampled(
    prompt_len: nat,
    max_tokens: nat,
    stop: Seq<Seq<char>>,
    events: Seq<Event>,
)
    requires
        valid_run(started(prompt_len, max_tokens, stop), events),
    ensures
        ({
            let g = run(started(prompt_len, max_tokens, stop), events);
            let kept = kept_tokens(events);
            &&& g.phase != Phase::Done(FinishReason::Length) ==> g.output == kept
            &&& kept.len() <= max_tokens ==> g.output == kept
            &&& kept.len() > max_tokens ==> g.output == kept.take(max_tokens as int)
        }),
    decreases events.len(),
{
    if events.len() > 0 {
        let first = events.drop_last();
        let before = run(started(prompt_len, max_tokens, stop), first);
        lemma_run(prompt_len, max_tokens, stop, first);
        law_answer_is_what_was_sampled(prompt_len, max_tokens, stop, first);
        let kept = kept_tokens(events);
        assert(before.output == kept_tokens(first));
        if let Event::Sampled { token, end } = events.last() {
            if !end && before.output.len() >= max_tokens {
                assert(kept.take(max_tokens as int) =~= before.output);
            }
        }
    }
}

/// A token that ends the generation before there is an answer is fed where the
/// answer will begin, and leaves no trace when it was taken: the run goes on as
/// if it had not come. Where it was not taken the run ends.
pub proof fn law_leading_end_token_is_skipped(g: Progress, token: i32)
    requires
        g.phase is Sampling,
        g.output.len() == 0,
        g.prompt_len <= i32::MAX,
    ensures
        ({
            let skipping = next(g, Event::Sampled { token, end: true });
            &&& (action_of(skipping) matches Action::Feed(t, pos) && t == token && pos
                == g.prompt_len)
            &&& next(skipping, Event::Fed { ok: true }) == g
            &&& action_of(next(skipping, Event::Fed { ok: false })) == Action::Finish(
                if g.max_tokens == 0 {
                    FinishReason::Length
                } else {
                    FinishReason::Stop
                },
            )
        }),
{
}

/// A token that does not end the generation, and that may still be generated,
/// is kept and its text is asked for; once its text is read and more is wanted
/// it is fed at the position behind all tokens before it; once it was taken the
/// next token is asked for.
pub proof fn law_token_goes_round(g: Progress, token: i32, piece: Seq<char>)
    requires
        g.phase is Sampling,
        g.output.len() < g.max_tokens,
        g.prompt_len + g.output.len() <= i32::MAX,
        !stopped(g.text + piece, g.stop),
        !tool_calls_complete(g.text + piece),
    ensures
        ({
            let reading = next(g, Event::Sampled { token, end: false });
            let feeding = next(reading, Event::Read { piece, wanted: true });
            let sampling = next(feeding, Event::Fed { ok: true });
            &&& action_of(g) == Action::Sample
            &&& action_of(reading) == Action::Read(token)
            &&& (action_of(feeding) matches Action::Feed(t, pos) && t == token && pos
                == g.prompt_len + g.output.len())
            &&& action_of(sampling) == Action::Sample
            &&& sampling.output == g.output.push(token)
            &&& sampling.text == g.text + piece
            &&& action_of(next(feeding, Event::Fed { ok: false })) == Action::Finish(
                FinishReason::Aborted,
            )
            &&& action_of(next(reading, Event::Read { piece, wanted: false })) == Action::Finish(
                FinishReason::Aborted,
            )
        }),
{
}

/// A text stops a generation where it holds one of the stop sequences, and more
/// text does not undo that.
pub proof fn law_stop_sequence_stops(
    before: Seq<char>,
    after: Seq<char>,
    stop: Seq<Seq<char>>,
    k: int,
)
    requires
        0 <= k < stop.len(),
    ensures
        stopped(before + stop[k] + after, stop),
        stopped(before, stop) ==> stopped(before + after, stop),
        !stopped(before, Seq::empty()),
{
    let text = before + stop[k] + after;
    let n = before.len() as int;
    assert(text.subrange(n, n + stop[k].len()) =~= stop[k]);
    assert(occurs_at(text, stop[k], n));
    if stopped(before, stop) {
        let i = choose|i: int| 0 <= i < stop.len() && contains(before, #[trigger] stop[i]);
        let j = choose|j: int| occurs_at(before, stop[i], j);
        let p = stop[i];
        assert((before + after).subrange(j, j + p.len()) =~= before.subrange(j, j + p.len()));
        assert(occurs_at(before + after, p, j));
    }
}

proof fn lemma_count_none(s: Seq<char>, p: Seq<char>)
    requires
        !contains(s, p),
    ensures
        count_matches(s, p) == 0,
{
    lemma_find(s, p);
}

proof fn lemma_count_one(a: Seq<char>, p: Seq<char>, b: Seq<char>)
    requires
        p.len() > 0,
        forall|j: int| 0 < j < p.len() ==> #[trigger] p[j] != p[0],
        !contains(a, p),
    ensures
        count_matches(a + p + b, p) == 1 + count_matches(b, p),
{
    lemma_find_after(a, p, b);
    assert((a + p + b).skip(a.len() as int + p.len()) =~= b);
}

/// A tool call is complete once its closing tag has come, and not before; a
/// text without a tool call holds none that is complete.
pub proof fn law_closing_tag_completes_call(before: Seq<char>, block: Seq<char>)
    requires
        !contains(before, "<tool_call>"@),
        !contains(block + "</tool_call>"@, "<tool_call>"@),
        !contains(before + "<tool_call>"@ + block, "</tool_call>"@),
    ensures
        !tool_calls_complete(before),
        !tool_calls_complete(before + "<tool_call>"@ + block),
        tool_calls_complete(before + "<tool_call>"@ + block + "</tool_call>"@),
{
    reveal_strlit("<tool_call>");
    reveal_strlit("</tool_call>");
    let open = "<tool_call>"@;
    let close = "</tool_call>"@;
    let empty = Seq::<char>::empty();
    let opened = before + open + block;
    let whole = opened + close;
    lemma_count_none(before, open);
    lemma_count_one(before, open, block);
    lemma_count_none(opened, close);
    assert(whole =~= before + open + (block + close));
    lemma_count_one(before, open, block + close);
    lemma_count_none(block + close, open);
    assert(whole =~= opened + close + empty);
    lemma_count_one(opened, close, empty);
    assert(count_matches(before + open + block, open) >= 1);
}

} // verus!
