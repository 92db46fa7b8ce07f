//! What holds of every run of the stream driver.

use crate::classifier::classify_text;
use crate::classifier::LineClass;
use crate::decoder::decode_text;
use crate::decoder::fragments_of;
use crate::machine::api_error_text;
use crate::machine::DriverView;
use crate::machine::initial;
use crate::machine::InputView;
use crate::machine::line_effect;
use crate::machine::Phase;
use crate::machine::Progress;
use crate::machine::run;
use crate::machine::RunView;
use crate::machine::step;
use crate::machine::text_effect;
use crate::machine::TextEffect;
use crate::machine::token_events;
use crate::models::chat::EventView;
use crate::splitter::after_first_line;
use crate::splitter::first_line;
use crate::splitter::has_line;
use crate::splitter::lemma_first_line_of_concat;
use crate::splitter::lemma_first_newline;
use crate::splitter::lines_of;
use crate::text::all_well_formed;
use crate::text::joined;
use crate::text::lemma_decode_utf8_concat;
use crate::text::lemma_joined_push;
use crate::text::lemma_lossy_text_concat;
use crate::text::lossy_text;
use crate::text::lossy_texts;
use vstd::prelude::*;
use vstd::utf8::valid_utf8;

verus! {

/// Whether `event` ends a request.
pub open spec fn terminal(event: EventView) -> bool {
    event is Done || event is Error
}

/// The text that the `Token` events of `events` carry, joined in order.
pub open spec fn tokens_text(events: Seq<EventView>) -> Seq<char>
    decreases events.len(),
{
    if events.len() == 0 {
        seq![]
    } else {
        let before = tokens_text(events.drop_last());
        match events.last() {
            EventView::Token(t) => before + t,
            _ => before,
        }
    }
}

/// Whether one of `lines` is the record that ends the stream.
pub open spec fn has_terminator(lines: Seq<Seq<char>>) -> bool {
    exists|k: int| 0 <= k < lines.len() && classify_text(#[trigger] lines[k]) is Terminator
}

/// What a text does after `first` has taken effect: nothing where the
/// stream has ended, and else what it does to the content and the unframed
/// rest that `first` left.
pub open spec fn then_text(first: TextEffect, more: Seq<char>) -> TextEffect {
    if first.done {
        first
    } else {
        let later = text_effect(first.content, first.rest + more);
        TextEffect {
            events: first.events + later.events,
            content: later.content,
            done: later.done,
            rest: later.rest,
        }
    }
}

/// The inputs that hand over `chunks` as text, one after the other.
pub open spec fn text_inputs(chunks: Seq<Seq<char>>) -> Seq<InputView> {
    chunks.map_values(|c: Seq<char>| InputView::Text(c))
}

/// The inputs that hand over `chunks` as bytes, one after the other.
pub open spec fn chunk_inputs(chunks: Seq<Seq<u8>>) -> Seq<InputView> {
    chunks.map_values(|c: Seq<u8>| InputView::Chunk(c))
}

/// An event that is no `Token` carries no token text.
pub proof fn lemma_tokens_text_of_one(event: EventView)
    requires
        !(event is Token),
    ensures
        tokens_text(seq![event]) == Seq::<char>::empty(),
{
    let events = seq![event];
    assert(tokens_text(events.drop_last()) == Seq::<char>::empty());
}

/// The token text of two runs of events is the text of the first followed
/// by that of the second.
pub proof fn lemma_tokens_text_concat(a: Seq<EventView>, b: Seq<EventView>)
    ensures
        tokens_text(a + b) == tokens_text(a) + tokens_text(b),
    decreases b.len(),
{
    if b.len() > 0 {
        assert((a + b).drop_last() == a + b.drop_last());
        lemma_tokens_text_concat(a, b.drop_last());
    }
}

/// The token text of the `Token` events of some fragments is the fragments,
/// joined.
pub proof fn lemma_tokens_text_of_tokens(fragments: Seq<Seq<char>>)
    ensures
        tokens_text(token_events(fragments)) == joined(fragments),
    decreases fragments.len(),
{
    if fragments.len() == 0 {
    } else {
        let before = fragments.drop_last();
        let events = token_events(fragments);
        assert(events.drop_last() == token_events(before));
        lemma_tokens_text_of_tokens(before);
        lemma_joined_push(before, fragments.last());
        assert(before.push(fragments.last()) == fragments);
    }
}

/// One line emits either nothing, or `Token` events whose text it appends
/// to the content, or a single `Done` that carries the content.
pub proof fn lemma_line_effect_shape(content: Seq<char>, line: Seq<char>)
    ensures
        ({
            let e = line_effect(content, line);
            &&& e.done <==> classify_text(line) is Terminator
            &&& e.done ==> e.events == seq![EventView::Done(content)] && e.content == content
            &&& !e.done ==> forall|i: int|
                0 <= i < e.events.len() ==> (#[trigger] e.events[i]) is Token
            &&& e.content == content + tokens_text(e.events)
        }),
{
    match classify_text(line) {
        LineClass::Ignore => {},
        LineClass::Terminator => {
            lemma_tokens_text_of_one(EventView::Done(content));
        },
        LineClass::Data(payload) => match decode_text(payload) {
            Ok(chunk) => {
                lemma_tokens_text_of_tokens(fragments_of(chunk.choices));
            },
            Err(_) => {},
        },
    }
}

/// The events of a text are `Token` events, followed by one `Done` that
/// carries the whole content where the text ends the stream; and the
/// content grows by exactly the text of the tokens.
pub proof fn lemma_text_effect_shape(content: Seq<char>, s: Seq<char>)
    ensures
        ({
            let e = text_effect(content, s);
            &&& e.content == content + tokens_text(e.events)
            &&& e.done ==> e.events.len() > 0 && e.events.last() == EventView::Done(e.content)
            &&& forall|i: int|
                0 <= i < e.events.len() - (if e.done {
                    1int
                } else {
                    0int
                }) ==> (#[trigger] e.events[i]) is Token
            &&& e.done ==> e.rest == Seq::<char>::empty()
        }),
    decreases s.len(),
{
    let e = text_effect(content, s);
    if has_line(s) {
        lemma_first_newline(s);
        let first = line_effect(content, first_line(s));
        lemma_line_effect_shape(content, first_line(s));
        if !first.done {
            let later = text_effect(first.content, after_first_line(s));
            lemma_text_effect_shape(first.content, after_first_line(s));
            lemma_tokens_text_concat(first.events, later.events);
            assert forall|i: int|
                0 <= i < e.events.len() - (if e.done {
                    1int
                } else {
                    0int
                }) implies (#[trigger] e.events[i]) is Token by {
                if i >= first.events.len() {
                    assert(e.events[i] == later.events[i - first.events.len()]);
                }
            }
        }
    }
}

/// A text ends the stream exactly where one of its complete lines is the
/// record that ends it.
pub proof fn lemma_done_iff_terminator(content: Seq<char>, s: Seq<char>)
    ensures
        text_effect(content, s).done <==> has_terminator(lines_of(s)),
    decreases s.len(),
{
    let lines = lines_of(s);
    if has_line(s) {
        lemma_first_newline(s);
        let first = line_effect(content, first_line(s));
        let tail = lines_of(after_first_line(s));
        if first.done {
            assert(classify_text(lines[0]) is Terminator);
        } else {
            lemma_done_iff_terminator(first.content, after_first_line(s));
            if has_terminator(tail) {
                let k = choose|k: int|
                    0 <= k < tail.len() && classify_text(#[trigger] tail[k]) is Terminator;
                assert(lines[k + 1] == tail[k]);
            }
            if has_terminator(lines) {
                let k = choose|k: int|
                    0 <= k < lines.len() && classify_text(#[trigger] lines[k]) is Terminator;
                assert(tail[k - 1] == lines[k]);
            }
        }
    }
}

/// Chunk-boundary invariance of the events: what a text does is what any
/// first part of it does, followed by what the rest does after it.
pub proof fn lemma_text_effect_concat(content: Seq<char>, a: Seq<char>, b: Seq<char>)
    ensures
        text_effect(content, a + b) == then_text(text_effect(content, a), b),
    decreases a.len(),
{
    if has_line(a) {
        lemma_first_newline(a);
        lemma_first_line_of_concat(a, b);
        let first = line_effect(content, first_line(a));
        if !first.done {
            lemma_text_effect_concat(first.content, after_first_line(a), b);
        }
    }
    assert(text_effect(content, a + b).events == then_text(text_effect(content, a), b).events);
}

/// A run of one input is one step.
pub proof fn lemma_run_one(state: DriverView, input: InputView)
    ensures
        run(state, seq![input]) == (RunView {
            state: step(state, input).state,
            events: step(state, input).events,
        }),
{
    let inputs = seq![input];
    let first = step(state, input);
    assert(run(first.state, inputs.drop_first()).events == Seq::<EventView>::empty());
}

/// A run of two sequences of inputs is the run of the first, followed by
/// the run of the second from where the first ended.
pub proof fn lemma_run_concat(state: DriverView, xs: Seq<InputView>, ys: Seq<InputView>)
    ensures
        run(state, xs + ys).state == run(run(state, xs).state, ys).state,
        run(state, xs + ys).events == run(state, xs).events + run(run(state, xs).state, ys).events,
    decreases xs.len(),
{
    if xs.len() > 0 {
        assert((xs + ys).drop_first() == xs.drop_first() + ys);
        lemma_run_concat(step(state, xs[0]).state, xs.drop_first(), ys);
    }
}

/// From a terminal phase no input changes the state or emits an event.
pub proof fn lemma_run_after_end(state: DriverView, inputs: Seq<InputView>)
    requires
        state.phase == Phase::Finished || state.phase == Phase::Errored,
    ensures
        run(state, inputs).state == state,
        run(state, inputs).events == Seq::<EventView>::empty(),
    decreases inputs.len(),
{
    if inputs.len() > 0 {
        lemma_run_after_end(state, inputs.drop_first());
    }
}

/// One step emits `Token` events and at most one terminal event, which is
/// then its last event and leaves the driver in a terminal phase. A `Done`
/// carries the content, and the content grows by the text of the tokens.
pub proof fn lemma_step_shape(state: DriverView, input: InputView)
    ensures
        ({
            let s = step(state, input);
            &&& forall|i: int|
                0 <= i < s.events.len() && terminal(#[trigger] s.events[i]) ==> {
                    &&& i == s.events.len() - 1
                    &&& s.state.phase == Phase::Finished || s.state.phase == Phase::Errored
                    &&& s.events[i] is Done ==> s.events[i] == EventView::Done(s.state.content)
                }
            &&& s.state.content == state.content + tokens_text(s.events)
        }),
{
    if state.phase == Phase::Streaming {
        match input {
            InputView::Chunk(bytes) => {
                lemma_text_effect_shape(state.content, state.pending + lossy_text(bytes));
            },
            InputView::Text(text) => {
                lemma_text_effect_shape(state.content, state.pending + text);
            },
            InputView::EndOfStream => {
                lemma_tokens_text_of_one(EventView::Done(state.content));
            },
            _ => {},
        }
    } else if state.phase == Phase::Requesting {
        match input {
            InputView::Response { status, body } => {
                lemma_tokens_text_of_one(EventView::Error(api_error_text(status, body)));
            },
            _ => {},
        }
    }
}

/// Chunk-boundary invariance, for two chunks: handing a driver a text in
/// two parts, cut at any place, emits the same events and leaves the same
/// state as handing it the whole text at once.
pub proof fn theorem_chunk_boundary_invariance(state: DriverView, a: Seq<char>, b: Seq<char>)
    ensures
        run(state, seq![InputView::Text(a), InputView::Text(b)]) == run(
            state,
            seq![InputView::Text(a + b)],
        ),
{
    let two = seq![InputView::Text(a), InputView::Text(b)];
    assert(two == seq![InputView::Text(a)] + seq![InputView::Text(b)]);
    lemma_run_concat(state, seq![InputView::Text(a)], seq![InputView::Text(b)]);
    lemma_run_one(state, InputView::Text(a));
    lemma_run_one(step(state, InputView::Text(a)).state, InputView::Text(b));
    lemma_run_one(state, InputView::Text(a + b));
    if state.phase == Phase::Streaming {
        lemma_text_effect_concat(state.content, state.pending + a, b);
        assert((state.pending + a) + b == state.pending + (a + b));
        lemma_text_effect_shape(state.content, state.pending + a);
    }
}

/// Chunk-boundary invariance, for any number of chunks: however a text is
/// cut into chunks, handing them to a driver one after the other emits the
/// same events and leaves the same state as handing it the whole text as
/// one chunk.
pub proof fn theorem_chunks_as_one(state: DriverView, chunks: Seq<Seq<char>>)
    requires
        chunks.len() > 0,
    ensures
        run(state, text_inputs(chunks)) == run(state, seq![InputView::Text(joined(chunks))]),
    decreases chunks.len(),
{
    let inputs = text_inputs(chunks);
    let head = chunks[0];
    let rest = chunks.drop_first();
    assert(inputs.drop_first() == text_inputs(rest));
    if rest.len() == 0 {
        assert(head + joined(rest) == head);
        assert(inputs == seq![InputView::Text(head)]);
    } else {
        let after_head = step(state, InputView::Text(head)).state;
        theorem_chunks_as_one(after_head, rest);
        lemma_run_one(after_head, InputView::Text(joined(rest)));
        let two = seq![InputView::Text(head), InputView::Text(joined(rest))];
        assert(two.drop_first() == seq![InputView::Text(joined(rest))]);
        theorem_chunk_boundary_invariance(state, head, joined(rest));
    }
}

/// Chunk-boundary invariance, for bytes: where permissive decoding yields
/// for two chunks together what it yields for each of them, one after the
/// other, handing a driver the two chunks emits the same events and leaves
/// the same state as handing it both as one. (The condition fails where a
/// chunk boundary cuts through the encoding of one character.)
pub proof fn theorem_byte_chunk_boundary_invariance(state: DriverView, a: Seq<u8>, b: Seq<u8>)
    requires
        lossy_text(a + b) == lossy_text(a) + lossy_text(b),
    ensures
        run(state, seq![InputView::Chunk(a), InputView::Chunk(b)]) == run(
            state,
            seq![InputView::Chunk(a + b)],
        ),
{
    let ta = InputView::Text(lossy_text(a));
    let tb = InputView::Text(lossy_text(b));
    let tab = InputView::Text(lossy_text(a + b));
    theorem_chunk_boundary_invariance(state, lossy_text(a), lossy_text(b));
    let two = seq![InputView::Chunk(a), InputView::Chunk(b)];
    assert(two == seq![InputView::Chunk(a)] + seq![InputView::Chunk(b)]);
    lemma_run_concat(state, seq![InputView::Chunk(a)], seq![InputView::Chunk(b)]);
    lemma_run_one(state, InputView::Chunk(a));
    lemma_run_one(step(state, InputView::Chunk(a)).state, InputView::Chunk(b));
    lemma_run_one(state, InputView::Chunk(a + b));
    let texts = seq![ta, tb];
    assert(texts == seq![ta] + seq![tb]);
    lemma_run_concat(state, seq![ta], seq![tb]);
    lemma_run_one(state, ta);
    lemma_run_one(step(state, ta).state, tb);
    lemma_run_one(state, tab);
}

/// Chunk-boundary invariance, for well-formed bytes: where two chunks are
/// each well-formed UTF-8, so that no character is cut by the boundary
/// between them, handing a driver the two chunks emits the same events and
/// leaves the same state as handing it both as one.
pub proof fn theorem_well_formed_chunk_boundary_invariance(
    state: DriverView,
    a: Seq<u8>,
    b: Seq<u8>,
)
    requires
        valid_utf8(a),
        valid_utf8(b),
    ensures
        run(state, seq![InputView::Chunk(a), InputView::Chunk(b)]) == run(
            state,
            seq![InputView::Chunk(a + b)],
        ),
{
    lemma_lossy_text_concat(a, b);
    theorem_byte_chunk_boundary_invariance(state, a, b);
}

/// Well-formed chunks, joined, are well-formed and decode to the texts of
/// the chunks, joined.
pub proof fn lemma_lossy_text_joined(chunks: Seq<Seq<u8>>)
    requires
        all_well_formed(chunks),
    ensures
        valid_utf8(joined(chunks)),
        lossy_text(joined(chunks)) == joined(lossy_texts(chunks)),
    decreases chunks.len(),
{
    if chunks.len() > 0 {
        let rest = chunks.drop_first();
        assert forall|i: int| 0 <= i < rest.len() implies valid_utf8(#[trigger] rest[i]) by {
            assert(rest[i] == chunks[i + 1]);
        }
        lemma_lossy_text_joined(rest);
        lemma_decode_utf8_concat(chunks[0], joined(rest));
        assert(lossy_texts(chunks).drop_first() == lossy_texts(rest));
    }
}

/// A chunk of bytes does what the text that it decodes to does.
pub proof fn lemma_chunks_run_as_their_texts(state: DriverView, chunks: Seq<Seq<u8>>)
    ensures
        run(state, chunk_inputs(chunks)) == run(state, text_inputs(lossy_texts(chunks))),
    decreases chunks.len(),
{
    if chunks.len() > 0 {
        let after_head = step(state, InputView::Chunk(chunks[0])).state;
        lemma_chunks_run_as_their_texts(after_head, chunks.drop_first());
        assert(chunk_inputs(chunks).drop_first() == chunk_inputs(chunks.drop_first()));
        assert(text_inputs(lossy_texts(chunks)).drop_first() == text_inputs(
            lossy_texts(chunks.drop_first()),
        ));
    }
}

/// Chunk-boundary invariance, for well-formed bytes in any number of
/// chunks: however a stream of bytes is cut into chunks that are each
/// well-formed UTF-8 (one byte at a time, for a stream of ASCII), handing
/// them to a driver one after the other emits the same events and leaves
/// the same state as handing it the whole stream as one chunk.
pub proof fn theorem_well_formed_chunks_as_one(state: DriverView, chunks: Seq<Seq<u8>>)
    requires
        chunks.len() > 0,
        all_well_formed(chunks),
    ensures
        run(state, chunk_inputs(chunks)) == run(state, seq![InputView::Chunk(joined(chunks))]),
{
    lemma_chunks_run_as_their_texts(state, chunks);
    theorem_chunks_as_one(state, lossy_texts(chunks));
    lemma_lossy_text_joined(chunks);
    lemma_run_one(state, InputView::Text(joined(lossy_texts(chunks))));
    lemma_run_one(state, InputView::Chunk(joined(chunks)));
}

/// Nothing follows a terminal event: in the events of any run, a `Done` or
/// an `Error` is the last event, so that a run emits at most one of them.
pub proof fn theorem_terminal_event_is_last(state: DriverView, inputs: Seq<InputView>)
    ensures
        forall|i: int|
            0 <= i < run(state, inputs).events.len() && terminal(
                #[trigger] run(state, inputs).events[i],
            ) ==> i == run(state, inputs).events.len() - 1,
    decreases inputs.len(),
{
    if inputs.len() > 0 {
        let first = step(state, inputs[0]);
        let later = run(first.state, inputs.drop_first());
        let all = run(state, inputs).events;
        lemma_step_shape(state, inputs[0]);
        theorem_terminal_event_is_last(first.state, inputs.drop_first());
        assert forall|i: int| 0 <= i < all.len() && terminal(#[trigger] all[i]) implies i
            == all.len() - 1 by {
            if i < first.events.len() {
                lemma_run_after_end(first.state, inputs.drop_first());
            } else {
                assert(all[i] == later.events[i - first.events.len()]);
            }
        }
    }
}

/// A run that finishes has emitted exactly one `Done`, as its last event,
/// and that `Done` carries the accumulated content.
pub proof fn theorem_finished_run_ends_with_done(state: DriverView, inputs: Seq<InputView>)
    requires
        state.phase == Phase::Requesting || state.phase == Phase::Streaming,
        run(state, inputs).state.phase == Phase::Finished,
    ensures
        run(state, inputs).events.len() > 0,
        run(state, inputs).events.last() == EventView::Done(run(state, inputs).state.content),
    decreases inputs.len(),
{
    if inputs.len() > 0 {
        let first = step(state, inputs[0]);
        let later = run(first.state, inputs.drop_first());
        if first.state.phase == Phase::Finished || first.state.phase == Phase::Errored {
            lemma_run_after_end(first.state, inputs.drop_first());
            if state.phase == Phase::Streaming {
                match inputs[0] {
                    InputView::Chunk(bytes) => {
                        lemma_text_effect_shape(state.content, state.pending + lossy_text(bytes));
                    },
                    InputView::Text(text) => {
                        lemma_text_effect_shape(state.content, state.pending + text);
                    },
                    _ => {},
                }
            }
        } else {
            theorem_finished_run_ends_with_done(first.state, inputs.drop_first());
            assert((first.events + later.events).last() == later.events.last());
        }
    }
}

/// The record that ends the stream produces exactly one `Done`: where a
/// complete line of what a streaming driver holds and is handed is that
/// record, the step emits `Token` events and then one `Done` with the
/// accumulated content, the driver is finished, and no later input emits
/// anything.
pub proof fn theorem_terminator_emits_one_done(
    state: DriverView,
    text: Seq<char>,
    later: Seq<InputView>,
)
    requires
        state.phase == Phase::Streaming,
        has_terminator(lines_of(state.pending + text)),
    ensures
        ({
            let s = step(state, InputView::Text(text));
            &&& s.state.phase == Phase::Finished
            &&& s.progress == Progress::Completed
            &&& s.events.len() > 0
            &&& s.events.last() == EventView::Done(s.state.content)
            &&& forall|i: int| 0 <= i < s.events.len() - 1 ==> (#[trigger] s.events[i]) is Token
            &&& run(s.state, later).events == Seq::<EventView>::empty()
        }),
{
    let s = step(state, InputView::Text(text));
    lemma_done_iff_terminator(state.content, state.pending + text);
    lemma_text_effect_shape(state.content, state.pending + text);
    lemma_run_after_end(s.state, later);
}

/// The content that a `Done` carries is the text of every `Token` that was
/// emitted before it, in order, after what the driver had accumulated when
/// the run began (nothing, for a new driver).
pub proof fn theorem_done_carries_the_tokens(state: DriverView, inputs: Seq<InputView>)
    ensures
        run(state, inputs).state.content == state.content + tokens_text(run(state, inputs).events),
        forall|i: int|
            0 <= i < run(state, inputs).events.len() && (#[trigger] run(state, inputs).events[i])
                is Done ==> run(state, inputs).events[i] == EventView::Done(
                state.content + tokens_text(run(state, inputs).events.take(i)),
            ),
    decreases inputs.len(),
{
    let all = run(state, inputs).events;
    if inputs.len() > 0 {
        let first = step(state, inputs[0]);
        let later = run(first.state, inputs.drop_first());
        lemma_step_shape(state, inputs[0]);
        theorem_done_carries_the_tokens(first.state, inputs.drop_first());
        lemma_tokens_text_concat(first.events, later.events);
        assert forall|i: int| 0 <= i < all.len() && (#[trigger] all[i]) is Done implies all[i]
            == EventView::Done(state.content + tokens_text(all.take(i))) by {
            if i < first.events.len() {
                assert(all.take(i) == first.events.take(i));
            } else {
                let j = i - first.events.len();
                assert(all.take(i) == first.events + later.events.take(j));
                lemma_tokens_text_concat(first.events, later.events.take(j));
                assert(state.content + (tokens_text(first.events) + tokens_text(
                    later.events.take(j),
                )) == (state.content + tokens_text(first.events)) + tokens_text(
                    later.events.take(j),
                ));
            }
        }
    }
}

/// For a new driver, the content that a `Done` carries is exactly the text
/// of every `Token` that was emitted before it, in order.
pub proof fn theorem_done_is_the_text_of_the_tokens(inputs: Seq<InputView>)
    ensures
        forall|i: int|
            0 <= i < run(initial(), inputs).events.len() && (#[trigger] run(
                initial(),
                inputs,
            ).events[i]) is Done ==> run(initial(), inputs).events[i] == EventView::Done(
                tokens_text(run(initial(), inputs).events.take(i)),
            ),
{
    let all = run(initial(), inputs).events;
    theorem_done_carries_the_tokens(initial(), inputs);
    assert forall|i: int| 0 <= i < all.len() && (#[trigger] all[i]) is Done implies all[i]
        == EventView::Done(tokens_text(all.take(i))) by {
        assert(initial().content + tokens_text(all.take(i)) == tokens_text(all.take(i)));
    }
}

/// What a text leaves unframed holds no complete line.
pub proof fn lemma_text_effect_rest(content: Seq<char>, s: Seq<char>)
    ensures
        !has_line(text_effect(content, s).rest),
    decreases s.len(),
{
    if has_line(s) {
        lemma_first_newline(s);
        let first = line_effect(content, first_line(s));
        if !first.done {
            lemma_text_effect_rest(first.content, after_first_line(s));
        }
    }
}

/// Between steps a driver holds at most one line, and that line is not
/// complete: where the unframed text holds no complete line before a step,
/// it holds none after it.
pub proof fn theorem_pending_holds_no_complete_line(state: DriverView, input: InputView)
    requires
        !has_line(state.pending),
    ensures
        !has_line(step(state, input).state.pending),
{
    if state.phase == Phase::Streaming {
        match input {
            InputView::Chunk(bytes) => {
                lemma_text_effect_rest(state.content, state.pending + lossy_text(bytes));
            },
            InputView::Text(text) => {
                lemma_text_effect_rest(state.content, state.pending + text);
            },
            _ => {},
        }
    }
}

/// A data frame whose payload does not decode is skipped: it emits nothing
/// and changes nothing, and the lines after it take effect as if it had
/// not been there.
pub proof fn theorem_malformed_frame_is_skipped(content: Seq<char>, s: Seq<char>)
    requires
        has_line(s),
        classify_text(first_line(s)) matches LineClass::Data(payload) && decode_text(payload)
            is Err,
    ensures
        line_effect(content, first_line(s)).events == Seq::<EventView>::empty(),
        line_effect(content, first_line(s)).content == content,
        !line_effect(content, first_line(s)).done,
        text_effect(content, s) == text_effect(content, after_first_line(s)),
{
}

/// Reading the body never emits an `Error`: whatever text a driver is
/// handed, the events are `Token` and `Done` events.
pub proof fn theorem_text_emits_no_error(content: Seq<char>, s: Seq<char>)
    ensures
        forall|i: int|
            0 <= i < text_effect(content, s).events.len() ==> !((#[trigger] text_effect(
                content,
                s,
            ).events[i]) is Error),
{
    lemma_text_effect_shape(content, s);
}

} // verus!
