//! The stream driver as a state machine over plain values: what each input
//! does to the state, and which events it emits.

use crate::classifier::classify_text;
use crate::classifier::LineClass;
use crate::decoder::decode_text;
use crate::decoder::fragments_of;
use crate::models::chat::EventView;
use crate::splitter::after_first_line;
use crate::splitter::first_line;
use crate::splitter::has_line;
use crate::text::decimal;
use crate::text::joined;
use crate::text::lossy_text;
use vstd::prelude::*;

verus! {

/// Where a request stands.
#[derive(Debug, Clone, Copy, PartialEq, Eq, Structural)]
pub enum Phase {
    /// The request was sent; no response has been seen.
    Requesting,
    /// The response is being read.
    Streaming,
    /// The stream is complete. Terminal.
    Finished,
    /// The request has failed. Terminal.
    Errored,
}

/// What the caller of a step is to do next.
#[derive(Debug, Clone, Copy, PartialEq, Eq, Structural)]
pub enum Progress {
    /// Hand over the next input.
    Continue,
    /// The operation has succeeded.
    Completed,
    /// The operation has failed.
    Failed,
}

/// One input of the driver, as plain values.
pub enum InputView {
    /// The response has arrived. `body` is its diagnostic text; it is read
    /// only where the status is no success.
    Response { status: u16, body: Seq<char> },
    /// A chunk of the response body, as it came from the transport.
    Chunk(Seq<u8>),
    /// A chunk of the response body, already decoded to text.
    Text(Seq<char>),
    /// The transport has reached the end of the body.
    EndOfStream,
    /// The transport has failed.
    TransportFailure,
}

/// The state of a driver, as plain values.
pub struct DriverView {
    pub phase: Phase,
    /// The text that is not framed yet.
    pub pending: Seq<char>,
    /// The response text that was accumulated.
    pub content: Seq<char>,
}

/// What one step does.
pub struct StepView {
    pub state: DriverView,
    pub events: Seq<EventView>,
    pub progress: Progress,
}

/// What one line does to the accumulated content.
pub struct LineEffect {
    pub events: Seq<EventView>,
    pub content: Seq<char>,
    /// Whether the line ends the stream.
    pub done: bool,
}

/// What a text does to the accumulated content.
pub struct TextEffect {
    pub events: Seq<EventView>,
    pub content: Seq<char>,
    /// Whether a line of the text ends the stream.
    pub done: bool,
    /// The text that is left unframed; empty once the stream has ended.
    pub rest: Seq<char>,
}

/// The state of a driver before any input.
pub open spec fn initial() -> DriverView {
    DriverView { phase: Phase::Requesting, pending: seq![], content: seq![] }
}

/// Whether `status` is a success code.
pub open spec fn success_status(status: u16) -> bool {
    200 <= status < 300
}

/// The diagnostic for a response that was refused.
pub open spec fn api_error_text(status: u16, body: Seq<char>) -> Seq<char> {
    "API returned "@ + decimal(status as nat) + ": "@ + body
}

/// One `Token` event for each fragment.
pub open spec fn token_events(fragments: Seq<Seq<char>>) -> Seq<EventView> {
    fragments.map_values(|t: Seq<char>| EventView::Token(t))
}

/// What the complete line `line` does when `content` has been accumulated.
pub open spec fn line_effect(content: Seq<char>, line: Seq<char>) -> LineEffect {
    match classify_text(line) {
        LineClass::Ignore => LineEffect { events: seq![], content, done: false },
        LineClass::Terminator => LineEffect {
            events: seq![EventView::Done(content)],
            content,
            done: true,
        },
        LineClass::Data(payload) => match decode_text(payload) {
            Ok(chunk) => LineEffect {
                events: token_events(fragments_of(chunk.choices)),
                content: content + joined(fragments_of(chunk.choices)),
                done: false,
            },
            Err(_) => LineEffect { events: seq![], content, done: false },
        },
    }
}

/// What the text `s` does when `content` has been accumulated: its complete
/// lines take effect in order, up to and including the first that ends the
/// stream.
pub open spec fn text_effect(content: Seq<char>, s: Seq<char>) -> TextEffect
    decreases s.len(),
{
    if !has_line(s) {
        TextEffect { events: seq![], content, done: false, rest: s }
    } else {
        let first = line_effect(content, first_line(s));
        if first.done {
            TextEffect { events: first.events, content: first.content, done: true, rest: seq![] }
        } else {
            let later = text_effect(first.content, after_first_line(s));
            TextEffect {
                events: first.events + later.events,
                content: later.content,
                done: later.done,
                rest: later.rest,
            }
        }
    }
}

/// A step that changes nothing and emits nothing.
pub open spec fn idle(state: DriverView, progress: Progress) -> StepView {
    StepView { state, events: seq![], progress }
}

/// What a chunk of text does to a driver that is streaming.
pub open spec fn stream_text(state: DriverView, text: Seq<char>) -> StepView {
    let effect = text_effect(state.content, state.pending + text);
    StepView {
        state: DriverView {
            phase: if effect.done {
                Phase::Finished
            } else {
                Phase::Streaming
            },
            pending: effect.rest,
            content: effect.content,
        },
        events: effect.events,
        progress: if effect.done {
            Progress::Completed
        } else {
            Progress::Continue
        },
    }
}

/// The driver in a terminal phase, with its buffer released.
pub open spec fn ended(state: DriverView, phase: Phase) -> DriverView {
    DriverView { phase, pending: seq![], content: state.content }
}

/// What `input` does to a driver in state `state`.
pub open spec fn step(state: DriverView, input: InputView) -> StepView {
    match state.phase {
        Phase::Requesting => match input {
            InputView::Response { status, body } => if success_status(status) {
                idle(
                    DriverView {
                        phase: Phase::Streaming,
                        pending: state.pending,
                        content: state.content,
                    },
                    Progress::Continue,
                )
            } else {
                StepView {
                    state: ended(state, Phase::Errored),
                    events: seq![EventView::Error(api_error_text(status, body))],
                    progress: Progress::Failed,
                }
            },
            InputView::TransportFailure => idle(ended(state, Phase::Errored), Progress::Failed),
            _ => idle(state, Progress::Continue),
        },
        Phase::Streaming => match input {
            InputView::Chunk(bytes) => stream_text(state, lossy_text(bytes)),
            InputView::Text(text) => stream_text(state, text),
            InputView::EndOfStream => StepView {
                state: ended(state, Phase::Finished),
                events: seq![EventView::Done(state.content)],
                progress: Progress::Completed,
            },
            InputView::TransportFailure => idle(ended(state, Phase::Errored), Progress::Failed),
            InputView::Response { .. } => idle(state, Progress::Continue),
        },
        Phase::Finished => idle(state, Progress::Completed),
        Phase::Errored => idle(state, Progress::Failed),
    }
}

/// Where a run ends and what it has emitted.
pub struct RunView {
    pub state: DriverView,
    pub events: Seq<EventView>,
}

/// What the inputs `inputs`, taken in order, do to a driver in state
/// `state`.
pub open spec fn run(state: DriverView, inputs: Seq<InputView>) -> RunView
    decreases inputs.len(),
{
    if inputs.len() == 0 {
        RunView { state, events: seq![] }
    } else {
        let first = step(state, inputs[0]);
        let later = run(first.state, inputs.drop_first());
        RunView { state: later.state, events: first.events + later.events }
    }
}

} // verus!
