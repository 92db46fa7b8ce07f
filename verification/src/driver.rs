//! The stream driver: it takes what the transport delivers, one input at a
//! time, and says which events to emit and what to do next. It performs no
//! input or output itself.

use crate::classifier::classify_chars;
use crate::classifier::LineKind;
use crate::decoder::decode;
use crate::decoder::fragments;
use crate::decoder::fragments_of;
use crate::machine::api_error_text;
use crate::machine::DriverView;
use crate::machine::initial;
use crate::machine::InputView;
use crate::machine::line_effect;
use crate::machine::Phase;
use crate::machine::Progress;
use crate::machine::run;
use crate::machine::step;
use crate::machine::StepView;
use crate::machine::stream_text;
use crate::machine::success_status;
use crate::machine::text_effect;
use crate::machine::token_events;
use crate::models::chat::event_views;
use crate::models::chat::EventView;
use crate::models::chat::PerplexityStreamChunk;
use crate::models::chat::StreamEvent;
use crate::splitter::FrameSplitter;
use crate::splitter::lemma_first_newline;
use crate::text::decode_lossy;
use crate::text::joined;
use crate::text::lemma_joined_push;
use crate::text::push_decimal;
use crate::text::texts;
use crate::theorems::lemma_run_concat;
use crate::theorems::lemma_run_one;
use vstd::prelude::*;

verus! {

/// One input of the driver.
#[derive(Debug, Clone, PartialEq, Eq)]
pub enum DriverInput {
    /// The response has arrived. `body` is its diagnostic text; it is read
    /// only where the status is no success.
    Response { status: u16, body: String },
    /// A chunk of the response body, as it came from the transport.
    Chunk(Vec<u8>),
    /// A chunk of the response body, already decoded to text.
    Text(String),
    /// The transport has reached the end of the body.
    EndOfStream,
    /// The transport has failed.
    TransportFailure,
}

impl View for DriverInput {
    type V = InputView;

    open spec fn view(&self) -> InputView {
        match self {
            DriverInput::Response { status, body } => InputView::Response {
                status: *status,
                body: body@,
            },
            DriverInput::Chunk(bytes) => InputView::Chunk(bytes@),
            DriverInput::Text(text) => InputView::Text(text@),
            DriverInput::EndOfStream => InputView::EndOfStream,
            DriverInput::TransportFailure => InputView::TransportFailure,
        }
    }
}

/// The inputs of a sequence, each by its view.
pub open spec fn input_views(inputs: Seq<DriverInput>) -> Seq<InputView> {
    inputs.map_values(|i: DriverInput| i@)
}

/// What one step of the driver hands back: the events to emit, in order,
/// and what to do next.
#[derive(Debug, PartialEq, Eq)]
pub struct StepOutput {
    pub events: Vec<StreamEvent>,
    pub progress: Progress,
}

/// Whether the output `out` and the state `after` are what `model` says.
pub open spec fn agrees(out: StepOutput, after: DriverView, model: StepView) -> bool {
    &&& after.phase == model.state.phase
    &&& after.pending =~= model.state.pending
    &&& after.content =~= model.state.content
    &&& event_views(out.events@) =~= model.events
    &&& out.progress == model.progress
}

/// Whether `status` is a success code.
pub fn is_success(status: u16) -> (b: bool)
    ensures
        b == success_status(status),
{
    200 <= status && status < 300
}

/// The diagnostic for a response that was refused with `status` and `body`.
pub fn api_error_message(status: u16, body: &str) -> (message: String)
    ensures
        message@ == api_error_text(status, body@),
{
    let mut message = String::from_str("API returned ");
    push_decimal(&mut message, status);
    message.append(": ");
    message.append(body);
    message
}

/// Appends the fragments of `chunk` to `content`, and gives one `Token`
/// event for each of them, in order.
pub fn apply_delta(content: &mut String, chunk: &PerplexityStreamChunk) -> (events: Vec<
    StreamEvent,
>)
    ensures
        final(content)@ == old(content)@ + joined(fragments_of(chunk@.choices)),
        event_views(events@) == token_events(fragments_of(chunk@.choices)),
{
    let found = fragments(chunk);
    let ghost all = texts(found@);
    let ghost start = content@;
    let mut events: Vec<StreamEvent> = Vec::new();
    let mut i: usize = 0;
    while i < found.len()
        invariant
            i <= found.len(),
            all == texts(found@),
            content@ == start + joined(all.take(i as int)),
            event_views(events@) == token_events(all.take(i as int)),
        decreases found.len() - i,
    {
        let ghost sofar = events@;
        content.append(found[i].as_str());
        events.push(StreamEvent::Token(found[i].clone()));
        proof {
            let t = found@[i as int]@;
            assert(all.take(i + 1) == all.take(i as int).push(t));
            lemma_joined_push(all.take(i as int), t);
            assert(event_views(events@) == event_views(sofar).push(EventView::Token(t)));
        }
        i = i + 1;
    }
    proof {
        assert(all.take(found.len() as int) == all);
    }
    events
}

fn append_events(events: &mut Vec<StreamEvent>, more: Vec<StreamEvent>)
    ensures
        event_views(final(events)@) == event_views(old(events)@) + event_views(more@),
{
    let mut more = more;
    events.append(&mut more);
}

fn apply_line(content: &mut String, line: &Vec<char>, events: &mut Vec<StreamEvent>) -> (done: bool)
    ensures
        final(content)@ == line_effect(old(content)@, line@).content,
        event_views(final(events)@) == event_views(old(events)@) + line_effect(
            old(content)@,
            line@,
        ).events,
        done == line_effect(old(content)@, line@).done,
{
    match classify_chars(line) {
        LineKind::Ignore => false,
        LineKind::Terminator => {
            events.push(StreamEvent::Done(content.clone()));
            true
        },
        LineKind::Data(payload) => match decode(payload.as_str()) {
            Ok(chunk) => {
                let tokens = apply_delta(content, &chunk);
                append_events(events, tokens);
                false
            },
            Err(_) => false,
        },
    }
}

/// The stream driver of one request.
pub struct StreamDriver {
    phase: Phase,
    splitter: FrameSplitter,
    content: String,
}

impl View for StreamDriver {
    type V = DriverView;

    closed spec fn view(&self) -> DriverView {
        DriverView { phase: self.phase, pending: self.splitter@, content: self.content@ }
    }
}

impl StreamDriver {
    /// The driver of a request that was just sent.
    pub fn new() -> (driver: Self)
        ensures
            driver@ == initial(),
    {
        StreamDriver {
            phase: Phase::Requesting,
            splitter: FrameSplitter::new(),
            content: String::new(),
        }
    }

    /// Where the request stands.
    pub fn phase(&self) -> (phase: Phase)
        ensures
            phase == self@.phase,
    {
        self.phase
    }

    /// The response text that was accumulated so far.
    pub fn content(&self) -> (content: &str)
        ensures
            content@ == self@.content,
    {
        self.content.as_str()
    }

    fn stay(&self) -> (out: StepOutput)
        ensures
            out.events@.len() == 0,
            out.progress == match self@.phase {
                Phase::Finished => Progress::Completed,
                Phase::Errored => Progress::Failed,
                _ => Progress::Continue,
            },
    {
        let progress = match self.phase {
            Phase::Finished => Progress::Completed,
            Phase::Errored => Progress::Failed,
            _ => Progress::Continue,
        };
        StepOutput { events: Vec::new(), progress }
    }

    fn fail(&mut self, events: Vec<StreamEvent>) -> (out: StepOutput)
        ensures
            final(self)@.phase == Phase::Errored,
            final(self)@.pending == Seq::<char>::empty(),
            final(self)@.content == old(self)@.content,
            out.events == events,
            out.progress == Progress::Failed,
    {
        self.phase = Phase::Errored;
        self.splitter.clear();
        StepOutput { events, progress: Progress::Failed }
    }

    fn feed(&mut self, text: &str) -> (out: StepOutput)
        requires
            old(self)@.phase == Phase::Streaming,
        ensures
            agrees(out, final(self)@, stream_text(old(self)@, text@)),
    {
        self.splitter.push_text(text);
        let ghost whole = text_effect(self.content@, self.splitter@);
        let mut events: Vec<StreamEvent> = Vec::new();
        let mut done = false;
        let mut open = true;
        while open
            invariant
                self.phase == Phase::Streaming,
                open ==> !done,
                open ==> {
                    let later = text_effect(self.content@, self.splitter@);
                    &&& whole.events == event_views(events@) + later.events
                    &&& whole.content == later.content
                    &&& whole.done == later.done
                    &&& whole.rest == later.rest
                },
                !open ==> {
                    &&& whole.events == event_views(events@)
                    &&& whole.content == self.content@
                    &&& whole.done == done
                    &&& !done ==> whole.rest == self.splitter@
                    &&& done ==> whole.rest == Seq::<char>::empty()
                },
            decreases
                    self.splitter@.len() + (if open {
                        1nat
                    } else {
                        0nat
                    }),
        {
            let ghost held = self.splitter@;
            match self.splitter.next_line_chars() {
                None => {
                    open = false;
                },
                Some(line) => {
                    proof {
                        lemma_first_newline(held);
                    }
                    if apply_line(&mut self.content, &line, &mut events) {
                        done = true;
                        open = false;
                    }
                },
            }
        }
        if done {
            self.phase = Phase::Finished;
            self.splitter.clear();
            StepOutput { events, progress: Progress::Completed }
        } else {
            StepOutput { events, progress: Progress::Continue }
        }
    }

    /// The response has arrived with `status`. `body` is its diagnostic
    /// text, which is read only where the status is no success.
    pub fn on_response(&mut self, status: u16, body: &str) -> (out: StepOutput)
        ensures
            agrees(
                out,
                final(self)@,
                step(old(self)@, InputView::Response { status, body: body@ }),
            ),
    {
        match self.phase {
            Phase::Requesting => {
                if is_success(status) {
                    self.phase = Phase::Streaming;
                    StepOutput { events: Vec::new(), progress: Progress::Continue }
                } else {
                    let mut events: Vec<StreamEvent> = Vec::new();
                    events.push(StreamEvent::Error(api_error_message(status, body)));
                    self.fail(events)
                }
            },
            _ => self.stay(),
        }
    }

    /// A chunk of the response body has arrived, already decoded to text.
    pub fn on_text(&mut self, text: &str) -> (out: StepOutput)
        ensures
            agrees(out, final(self)@, step(old(self)@, InputView::Text(text@))),
    {
        match self.phase {
            Phase::Streaming => self.feed(text),
            _ => self.stay(),
        }
    }

    /// A chunk of the response body has arrived.
    pub fn on_chunk(&mut self, bytes: &[u8]) -> (out: StepOutput)
        ensures
            agrees(out, final(self)@, step(old(self)@, InputView::Chunk(bytes@))),
    {
        match self.phase {
            Phase::Streaming => {
                let text = decode_lossy(bytes);
                self.feed(text.as_str())
            },
            _ => self.stay(),
        }
    }

    /// The transport has reached the end of the body.
    pub fn on_end_of_stream(&mut self) -> (out: StepOutput)
        ensures
            agrees(out, final(self)@, step(old(self)@, InputView::EndOfStream)),
    {
        match self.phase {
            Phase::Streaming => {
                let mut events: Vec<StreamEvent> = Vec::new();
                events.push(StreamEvent::Done(self.content.clone()));
                self.phase = Phase::Finished;
                self.splitter.clear();
                StepOutput { events, progress: Progress::Completed }
            },
            _ => self.stay(),
        }
    }

    /// The transport has failed.
    pub fn on_transport_failure(&mut self) -> (out: StepOutput)
        ensures
            agrees(out, final(self)@, step(old(self)@, InputView::TransportFailure)),
    {
        match self.phase {
            Phase::Requesting | Phase::Streaming => self.fail(Vec::new()),
            _ => self.stay(),
        }
    }

    /// Takes the inputs of a recorded exchange, in order, and gives every
    /// event that they emit.
    pub fn run(&mut self, inputs: &Vec<DriverInput>) -> (events: Vec<StreamEvent>)
        ensures
            final(self)@.phase == run(old(self)@, input_views(inputs@)).state.phase,
            final(self)@.pending == run(old(self)@, input_views(inputs@)).state.pending,
            final(self)@.content == run(old(self)@, input_views(inputs@)).state.content,
            event_views(events@) == run(old(self)@, input_views(inputs@)).events,
    {
        let ghost start = self@;
        let ghost all = input_views(inputs@);
        let mut events: Vec<StreamEvent> = Vec::new();
        let mut i: usize = 0;
        while i < inputs.len()
            invariant
                i <= inputs.len(),
                all == input_views(inputs@),
                self@.phase == run(start, all.take(i as int)).state.phase,
                self@.pending == run(start, all.take(i as int)).state.pending,
                self@.content == run(start, all.take(i as int)).state.content,
                event_views(events@) == run(start, all.take(i as int)).events,
            decreases inputs.len() - i,
        {
            let out = self.step(&inputs[i]);
            proof {
                let done = all.take(i as int);
                let mid = run(start, done).state;
                assert(all.take(i + 1) == done + seq![all[i as int]]);
                lemma_run_concat(start, done, seq![all[i as int]]);
                lemma_run_one(mid, all[i as int]);
            }
            append_events(&mut events, out.events);
            i = i + 1;
        }
        proof {
            assert(all.take(inputs.len() as int) == all);
        }
        events
    }

    /// Takes one input: the state moves on and the events to emit come
    /// back, with what to do next.
    pub fn step(&mut self, input: &DriverInput) -> (out: StepOutput)
        ensures
            agrees(out, final(self)@, step(old(self)@, input@)),
    {
        match input {
            DriverInput::Response { status, body } => self.on_response(*status, body.as_str()),
            DriverInput::Chunk(bytes) => self.on_chunk(bytes.as_slice()),
            DriverInput::Text(text) => self.on_text(text.as_str()),
            DriverInput::EndOfStream => self.on_end_of_stream(),
            DriverInput::TransportFailure => self.on_transport_failure(),
        }
    }
}

} // verus!
