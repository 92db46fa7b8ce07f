//! The data that travels through a chat-completion exchange: the messages
//! sent, the delta chunks received, and the events handed to the consumer.

use vstd::prelude::*;

verus! {

/// One message of a conversation.
#[derive(Debug, Clone, PartialEq, Eq)]
pub struct ChatMessage {
    pub role: String,
    pub content: String,
}

/// What a `ChatMessage` holds, as text.
pub struct ChatMessageView {
    pub role: Seq<char>,
    pub content: Seq<char>,
}

impl View for ChatMessage {
    type V = ChatMessageView;

    open spec fn view(&self) -> ChatMessageView {
        ChatMessageView { role: self.role@, content: self.content@ }
    }
}

/// The incremental part of one choice.
#[derive(Debug, PartialEq, Eq)]
pub struct PerplexityDelta {
    pub content: Option<String>,
}

/// One entry of a delta chunk's `choices`.
#[derive(Debug, PartialEq, Eq)]
pub struct PerplexityChoice {
    pub delta: Option<PerplexityDelta>,
    pub finish_reason: Option<String>,
}

/// What one data frame of the stream decodes to.
#[derive(Debug, PartialEq, Eq)]
pub struct PerplexityStreamChunk {
    pub choices: Vec<PerplexityChoice>,
}

/// The text of an optional string.
pub open spec fn optional_text(s: Option<String>) -> Option<Seq<char>> {
    match s {
        Some(t) => Some(t@),
        None => None,
    }
}

/// What a `PerplexityDelta` holds.
pub struct DeltaView {
    pub content: Option<Seq<char>>,
}

/// What a `PerplexityChoice` holds.
pub struct ChoiceView {
    pub delta: Option<DeltaView>,
    pub finish_reason: Option<Seq<char>>,
}

/// What a `PerplexityStreamChunk` holds.
pub struct ChunkView {
    pub choices: Seq<ChoiceView>,
}

impl View for PerplexityDelta {
    type V = DeltaView;

    open spec fn view(&self) -> DeltaView {
        DeltaView { content: optional_text(self.content) }
    }
}

impl View for PerplexityChoice {
    type V = ChoiceView;

    open spec fn view(&self) -> ChoiceView {
        ChoiceView {
            delta: match self.delta {
                Some(d) => Some(d@),
                None => None,
            },
            finish_reason: optional_text(self.finish_reason),
        }
    }
}

impl View for PerplexityStreamChunk {
    type V = ChunkView;

    open spec fn view(&self) -> ChunkView {
        ChunkView { choices: self.choices@.map_values(|c: PerplexityChoice| c@) }
    }
}

/// A markdown document read from local storage.
#[derive(Debug, Clone, PartialEq, Eq)]
pub struct MarkdownFile {
    pub name: String,
    pub path: String,
    pub content: String,
}

/// What a `MarkdownFile` holds, as text.
pub struct MarkdownFileView {
    pub name: Seq<char>,
    pub path: Seq<char>,
    pub content: Seq<char>,
}

impl View for MarkdownFile {
    type V = MarkdownFileView;

    open spec fn view(&self) -> MarkdownFileView {
        MarkdownFileView { name: self.name@, path: self.path@, content: self.content@ }
    }
}

impl MarkdownFile {
    /// The record of a file that was read from `path`. Its name is the
    /// path's final component where the path has one, and the whole path
    /// otherwise.
    pub fn from_read(path: String, file_name: Option<String>, content: String) -> (file: Self)
        ensures
            file@.path == path@,
            file@.content == content@,
            file@.name == match file_name {
                Some(n) => n@,
                None => path@,
            },
    {
        let name = match file_name {
            Some(n) => n,
            None => path.clone(),
        };
        MarkdownFile { name, path, content }
    }
}

/// What the decoder tells its consumer.
#[derive(Debug, Clone, PartialEq, Eq)]
pub enum StreamEvent {
    /// One incremental fragment of the response text.
    Token(String),
    /// The stream is complete; the payload is the whole response text.
    Done(String),
    /// The request failed; the payload is a diagnostic.
    Error(String),
}

/// What a `StreamEvent` holds, as text.
pub enum EventView {
    Token(Seq<char>),
    Done(Seq<char>),
    Error(Seq<char>),
}

impl View for StreamEvent {
    type V = EventView;

    open spec fn view(&self) -> EventView {
        match self {
            StreamEvent::Token(t) => EventView::Token(t@),
            StreamEvent::Done(t) => EventView::Done(t@),
            StreamEvent::Error(t) => EventView::Error(t@),
        }
    }
}

/// The events of a vector, each by its view.
pub open spec fn event_views(events: Seq<StreamEvent>) -> Seq<EventView> {
    events.map_values(|e: StreamEvent| e@)
}

} // verus!
