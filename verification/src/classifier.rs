//! The event line classifier: what one complete line of the stream means.

use crate::text::chars_of;
use crate::text::string_of;
use crate::text::trim;
use crate::text::trimmed_from;
use vstd::prelude::*;

verus! {

/// What one line of the stream is.
#[derive(Debug, Clone, PartialEq, Eq)]
pub enum LineKind {
    /// A line that carries nothing: blank, a comment, a field that is not
    /// `data`, or a `data` field with nothing in it.
    Ignore,
    /// A data frame with its payload.
    Data(String),
    /// The record that ends the stream.
    Terminator,
}

/// What a `LineKind` holds, the payload as text.
pub enum LineClass {
    Ignore,
    Data(Seq<char>),
    Terminator,
}

impl View for LineKind {
    type V = LineClass;

    open spec fn view(&self) -> LineClass {
        match self {
            LineKind::Ignore => LineClass::Ignore,
            LineKind::Data(payload) => LineClass::Data(payload@),
            LineKind::Terminator => LineClass::Terminator,
        }
    }
}

/// The field name that marks a data frame, with its colon.
pub open spec fn data_prefix() -> Seq<char> {
    seq!['d', 'a', 't', 'a', ':']
}

/// The payload of the record that ends the stream.
pub open spec fn done_marker() -> Seq<char> {
    seq!['[', 'D', 'O', 'N', 'E', ']']
}

/// The class of the line `line`.
pub open spec fn classify_text(line: Seq<char>) -> LineClass {
    if line.len() == 0 {
        LineClass::Ignore
    } else if line[0] == ':' {
        LineClass::Ignore
    } else if !data_prefix().is_prefix_of(line) {
        LineClass::Ignore
    } else {
        let payload = trim(line.skip(5));
        if payload == done_marker() {
            LineClass::Terminator
        } else if payload.len() == 0 {
            LineClass::Ignore
        } else {
            LineClass::Data(payload)
        }
    }
}

fn has_data_prefix(line: &Vec<char>) -> (b: bool)
    ensures
        b == data_prefix().is_prefix_of(line@),
{
    let b = line.len() >= 5 && line[0] == 'd' && line[1] == 'a' && line[2] == 't' && line[3] == 'a'
        && line[4] == ':';
    proof {
        if line.len() >= 5 {
            let head = line@.subrange(0, 5);
            assert(head[0] == line@[0] && head[1] == line@[1] && head[2] == line@[2] && head[3]
                == line@[3] && head[4] == line@[4]);
        }
    }
    b
}

fn is_done_marker(payload: &Vec<char>) -> (b: bool)
    ensures
        b == (payload@ == done_marker()),
{
    let b = payload.len() == 6 && payload[0] == '[' && payload[1] == 'D' && payload[2] == 'O'
        && payload[3] == 'N' && payload[4] == 'E' && payload[5] == ']';
    proof {
        if b {
            assert(payload@ == done_marker());
        }
    }
    b
}

/// Classifies one complete line, given as its characters.
pub fn classify_chars(line: &Vec<char>) -> (kind: LineKind)
    ensures
        kind@ == classify_text(line@),
{
    if line.len() == 0 {
        LineKind::Ignore
    } else if line[0] == ':' {
        LineKind::Ignore
    } else if !has_data_prefix(line) {
        LineKind::Ignore
    } else {
        let payload = trimmed_from(line, 5);
        if is_done_marker(&payload) {
            LineKind::Terminator
        } else if payload.len() == 0 {
            LineKind::Ignore
        } else {
            LineKind::Data(string_of(&payload))
        }
    }
}

/// Classifies one complete line.
pub fn classify(line: &str) -> (kind: LineKind)
    ensures
        kind@ == classify_text(line@),
{
    let chars = chars_of(line);
    classify_chars(&chars)
}

} // verus!
