//! The payload decoder: from the text of one data frame to a delta chunk,
//! and from a delta chunk to the text fragments it carries.

use crate::json::field_of;
use crate::json::json_document;
use crate::json::JsonValue;
use crate::models::chat::optional_text;
use crate::models::chat::ChoiceView;
use crate::models::chat::ChunkView;
use crate::models::chat::DeltaView;
use crate::models::chat::PerplexityChoice;
use crate::models::chat::PerplexityDelta;
use crate::models::chat::PerplexityStreamChunk;
use crate::text::texts;
use vstd::prelude::*;

verus! {

/// Why a payload is not a delta chunk.
#[derive(Debug, Clone, Copy, PartialEq, Eq, Structural)]
pub enum DecodeError {
    /// The payload is not a JSON document.
    Syntax,
    /// The payload is JSON of another shape.
    Shape,
}

/// The optional string member `key` of `value`: absent and `null` both read
/// as no string; a member of any other kind does not fit.
pub open spec fn text_member(value: JsonValue, key: Seq<char>) -> Option<Option<Seq<char>>> {
    match field_of(value, key) {
        None => Some(None),
        Some(JsonValue::Null) => Some(None),
        Some(JsonValue::Text(s)) => Some(Some(s@)),
        Some(_) => None,
    }
}

/// The delta that the object `value` stands for.
pub open spec fn delta_of(value: JsonValue) -> Option<DeltaView> {
    match value {
        JsonValue::Object(_) => match text_member(value, "content"@) {
            Some(content) => Some(DeltaView { content }),
            None => None,
        },
        _ => None,
    }
}

/// The optional member `delta` of `value`.
pub open spec fn delta_member(value: JsonValue) -> Option<Option<DeltaView>> {
    match field_of(value, "delta"@) {
        None => Some(None),
        Some(JsonValue::Null) => Some(None),
        Some(inner) => match delta_of(inner) {
            Some(delta) => Some(Some(delta)),
            None => None,
        },
    }
}

/// The choice that the object `value` stands for.
pub open spec fn choice_of(value: JsonValue) -> Option<ChoiceView> {
    match value {
        JsonValue::Object(_) => match delta_member(value) {
            Some(delta) => match text_member(value, "finish_reason"@) {
                Some(finish_reason) => Some(ChoiceView { delta, finish_reason }),
                None => None,
            },
            None => None,
        },
        _ => None,
    }
}

/// The choices that `items` stand for, where each of them is one.
pub open spec fn choices_of(items: Seq<JsonValue>) -> Option<Seq<ChoiceView>> {
    if forall|i: int| 0 <= i < items.len() ==> choice_of(#[trigger] items[i]) is Some {
        Some(Seq::new(items.len(), |i: int| choice_of(items[i])->0))
    } else {
        None
    }
}

/// The delta chunk that `value` stands for: an object whose member
/// `choices` is an array of choices. Members of other names are ignored.
pub open spec fn chunk_of(value: JsonValue) -> Option<ChunkView> {
    match field_of(value, "choices"@) {
        Some(JsonValue::Array(items)) => match choices_of(items@) {
            Some(choices) => Some(ChunkView { choices }),
            None => None,
        },
        _ => None,
    }
}

/// What decoding the payload `payload` yields.
pub open spec fn decode_text(payload: Seq<char>) -> Result<ChunkView, DecodeError> {
    match json_document(payload) {
        None => Err(DecodeError::Syntax),
        Some(value) => match chunk_of(value) {
            Some(chunk) => Ok(chunk),
            None => Err(DecodeError::Shape),
        },
    }
}

/// A decoding result, the chunk by its view.
pub open spec fn decoded_view(r: Result<PerplexityStreamChunk, DecodeError>) -> Result<
    ChunkView,
    DecodeError,
> {
    match r {
        Ok(chunk) => Ok(chunk@),
        Err(e) => Err(e),
    }
}

/// The fragment that one choice carries: its delta's content, where that is
/// present and not empty.
pub open spec fn fragment_of(choice: ChoiceView) -> Option<Seq<char>> {
    match choice.delta {
        Some(delta) => match delta.content {
            Some(t) => if t.len() > 0 {
                Some(t)
            } else {
                None
            },
            None => None,
        },
        None => None,
    }
}

/// The fragments that `choices` carry, in the order of the choices.
pub open spec fn fragments_of(choices: Seq<ChoiceView>) -> Seq<Seq<char>>
    decreases choices.len(),
{
    if choices.len() == 0 {
        seq![]
    } else {
        let before = fragments_of(choices.drop_last());
        match fragment_of(choices.last()) {
            Some(t) => before.push(t),
            None => before,
        }
    }
}

fn read_text_member(value: &JsonValue, key: &str) -> (r: Option<Option<String>>)
    ensures
        match r {
            Some(t) => text_member(*value, key@) == Some(optional_text(t)),
            None => text_member(*value, key@) is None,
        },
{
    match value.get(key) {
        None => Some(None),
        Some(JsonValue::Null) => Some(None),
        Some(JsonValue::Text(s)) => Some(Some(s.clone())),
        Some(_) => None,
    }
}

fn read_delta(value: &JsonValue) -> (r: Option<PerplexityDelta>)
    ensures
        match r {
            Some(d) => delta_of(*value) == Some(d@),
            None => delta_of(*value) is None,
        },
{
    match value {
        JsonValue::Object(_) => match read_text_member(value, "content") {
            Some(content) => Some(PerplexityDelta { content }),
            None => None,
        },
        _ => None,
    }
}

fn read_delta_member(value: &JsonValue) -> (r: Option<Option<PerplexityDelta>>)
    ensures
        match r {
            Some(Some(d)) => delta_member(*value) == Some(Some(d@)),
            Some(None) => delta_member(*value) == Some(None::<DeltaView>),
            None => delta_member(*value) is None,
        },
{
    match value.get("delta") {
        None => Some(None),
        Some(JsonValue::Null) => Some(None),
        Some(inner) => match read_delta(inner) {
            Some(delta) => Some(Some(delta)),
            None => None,
        },
    }
}

fn read_choice(value: &JsonValue) -> (r: Option<PerplexityChoice>)
    ensures
        match r {
            Some(c) => choice_of(*value) == Some(c@),
            None => choice_of(*value) is None,
        },
{
    match value {
        JsonValue::Object(_) => match read_delta_member(value) {
            Some(delta) => match read_text_member(value, "finish_reason") {
                Some(finish_reason) => Some(PerplexityChoice { delta, finish_reason }),
                None => None,
            },
            None => None,
        },
        _ => None,
    }
}

/// Reads a parsed JSON document as a delta chunk.
pub fn chunk_from_json(value: &JsonValue) -> (r: Result<PerplexityStreamChunk, DecodeError>)
    ensures
        match r {
            Ok(chunk) => chunk_of(*value) == Some(chunk@),
            Err(e) => e == DecodeError::Shape && chunk_of(*value) is None,
        },
{
    match value.get("choices") {
        Some(JsonValue::Array(items)) => {
            let mut choices: Vec<PerplexityChoice> = Vec::new();
            let mut i: usize = 0;
            while i < items.len()
                invariant
                    i <= items.len(),
                    choices.len() == i,
                    chunk_of(*value) == match choices_of(items@) {
                        Some(found) => Some(ChunkView { choices: found }),
                        None => None,
                    },
                    forall|j: int|
                        0 <= j < i ==> choice_of(#[trigger] items@[j]) == Some(choices@[j]@),
                decreases items.len() - i,
            {
                match read_choice(&items[i]) {
                    Some(choice) => {
                        choices.push(choice);
                    },
                    None => {
                        return Err(DecodeError::Shape);
                    },
                }
                i = i + 1;
            }
            let chunk = PerplexityStreamChunk { choices };
            proof {
                assert(chunk@.choices == choices_of(items@)->0);
            }
            Ok(chunk)
        },
        _ => Err(DecodeError::Shape),
    }
}

/// Decodes the payload of one data frame.
pub fn decode(payload: &str) -> (r: Result<PerplexityStreamChunk, DecodeError>)
    ensures
        decoded_view(r) == decode_text(payload@),
{
    match JsonValue::parse(payload) {
        None => Err(DecodeError::Syntax),
        Some(value) => chunk_from_json(&value),
    }
}

/// The text fragments that a delta chunk carries, in the order of its
/// choices.
pub fn fragments(chunk: &PerplexityStreamChunk) -> (out: Vec<String>)
    ensures
        texts(out@) == fragments_of(chunk@.choices),
{
    let mut out: Vec<String> = Vec::new();
    let mut i: usize = 0;
    while i < chunk.choices.len()
        invariant
            i <= chunk.choices.len(),
            texts(out@) == fragments_of(chunk@.choices.take(i as int)),
        decreases chunk.choices.len() - i,
    {
        assert(chunk@.choices.take(i + 1).drop_last() == chunk@.choices.take(i as int));
        if let Some(delta) = &chunk.choices[i].delta {
            if let Some(content) = &delta.content {
                if !content.as_str().is_empty() {
                    out.push(content.clone());
                }
            }
        }
        i = i + 1;
    }
    proof {
        assert(chunk@.choices.take(chunk.choices.len() as int) == chunk@.choices);
    }
    out
}

} // verus!
