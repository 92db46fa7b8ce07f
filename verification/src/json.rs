//! JSON documents as plain values. Parsing is `serde_json`'s; reading a
//! parsed document is verified.

use vstd::prelude::*;

verus! {

#[verifier::external_type_specification]
#[verifier::external_body]
pub struct ExJsonError(serde_json::Error);

#[verifier::external_type_specification]
#[verifier::external_body]
pub struct ExSerdeValue(serde_json::Value);

/// A JSON document.
#[derive(Debug, PartialEq, Eq)]
pub enum JsonValue {
    Null,
    Bool(bool),
    /// A number, by its decimal rendering.
    Number(String),
    Text(String),
    Array(Vec<JsonValue>),
    /// An object, as its members in the order in which the parser's map
    /// yields them.
    Object(Vec<(String, JsonValue)>),
}

/// The document that `text` is the JSON notation of, or `None` where `text`
/// is not one JSON document.
pub uninterp spec fn json_document(text: Seq<char>) -> Option<JsonValue>;

/// Moves a `serde_json::Value` into a `JsonValue`, variant by variant.
///
/// Trusted: nothing is claimed of the result here; `parse_json` names it.
#[verifier::external_body]
fn json_from_serde(value: serde_json::Value) -> JsonValue {
    match value {
        serde_json::Value::Null => JsonValue::Null,
        serde_json::Value::Bool(b) => JsonValue::Bool(b),
        serde_json::Value::Number(n) => JsonValue::Number(n.to_string()),
        serde_json::Value::String(s) => JsonValue::Text(s),
        serde_json::Value::Array(items) => JsonValue::Array(
            items.into_iter().map(json_from_serde).collect(),
        ),
        serde_json::Value::Object(members) => JsonValue::Object(
            members.into_iter().map(|(k, v)| (k, json_from_serde(v))).collect(),
        ),
    }
}

/// Calls `serde_json::from_str` for a `serde_json::Value`.
///
/// Trusted: the parser's verdict is a function of the text alone. Where it
/// accepts, the document is `json_document` of the text; where it reports
/// an error, `json_document` of the text is `None`.
#[verifier::external_body]
pub(crate) fn parse_json(text: &str) -> (parsed: Result<JsonValue, serde_json::Error>)
    ensures
        match parsed {
            Ok(value) => json_document(text@) == Some(value),
            Err(_) => json_document(text@) is None,
        },
{
    serde_json::from_str::<serde_json::Value>(text).map(json_from_serde)
}

/// The first member of `members` whose key is `key`.
pub open spec fn member_of(members: Seq<(String, JsonValue)>, key: Seq<char>) -> Option<JsonValue>
    decreases members.len(),
{
    if members.len() == 0 {
        None
    } else if members[0].0@ == key {
        Some(members[0].1)
    } else {
        member_of(members.drop_first(), key)
    }
}

/// The member `key` of `value` where `value` is an object that has one.
pub open spec fn field_of(value: JsonValue, key: Seq<char>) -> Option<JsonValue> {
    match value {
        JsonValue::Object(members) => member_of(members@, key),
        _ => None,
    }
}

/// A member is found at the first index whose key matches.
pub proof fn lemma_member_at(members: Seq<(String, JsonValue)>, key: Seq<char>, k: int)
    requires
        0 <= k <= members.len(),
        forall|i: int| 0 <= i < k ==> (#[trigger] members[i]).0@ != key,
        k < members.len() ==> members[k].0@ == key,
    ensures
        member_of(members, key) == if k < members.len() {
            Some(members[k].1)
        } else {
            None
        },
    decreases k,
{
    if k > 0 {
        let rest = members.drop_first();
        assert forall|i: int| 0 <= i < k - 1 implies (#[trigger] rest[i]).0@ != key by {
            assert(rest[i] == members[i + 1]);
        }
        lemma_member_at(rest, key, k - 1);
    }
}

impl JsonValue {
    /// Parses one JSON document.
    pub fn parse(text: &str) -> (parsed: Option<JsonValue>)
        ensures
            parsed == json_document(text@),
    {
        match parse_json(text) {
            Ok(value) => Some(value),
            Err(_) => None,
        }
    }

    /// The member `key` of an object; `None` for a value that is no object
    /// or has no such member.
    pub fn get(&self, key: &str) -> (found: Option<&JsonValue>)
        ensures
            match found {
                Some(v) => field_of(*self, key@) == Some(*v),
                None => field_of(*self, key@) is None,
            },
    {
        match self {
            JsonValue::Object(members) => {
                let wanted = String::from_str(key);
                let mut i: usize = 0;
                while i < members.len()
                    invariant
                        i <= members.len(),
                        wanted@ == key@,
                        field_of(*self, key@) == member_of(members@, key@),
                        forall|j: int| 0 <= j < i ==> (#[trigger] members@[j]).0@ != key@,
                    decreases members.len() - i,
                {
                    if members[i].0 == wanted {
                        proof {
                            lemma_member_at(members@, key@, i as int);
                        }
                        return Some(&members[i].1);
                    }
                    i = i + 1;
                }
                proof {
                    lemma_member_at(members@, key@, members@.len() as int);
                }
                None
            },
            _ => None,
        }
    }
}

} // verus!
