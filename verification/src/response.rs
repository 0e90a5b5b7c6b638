//! Reading the text out of a server reply.
//!
//! A reply is tried against two shapes in turn. The strict shape is exactly
//! `{"choices":[{"message":{"content":<string>}}, ...]}` with no other
//! member anywhere; the lenient shape is any document in which
//! `choices[0].message.content` can be reached and is a string.

use vstd::prelude::*;
use crate::error::ImageAnalysisError;
use crate::json::{json_document, parse_json, JsonValue};

verus! {

/// The message of one choice.
#[derive(Debug, Clone, PartialEq, Eq)]
pub struct Message {
    pub content: String,
}

/// One answer that the server offers.
#[derive(Debug, Clone, PartialEq, Eq)]
pub struct Choice {
    pub message: Message,
}

/// A reply in the strict shape.
#[derive(Debug, Clone, PartialEq, Eq)]
pub struct LlamaCppResponse {
    pub choices: Vec<Choice>,
}

/// The two ways of reading a reply, in the order in which they are tried.
#[derive(Debug, Clone, Copy, PartialEq, Eq)]
pub enum ParseStrategy {
    StrictShape,
    LenientShape,
}

/// The contents of a sequence of choices, one text per choice.
pub open spec fn contents_of(choices: Seq<Choice>) -> Seq<Seq<char>> {
    Seq::new(choices.len(), |i: int| choices[i].message.content@)
}

impl LlamaCppResponse {
    /// The reply as the texts of its choices.
    pub open spec fn contents(self) -> Seq<Seq<char>> {
        contents_of(self.choices@)
    }

    /// The text of the first choice, if there is one.
    pub fn first_content(&self) -> (r: Option<&String>)
        ensures
            match r {
                Some(s) => self.contents().len() > 0 && s@ == self.contents()[0],
                None => self.contents().len() == 0,
            },
    {
        if self.choices.len() > 0 {
            Some(&self.choices[0].message.content)
        } else {
            None
        }
    }
}

/// The value of the single member of an object, provided the object has
/// exactly one member and it is filed under `key`.
pub open spec fn sole_member(doc: JsonValue, key: Seq<char>) -> Option<JsonValue> {
    match doc {
        JsonValue::Object(members) => if members@.len() == 1 && members@[0].key@ == key {
            Some(members@[0].value)
        } else {
            None
        },
        _ => None,
    }
}

/// The text of `{"content": <string>}`.
pub open spec fn strict_message(doc: JsonValue) -> Option<Seq<char>> {
    match sole_member(doc, "content"@) {
        Some(JsonValue::Text(s)) => Some(s@),
        _ => None,
    }
}

/// The text of `{"message": {"content": <string>}}`.
pub open spec fn strict_choice(doc: JsonValue) -> Option<Seq<char>> {
    match sole_member(doc, "message"@) {
        Some(message) => strict_message(message),
        None => None,
    }
}

/// The texts of the choices of a reply in the strict shape; `None` where the
/// document, or any one of its choices, departs from that shape.
pub open spec fn strict_contents(doc: JsonValue) -> Option<Seq<Seq<char>>> {
    match sole_member(doc, "choices"@) {
        Some(JsonValue::Array(items)) => if forall|i: int|
            0 <= i < items@.len() ==> (#[trigger] strict_choice(items@[i])) is Some {
            Some(Seq::new(items@.len(), |i: int| strict_choice(items@[i])->0))
        } else {
            None
        },
        _ => None,
    }
}

/// What the strict strategy reads: the first choice's text of a reply in the
/// strict shape.
pub open spec fn strict_text(doc: JsonValue) -> Option<Seq<char>> {
    match strict_contents(doc) {
        Some(contents) => if contents.len() > 0 {
            Some(contents[0])
        } else {
            None
        },
        None => None,
    }
}

/// What the lenient strategy reads: `choices[0].message.content`, where each
/// step of that path exists and the value at its end is a string.
pub open spec fn lenient_text(doc: JsonValue) -> Option<Seq<char>> {
    match doc.spec_member("choices"@) {
        Some(choices) => match choices.spec_element(0) {
            Some(first) => match first.spec_member("message"@) {
                Some(message) => match message.spec_member("content"@) {
                    Some(content) => content.spec_text(),
                    None => None,
                },
                None => None,
            },
            None => None,
        },
        None => None,
    }
}

impl ParseStrategy {
    /// What this strategy reads from `doc`.
    pub open spec fn spec_read(self, doc: JsonValue) -> Option<Seq<char>> {
        match self {
            ParseStrategy::StrictShape => strict_text(doc),
            ParseStrategy::LenientShape => lenient_text(doc),
        }
    }

    /// Reads the text of `doc` by this strategy alone.
    pub fn read(self, doc: &JsonValue) -> (r: Option<String>)
        ensures
            match r {
                Some(s) => self.spec_read(*doc) == Some(s@),
                None => self.spec_read(*doc) is None,
            },
    {
        match self {
            ParseStrategy::StrictShape => match decode_strict(doc) {
                Some(response) => match response.first_content() {
                    Some(s) => Some(s.clone()),
                    None => None,
                },
                None => None,
            },
            ParseStrategy::LenientShape => read_lenient(doc),
        }
    }
}

/// The text that a document yields: the strict reading, or else the lenient
/// one.
pub open spec fn document_text(doc: JsonValue) -> Option<Seq<char>> {
    match strict_text(doc) {
        Some(t) => Some(t),
        None => lenient_text(doc),
    }
}

/// The text that a reply body yields, `None` where the body is no JSON
/// document or neither strategy can read it.
pub open spec fn body_text(body: Seq<char>) -> Option<Seq<char>> {
    match json_document(body) {
        Some(doc) => document_text(doc),
        None => None,
    }
}

fn sole_member_of<'a>(doc: &'a JsonValue, key: &str) -> (r: Option<&'a JsonValue>)
    ensures
        match r {
            Some(v) => sole_member(*doc, key@) == Some(*v),
            None => sole_member(*doc, key@) is None,
        },
{
    match doc {
        JsonValue::Object(members) => {
            if members.len() == 1 {
                let wanted = key.to_owned();
                if members[0].key == wanted {
                    Some(&members[0].value)
                } else {
                    None
                }
            } else {
                None
            }
        },
        _ => None,
    }
}

fn decode_choice(doc: &JsonValue) -> (r: Option<Choice>)
    ensures
        match r {
            Some(c) => strict_choice(*doc) == Some(c.message.content@),
            None => strict_choice(*doc) is None,
        },
{
    match sole_member_of(doc, "message") {
        Some(message) => match sole_member_of(message, "content") {
            Some(JsonValue::Text(s)) => Some(Choice { message: Message { content: s.clone() } }),
            _ => None,
        },
        None => None,
    }
}

/// Decodes a document of the strict shape into a [`LlamaCppResponse`];
/// `None` where the document departs from the shape in any place.
pub fn decode_strict(doc: &JsonValue) -> (r: Option<LlamaCppResponse>)
    ensures
        match r {
            Some(response) => strict_contents(*doc) == Some(response.contents()),
            None => strict_contents(*doc) is None,
        },
{
    match sole_member_of(doc, "choices") {
        Some(JsonValue::Array(items)) => {
            let mut choices: Vec<Choice> = Vec::new();
            let mut i: usize = 0;
            while i < items.len()
                invariant
                    i <= items@.len(),
                    choices@.len() == i,
                    sole_member(*doc, "choices"@) == Some(JsonValue::Array(*items)),
                    forall|j: int|
                        0 <= j < i ==> (#[trigger] strict_choice(items@[j])) == Some(
                            choices@[j].message.content@,
                        ),
                decreases items@.len() - i,
            {
                match decode_choice(&items[i]) {
                    Some(choice) => {
                        choices.push(choice);
                    },
                    None => {
                        assert(strict_choice(items@[i as int]) is None);
                        return None;
                    },
                }
                i = i + 1;
            }
            let response = LlamaCppResponse { choices };
            assert(response.contents() =~= Seq::new(
                items@.len(),
                |i: int| strict_choice(items@[i])->0,
            ));
            Some(response)
        },
        _ => None,
    }
}

/// Walks `choices[0].message.content` and copies the string found there.
pub fn read_lenient(doc: &JsonValue) -> (r: Option<String>)
    ensures
        match r {
            Some(s) => lenient_text(*doc) == Some(s@),
            None => lenient_text(*doc) is None,
        },
{
    let choices = match doc.member("choices") {
        Some(v) => v,
        None => {
            return None;
        },
    };
    let first = match choices.element(0) {
        Some(v) => v,
        None => {
            return None;
        },
    };
    let message = match first.member("message") {
        Some(v) => v,
        None => {
            return None;
        },
    };
    let content = match message.member("content") {
        Some(v) => v,
        None => {
            return None;
        },
    };
    match content.as_text() {
        Some(s) => Some(s.clone()),
        None => None,
    }
}

/// Reads the text of a parsed reply, trying the strict shape first and the
/// lenient one second. The text is returned as it stands: untrimmed, and
/// possibly empty.
pub fn extract_from_document(doc: &JsonValue) -> (r: Result<String, ImageAnalysisError>)
    ensures
        match r {
            Ok(s) => document_text(*doc) == Some(s@),
            Err(e) => e == ImageAnalysisError::MalformedResponse && document_text(*doc) is None,
        },
{
    match ParseStrategy::StrictShape.read(doc) {
        Some(s) => Ok(s),
        None => match ParseStrategy::LenientShape.read(doc) {
            Some(s) => Ok(s),
            None => Err(ImageAnalysisError::MalformedResponse),
        },
    }
}

/// Reads the text of a reply body. Fails with `MalformedResponse` exactly
/// when the body is no JSON document or neither strategy can read it.
pub fn extract_text(body: &str) -> (r: Result<String, ImageAnalysisError>)
    ensures
        match r {
            Ok(s) => body_text(body@) == Some(s@),
            Err(e) => e == ImageAnalysisError::MalformedResponse && body_text(body@) is None,
        },
{
    match parse_json(body) {
        Some(doc) => extract_from_document(&doc),
        None => Err(ImageAnalysisError::MalformedResponse),
    }
}

/// A member that is alone in its object is also the first member under its
/// key.
pub proof fn lemma_sole_member_is_member(doc: JsonValue, key: Seq<char>)
    requires
        sole_member(doc, key) is Some,
    ensures
        doc.spec_member(key) == sole_member(doc, key),
{
    let members = doc->Object_0@;
    assert(crate::json::first_with_key(members, key) == Some(members[0].value));
}

/// Whatever the strict strategy reads from a document, the lenient strategy
/// reads the same text from it.
pub proof fn lemma_strict_implies_lenient(doc: JsonValue)
    requires
        strict_text(doc) is Some,
    ensures
        lenient_text(doc) == strict_text(doc),
{
    lemma_sole_member_is_member(doc, "choices"@);
    let items = sole_member(doc, "choices"@)->0->Array_0@;
    let first = items[0];
    assert(strict_choice(first) is Some);
    lemma_sole_member_is_member(first, "message"@);
    let message = sole_member(first, "message"@)->0;
    lemma_sole_member_is_member(message, "content"@);
}

/// The text of a document is what the lenient strategy reads from it: the
/// strict strategy never changes the outcome, it only confirms it.
pub proof fn lemma_document_text_is_lenient(doc: JsonValue)
    ensures
        document_text(doc) == lenient_text(doc),
{
    if strict_text(doc) is Some {
        lemma_strict_implies_lenient(doc);
    }
}

/// Two documents, one in the strict shape and one from which the lenient
/// strategy reads the same text, yield identical text.
pub proof fn lemma_equivalent_documents_agree(strict_doc: JsonValue, other: JsonValue)
    requires
        strict_text(strict_doc) is Some,
        lenient_text(other) == strict_text(strict_doc),
    ensures
        document_text(strict_doc) == document_text(other),
        document_text(strict_doc) == strict_text(strict_doc),
{
    lemma_document_text_is_lenient(strict_doc);
    lemma_document_text_is_lenient(other);
    lemma_strict_implies_lenient(strict_doc);
}

} // verus!
