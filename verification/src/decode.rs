//! Decodes one line of the diagnostic stream.
//!
//! A line is one JSON object. Its member `message`, where it is present and
//! not `null`, is an object with a string `level` and an array `spans`; each
//! span is an object with a string `file_name` and two line numbers,
//! `line_start` and `line_end`, that fit in 32 bits. Members beyond these are
//! not looked at.

use crate::diagnostics::{
    level_named, Diagnostic, DiagnosticView, Level, Message, MessageView, Span, SpanView,
};
use crate::json::{json_member, json_parsed, json_shape, member_of, parse_json, JsonShape};
use vstd::prelude::*;

verus! {

/// The string that `value` holds under `key`.
pub open spec fn text_member(value: serde_json::Value, key: Seq<char>) -> Option<Seq<char>> {
    match member_of(value, key) {
        Some(member) => match json_shape(member) {
            JsonShape::Text(text) => Some(text),
            _ => None,
        },
        None => None,
    }
}

/// The line number that `value` holds under `key`: an integer from 0 to
/// 2^32 - 1.
pub open spec fn line_member(value: serde_json::Value, key: Seq<char>) -> Option<u32> {
    match member_of(value, key) {
        Some(member) => match json_shape(member) {
            JsonShape::Unsigned(n) => if n <= u32::MAX {
                Some(n as u32)
            } else {
                None
            },
            _ => None,
        },
        None => None,
    }
}

/// The array that `value` holds under `key`.
pub open spec fn array_member(value: serde_json::Value, key: Seq<char>) -> Option<
    Seq<serde_json::Value>,
> {
    match member_of(value, key) {
        Some(member) => match json_shape(member) {
            JsonShape::Array(items) => Some(items),
            _ => None,
        },
        None => None,
    }
}

/// The span that `value` denotes, where it has the three members of one.
pub open spec fn span_of(value: serde_json::Value) -> Option<SpanView> {
    match (
        text_member(value, "file_name"@),
        line_member(value, "line_start"@),
        line_member(value, "line_end"@),
    ) {
        (Some(file_name), Some(line_start), Some(line_end)) => Some(
            SpanView { file_name, line_start, line_end },
        ),
        _ => None,
    }
}

/// The spans that `items` denote, in order, where each of them denotes one.
pub open spec fn spans_of(items: Seq<serde_json::Value>) -> Option<Seq<SpanView>> {
    if forall|i: int| 0 <= i < items.len() ==> span_of(#[trigger] items[i]).is_some() {
        Some(Seq::new(items.len(), |i: int| span_of(items[i]).unwrap()))
    } else {
        None
    }
}

/// The diagnostic that a `message` member denotes: its severity by the name
/// under `level`, its spans from the array under `spans`.
pub open spec fn message_of(value: serde_json::Value) -> Option<DiagnosticView> {
    match (text_member(value, "level"@), array_member(value, "spans"@)) {
        (Some(name), Some(items)) => match spans_of(items) {
            Some(spans) => Some(
                DiagnosticView { level: level_named(name), message: Some(MessageView { spans }) },
            ),
            None => None,
        },
        _ => None,
    }
}

/// A record that is no diagnostic: it has no message, and no severity that
/// is known.
pub open spec fn notice() -> DiagnosticView {
    DiagnosticView { level: Level::Unknown, message: None }
}

/// The record that a parsed line denotes, or `None` where the line has not
/// the shape of one.
pub open spec fn diagnostic_of(value: serde_json::Value) -> Option<DiagnosticView> {
    if !(json_shape(value) is Object) {
        None
    } else {
        match member_of(value, "message"@) {
            None => Some(notice()),
            Some(message) => if json_shape(message) is Null {
                Some(notice())
            } else {
                message_of(message)
            },
        }
    }
}

/// The record that a line of text denotes, or `None` where the line is not
/// JSON or has not the shape of a record.
pub open spec fn decoded(line: Seq<char>) -> Option<DiagnosticView> {
    match json_parsed(line) {
        Some(value) => diagnostic_of(value),
        None => None,
    }
}

/// A line of the stream that is no record.
#[derive(Clone, Debug, PartialEq, Eq)]
pub struct DecodeError {
    /// The line as it was read.
    pub line: String,
}

fn text_of<'a>(value: &'a serde_json::Value, key: &str) -> (r: Option<&'a str>)
    ensures
        match r {
            Some(text) => text_member(*value, key@) == Some(text@),
            None => text_member(*value, key@).is_none(),
        },
{
    match json_member(value, key) {
        Some(member) => member.as_str(),
        None => None,
    }
}

fn line_of(value: &serde_json::Value, key: &str) -> (r: Option<u32>)
    ensures
        r == line_member(*value, key@),
{
    match json_member(value, key) {
        Some(member) => match member.as_u64() {
            Some(n) => if n <= 0xffff_ffff {
                Some(n as u32)
            } else {
                None
            },
            None => None,
        },
        None => None,
    }
}

/// Reads one span from its JSON value.
pub fn span_from_value(value: &serde_json::Value) -> (r: Option<Span>)
    ensures
        match r {
            Some(span) => span_of(*value) == Some(span@),
            None => span_of(*value).is_none(),
        },
{
    let file_name = match text_of(value, "file_name") {
        Some(text) => text,
        None => { return None; },
    };
    let line_start = match line_of(value, "line_start") {
        Some(n) => n,
        None => { return None; },
    };
    let line_end = match line_of(value, "line_end") {
        Some(n) => n,
        None => { return None; },
    };
    Some(Span { file_name: file_name.to_owned(), line_start, line_end })
}

fn spans_from_values(items: &Vec<serde_json::Value>) -> (r: Option<Vec<Span>>)
    ensures
        match r {
            Some(spans) => spans_of(items@) == Some(crate::diagnostics::spans_view(spans@)),
            None => spans_of(items@).is_none(),
        },
{
    let mut spans: Vec<Span> = Vec::new();
    let mut i: usize = 0;
    while i < items.len()
        invariant
            i <= items@.len(),
            spans@.len() == i,
            forall|j: int| 0 <= j < i ==> span_of(#[trigger] items@[j]) == Some(spans@[j]@),
        decreases items@.len() - i,
    {
        match span_from_value(&items[i]) {
            Some(span) => {
                spans.push(span);
            },
            None => {
                return None;
            },
        }
        i += 1;
    }
    proof {
        assert(spans_of(items@).unwrap() =~= crate::diagnostics::spans_view(spans@));
    }
    Some(spans)
}

fn message_from_value(value: &serde_json::Value) -> (r: Option<Diagnostic>)
    ensures
        match r {
            Some(diagnostic) => message_of(*value) == Some(diagnostic@),
            None => message_of(*value).is_none(),
        },
{
    let name = match text_of(value, "level") {
        Some(name) => name,
        None => { return None; },
    };
    let items = match json_member(value, "spans") {
        Some(member) => match member.as_array() {
            Some(items) => items,
            None => { return None; },
        },
        None => { return None; },
    };
    match spans_from_values(items) {
        Some(spans) => Some(
            Diagnostic { level: Level::from_name(name), message: Some(Message { spans }) },
        ),
        None => None,
    }
}

/// Reads one record from its JSON value.
pub fn diagnostic_from_value(value: &serde_json::Value) -> (r: Option<Diagnostic>)
    ensures
        match r {
            Some(diagnostic) => diagnostic_of(*value) == Some(diagnostic@),
            None => diagnostic_of(*value).is_none(),
        },
{
    if !value.is_object() {
        return None;
    }
    match json_member(value, "message") {
        None => Some(Diagnostic { level: Level::Unknown, message: None }),
        Some(message) => if message.is_null() {
            Some(Diagnostic { level: Level::Unknown, message: None })
        } else {
            message_from_value(message)
        },
    }
}

/// Decodes one line of the stream. A line that is not JSON, or has not the
/// shape of a record, is refused with the line itself.
pub fn decode_diagnostic(line: &str) -> (r: Result<Diagnostic, DecodeError>)
    ensures
        match r {
            Ok(diagnostic) => decoded(line@) == Some(diagnostic@),
            Err(e) => decoded(line@).is_none() && e.line@ == line@,
        },
{
    let decoded = match parse_json(line) {
        Ok(value) => diagnostic_from_value(&value),
        Err(_) => None,
    };
    match decoded {
        Some(diagnostic) => Ok(diagnostic),
        None => Err(DecodeError { line: line.to_owned() }),
    }
}

} // verus!
