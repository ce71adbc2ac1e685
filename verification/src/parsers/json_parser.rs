use crate::parsers::string_parser::QUOTE;
use crate::parsers::{LogLineMetadata, Parser};
use serde_json::value::RawValue;
use std::collections::BTreeMap;
use vstd::prelude::*;
use vstd::slice::slice_subrange;

verus! {

/// The byte that starts an escape within a JSON string: `\`.
pub const BACKSLASH: u8 = 0x5c;

/// `serde_json::Error`, what `serde_json::from_slice` fails with. Nothing
/// of it is read here.
#[verifier::external_type_specification]
#[verifier::external_body]
pub struct ExJsonError(serde_json::Error);

/// The text of the value that the JSON object `line` holds under `key`, as
/// it stands in `line`. `None` where `line` is no JSON object whose values
/// are text in UTF-8; `Some(None)` where it is one and has no such key. Of a
/// key that occurs more than once the last value counts.
pub uninterp spec fn member_text(line: Seq<u8>, key: Seq<char>) -> Option<Option<Seq<u8>>>;

/// Calls `serde_json::from_slice` for a map from the keys of `line` to its
/// values as `RawValue`, each borrowed from `line`, and looks `key` up in
/// it. The contract names the result `member_text`, a function of the two
/// arguments; an error of `from_slice` is handed on.
#[verifier::external_body]
fn raw_member<'a>(line: &'a [u8], key: &str) -> (member: Result<
    Option<&'a [u8]>,
    serde_json::Error,
>)
    ensures
        match member {
            Ok(Some(text)) => member_text(line@, key@) == Some(Some(text@)),
            Ok(None) => member_text(line@, key@) == Some(None::<Seq<u8>>),
            Err(_) => member_text(line@, key@) is None,
        },
{
    let members: BTreeMap<String, &'a RawValue> = serde_json::from_slice(line)?;
    Ok(members.get(key).map(|raw| raw.get().as_bytes()))
}

/// What stands between the quotes of `text`, where `text` is a JSON string
/// without an escape.
pub open spec fn plain_string(text: Seq<u8>) -> Option<Seq<u8>> {
    if text.len() >= 2 && text[0] == QUOTE && text[text.len() - 1] == QUOTE && forall|i: int|
        0 < i < text.len() - 1 ==> text[i] != BACKSLASH {
        Some(text.subrange(1, text.len() - 1))
    } else {
        None
    }
}

/// A record as far as it is read: the name of its type.
#[derive(Debug, PartialEq)]
pub struct LogLine<'a> {
    pub typ: &'a [u8],
}

impl<'a> LogLine<'a> {
    /// Reads a record off the text of its `type` value. The value has to be
    /// a string, and one without an escape: only such a string stands in
    /// the record as it reads.
    pub fn from_member(text: &'a [u8]) -> (line: Option<LogLine<'a>>)
        ensures
            line is Some <==> plain_string(text@) is Some,
            line matches Some(log_line) ==> plain_string(text@) == Some(log_line.typ@),
    {
        let length: usize = text.len();
        if length < 2 || text[0] != QUOTE || text[length - 1] != QUOTE {
            return None;
        }
        let mut at: usize = 1;
        while at < length - 1
            invariant
                length == text@.len(),
                length >= 2,
                1 <= at <= length - 1,
                forall|i: int| 0 < i < at ==> text@[i] != BACKSLASH,
            decreases length - at,
        {
            if text[at] == BACKSLASH {
                return None;
            }
            at += 1;
        }
        Some(LogLine { typ: slice_subrange(text, 1, length - 1) })
    }
}

/// Why no type could be read from a record.
#[derive(Debug, Clone, Copy, PartialEq, Eq, Structural)]
pub enum JsonParserError {
    /// The record is no JSON object.
    Malformed,
    /// The object has no `type`.
    MissingType,
    /// The `type` of the object is no string, or one with an escape.
    InvalidType,
}

/// What a record has under `type`, or why it names no type.
pub open spec fn json_type(line: Seq<u8>) -> Result<Seq<u8>, JsonParserError> {
    match member_text(line, "type"@) {
        Some(Some(text)) => match plain_string(text) {
            Some(name) => Ok(name),
            None => Err(JsonParserError::InvalidType),
        },
        Some(None) => Err(JsonParserError::MissingType),
        None => Err(JsonParserError::Malformed),
    }
}

/// Finds the type name by decoding the record as JSON.
pub struct JsonParser;

impl JsonParser {
    /// What `parse` makes of the text that a record has under `type`, or of
    /// its absence.
    pub fn metadata_of_member<'a>(line: &'a [u8], member: Option<&'a [u8]>) -> (parsed: Result<
        LogLineMetadata<'a>,
        JsonParserError,
    >)
        ensures
            match parsed {
                Ok(metadata) => {
                    &&& member matches Some(text)
                    &&& plain_string(text@) == Some(metadata.name@)
                    &&& metadata.bytes == line@.len()
                },
                Err(error) => match member {
                    Some(text) => plain_string(text@) is None && error
                        == JsonParserError::InvalidType,
                    None => error == JsonParserError::MissingType,
                },
            },
    {
        match member {
            Some(text) => match LogLine::from_member(text) {
                Some(log_line) => Ok(LogLineMetadata { name: log_line.typ, bytes: line.len() }),
                None => Err(JsonParserError::InvalidType),
            },
            None => Err(JsonParserError::MissingType),
        }
    }
}

impl Parser for JsonParser {
    type Error = JsonParserError;

    open spec fn type_of(line: Seq<u8>) -> Option<Seq<u8>> {
        match json_type(line) {
            Ok(name) => Some(name),
            Err(_) => None,
        }
    }

    fn parse<'a>(line: &'a [u8]) -> (parsed: Result<LogLineMetadata<'a>, JsonParserError>)
        ensures
            match parsed {
                Ok(metadata) => json_type(line@) == Ok::<Seq<u8>, JsonParserError>(metadata.name@),
                Err(error) => json_type(line@) == Err::<Seq<u8>, JsonParserError>(error),
            },
    {
        match raw_member(line, "type") {
            Ok(member) => JsonParser::metadata_of_member(line, member),
            Err(_) => Err(JsonParserError::Malformed),
        }
    }
}

} // verus!
