use crate::parsers::string_parser::QUOTE;
use crate::parsers::{LogLineMetadata, Parser};
use regex::bytes::Regex;
use vstd::prelude::*;
use vstd::slice::slice_subrange;

verus! {

/// The pattern of a type: the key, white space if there is any, a quote and
/// the name, which is the one group of the pattern.
pub const TYPE_PATTERN: &'static str = "\"type\":\\s*\"([^\"]+)";

/// The bounds of group `group` in the leftmost match of the regular
/// expression `pattern` in `haystack`: the offset of its first byte and the
/// offset behind its last. `None` where `pattern` is no regular expression,
/// where nothing in `haystack` matches it, and where the group has no part
/// in the match.
pub uninterp spec fn group_span(pattern: Seq<char>, haystack: Seq<u8>, group: nat) -> Option<
    (int, int),
>;

/// Calls `regex::bytes::Regex::new` on `pattern`, `Regex::captures` on
/// `haystack` and `Captures::get` on `group`, and hands out `Match::start`
/// and `Match::end`. The contract names that result `group_span`, a function
/// of the three arguments, and claims of it what the documentation of
/// `Match` guarantees: the start is no greater than the end, and both are
/// offsets into the haystack.
#[verifier::external_body]
fn capture_group(pattern: &str, haystack: &[u8], group: usize) -> (span: Option<(usize, usize)>)
    ensures
        match span {
            Some((start, end)) => {
                &&& group_span(pattern@, haystack@, group as nat) == Some(
                    (start as int, end as int),
                )
                &&& start <= end <= haystack@.len()
            },
            None => group_span(pattern@, haystack@, group as nat) is None,
        },
{
    let regex = Regex::new(pattern).ok()?;
    let found = regex.captures(haystack)?.get(group)?;
    Some((found.start(), found.end()))
}

/// The name within `span`, where `span` lies in `line`, is not empty and a
/// quote closes it.
pub open spec fn closed_name(line: Seq<u8>, span: Option<(int, int)>) -> Option<Seq<u8>> {
    match span {
        Some((start, end)) => if 0 <= start < end < line.len() && line[end] == QUOTE {
            Some(line.subrange(start, end))
        } else {
            None
        },
        None => None,
    }
}

/// The failure of a match: the record names no type.
#[derive(Debug)]
pub struct NoTypeParsed;

/// Finds the type name with a regular expression.
pub struct RegexParser;

/// What a match of the pattern makes of a record: the name within `span`,
/// if a quote closes it.
pub fn metadata_of_span<'a>(line: &'a [u8], span: Option<(usize, usize)>) -> (parsed: Result<
    LogLineMetadata<'a>,
    NoTypeParsed,
>)
    ensures
        ({
            let name = closed_name(
                line@,
                match span {
                    Some((start, end)) => Some((start as int, end as int)),
                    None => None,
                },
            );
            &&& parsed is Ok <==> name is Some
            &&& parsed matches Ok(metadata) ==> name == Some(metadata.name@) && metadata.bytes
                == line@.len()
        }),
{
    match span {
        Some((start, end)) => {
            if start < end && end < line.len() && line[end] == QUOTE {
                Ok(LogLineMetadata { name: slice_subrange(line, start, end), bytes: line.len() })
            } else {
                Err(NoTypeParsed)
            }
        },
        None => Err(NoTypeParsed),
    }
}

impl Parser for RegexParser {
    type Error = NoTypeParsed;

    open spec fn type_of(line: Seq<u8>) -> Option<Seq<u8>> {
        closed_name(line, group_span(TYPE_PATTERN@, line, 1))
    }

    /// The pattern is compiled anew on each call.
    fn parse<'a>(line: &'a [u8]) -> (parsed: Result<LogLineMetadata<'a>, NoTypeParsed>) {
        metadata_of_span(line, capture_group(TYPE_PATTERN, line, 1))
    }
}

} // verus!
