use crate::parsers::string_parser::{
    find_subsequence, scanned_type, StringParser, QUOTE, TYPE_STR,
};
use crate::parsers::{LogLineMetadata, Parser};
use crate::search::{is_first_index, lemma_first_index_is, lemma_first_index_none, first_index};
use vstd::prelude::*;
use vstd::slice::slice_subrange;

verus! {

/// The failure of a scan: the record names no type.
#[derive(Debug)]
pub struct NoTypeParsed;

/// Finds the type name by searching for the key as a run of bytes and for
/// the quotes byte by byte.
pub struct CharParser;

impl Parser for CharParser {
    type Error = NoTypeParsed;

    open spec fn type_of(line: Seq<u8>) -> Option<Seq<u8>> {
        scanned_type(line)
    }

    fn parse<'a>(line: &'a [u8]) -> (parsed: Result<LogLineMetadata<'a>, NoTypeParsed>) {
        let length: usize = line.len();
        let key: usize = match find_subsequence(line, TYPE_STR.as_slice()) {
            Some(key) => key,
            None => {
                return Err(NoTypeParsed);
            },
        };
        let from: usize = key + TYPE_STR.len();
        let tail = slice_subrange(line, from, length);
        assert(tail@ =~= line@.skip(from as int));
        let open: usize = match find_char(tail, QUOTE) {
            Some(open) => open,
            None => {
                return Err(NoTypeParsed);
            },
        };
        let start: usize = from + open + 1;
        let rest = slice_subrange(line, start, length);
        assert(rest@ =~= line@.skip(start as int));
        match find_char(rest, QUOTE) {
            Some(width) => Ok(
                LogLineMetadata { name: slice_subrange(line, start, start + width), bytes: length },
            ),
            None => Err(NoTypeParsed),
        }
    }
}

/// The two scans of the bytes find the same type name in every record, and
/// fail on the same records.
pub proof fn lemma_scans_agree(line: Seq<u8>)
    ensures
        CharParser::type_of(line) == StringParser::type_of(line),
{
}

/// The least index of `needle` in `haystack`.
pub fn find_char(haystack: &[u8], needle: u8) -> (found: Option<usize>)
    ensures
        match found {
            Some(at) => is_first_index(haystack@, needle, at as int),
            None => forall|j: int| 0 <= j < haystack@.len() ==> haystack@[j] != needle,
        },
        match found {
            Some(at) => first_index(haystack@, needle) == Some(at as int),
            None => first_index(haystack@, needle) is None,
        },
{
    let length: usize = haystack.len();
    let mut at: usize = 0;
    while at < length
        invariant
            length == haystack@.len(),
            at <= length,
            forall|j: int| 0 <= j < at ==> haystack@[j] != needle,
        decreases length - at,
    {
        if haystack[at] == needle {
            proof {
                lemma_first_index_is(haystack@, needle, at as int);
            }
            return Some(at);
        }
        at += 1;
    }
    proof {
        lemma_first_index_none(haystack@, needle);
    }
    None
}

} // verus!
