use crate::parsers::{LogLineMetadata, Parser};
use crate::search::{
    first_index, first_occurrence, is_first_occurrence, lemma_first_occurrence_is,
    lemma_first_occurrence_none, lemma_single_byte_occurrence, occurs_at,
};
use vstd::prelude::*;
use vstd::slice::slice_subrange;

verus! {

/// The key that announces the type of a record: `"type":`.
pub const TYPE_STR: [u8; 7] = [0x22, 0x74, 0x79, 0x70, 0x65, 0x22, 0x3a];

/// The byte that opens and closes a type name: `"`.
pub const QUOTE: u8 = 0x22;

/// The quote as a run of one byte.
pub const QUOTE_STR: [u8; 1] = [0x22];

/// The key `"type":` as a sequence of bytes.
pub open spec fn type_marker() -> Seq<u8> {
    TYPE_STR@
}

/// The bounds of the first quoted run of bytes in `line` at or after `from`:
/// the index behind the opening quote, and the index of the closing quote.
pub open spec fn quoted_span(line: Seq<u8>, from: int) -> Option<(int, int)> {
    match first_index(line.skip(from), QUOTE) {
        Some(open) => {
            let start = from + open + 1;
            match first_index(line.skip(start), QUOTE) {
                Some(length) => Some((start, start + length)),
                None => None,
            }
        },
        None => None,
    }
}

/// The bounds of the type name that a scan of the bytes finds in `line`: the
/// first quoted run of bytes behind the first `"type":`.
pub open spec fn scanned_span(line: Seq<u8>) -> Option<(int, int)> {
    match first_occurrence(line, type_marker()) {
        Some(key) => quoted_span(line, key + type_marker().len()),
        None => None,
    }
}

/// The type name that a scan of the bytes finds in `line`.
pub open spec fn scanned_type(line: Seq<u8>) -> Option<Seq<u8>> {
    match scanned_span(line) {
        Some((start, end)) => Some(line.subrange(start, end)),
        None => None,
    }
}

/// The failure of a scan: the record names no type.
#[derive(Debug)]
pub struct NoTypeParsed;

/// Finds the type name by searching for the key and the quotes as runs of
/// bytes.
pub struct StringParser;

impl Parser for StringParser {
    type Error = NoTypeParsed;

    open spec fn type_of(line: Seq<u8>) -> Option<Seq<u8>> {
        scanned_type(line)
    }

    fn parse<'a>(line: &'a [u8]) -> (parsed: Result<LogLineMetadata<'a>, NoTypeParsed>) {
        let length: usize = line.len();
        let key: usize = match find_subsequence(line, TYPE_STR.as_slice()) {
            Some(key) => key,
            None => {
                return Err(NoTypeParsed);
            },
        };
        let from: usize = key + TYPE_STR.len();
        let tail = slice_subrange(line, from, length);
        assert(tail@ =~= line@.skip(from as int));
        proof {
            lemma_single_byte_occurrence(tail@, QUOTE);
            assert(QUOTE_STR@ =~= seq![QUOTE]);
        }
        let open: usize = match find_subsequence(tail, QUOTE_STR.as_slice()) {
            Some(open) => open,
            None => {
                return Err(NoTypeParsed);
            },
        };
        let start: usize = from + open + QUOTE_STR.len();
        let rest = slice_subrange(line, start, length);
        assert(rest@ =~= line@.skip(start as int));
        proof {
            lemma_single_byte_occurrence(rest@, QUOTE);
        }
        match find_subsequence(rest, QUOTE_STR.as_slice()) {
            Some(width) => Ok(
                LogLineMetadata { name: slice_subrange(line, start, start + width), bytes: length },
            ),
            None => Err(NoTypeParsed),
        }
    }
}

/// The least offset at which `needle` stands in `haystack`.
pub fn find_subsequence(haystack: &[u8], needle: &[u8]) -> (found: Option<usize>)
    requires
        needle@.len() > 0,
    ensures
        match found {
            Some(at) => is_first_occurrence(haystack@, needle@, at as int),
            None => forall|j: int| !occurs_at(haystack@, needle@, j),
        },
        match found {
            Some(at) => first_occurrence(haystack@, needle@) == Some(at as int),
            None => first_occurrence(haystack@, needle@) is None,
        },
{
    let width: usize = needle.len();
    let length: usize = haystack.len();
    if length < width {
        proof {
            lemma_first_occurrence_none(haystack@, needle@);
        }
        return None;
    }
    let last: usize = length - width;
    let mut at: usize = 0;
    while at <= last
        invariant
            width == needle@.len(),
            length == haystack@.len(),
            width > 0,
            last == length - width,
            at <= last + 1,
            forall|j: int| 0 <= j < at ==> !occurs_at(haystack@, needle@, j),
        decreases last + 1 - at,
    {
        let mut matched: usize = 0;
        while matched < width && haystack[at + matched] == needle[matched]
            invariant
                width == needle@.len(),
                length == haystack@.len(),
                last == length - width,
                at <= last,
                matched <= width,
                forall|k: int| 0 <= k < matched ==> haystack@[at + k] == needle@[k],
            decreases width - matched,
        {
            matched += 1;
        }
        if matched == width {
            proof {
                assert(haystack@.subrange(at as int, at + width) =~= needle@);
                lemma_first_occurrence_is(haystack@, needle@, at as int);
            }
            return Some(at);
        }
        proof {
            let window = haystack@.subrange(at as int, at + width);
            assert(window[matched as int] == haystack@[at + matched]);
        }
        at += 1;
    }
    proof {
        lemma_first_occurrence_none(haystack@, needle@);
    }
    None
}

} // verus!
