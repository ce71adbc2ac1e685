use core::fmt::Debug;
use vstd::prelude::*;

/// Available in benches
pub use char_parser::CharParser;
/// Available in benches
pub use json_parser::JsonParser;
/// Available in benches
pub use re_parser::RegexParser;
/// The winner of best parser
pub use string_parser::StringParser;

pub mod char_parser;
pub mod json_parser;
pub mod re_parser;
pub mod string_parser;

verus! {

/// What a parser reads off a record: the name of its type, borrowed from the
/// record, and the length of the record in bytes.
#[derive(Debug, PartialEq)]
pub struct LogLineMetadata<'a> {
    pub name: &'a [u8],
    pub bytes: usize,
}

/// A strategy that reads the type name off one record.
pub trait Parser {
    /// What `parse` fails with.
    type Error: Debug;

    /// The type name that the strategy finds in `line`, if it finds one.
    spec fn type_of(line: Seq<u8>) -> Option<Seq<u8>>;

    /// Reads the type name off `line`. The record counts with all its bytes,
    /// a trailing delimiter included.
    fn parse<'a>(line: &'a [u8]) -> (parsed: Result<LogLineMetadata<'a>, Self::Error>)
        ensures
            parsed is Ok <==> Self::type_of(line@) is Some,
            parsed matches Ok(metadata) ==> {
                &&& Self::type_of(line@) == Some(metadata.name@)
                &&& metadata.bytes == line@.len()
            },
    ;
}

} // verus!
