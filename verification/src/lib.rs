//! Aggregates the bytes that each record type takes up in a
//! delimiter-separated log.
//!
//! A record is parsed by a [`Parser`] strategy into its type name and its
//! length; a [`Summary`] sums the lengths per type and keeps track of the
//! records that no type could be read from. Two summarizers are offered: one
//! that walks the records in order, and one that cuts the input into batches
//! which end on a delimiter, summarizes each batch on its own and merges the
//! results.

pub use error::LogParserError;
pub use parsers::char_parser::find_char;
pub use parsers::string_parser::find_subsequence;
pub use parsers::CharParser;
pub use parsers::JsonParser;
pub use parsers::LogLineMetadata;
pub use parsers::Parser;
pub use parsers::RegexParser;
pub use parsers::StringParser;
pub use summarizers::async_buf_reader::batch_reader::{last_delim, AsyncBatchReader};
pub use summarizers::async_buf_reader::byte_lines::{ByteLines, ByteLinesExt};
pub use summarizers::async_buf_reader::error::AsyncBufReaderSummarizerError;
pub use summarizers::async_buf_reader::parser_error::AsyncBatchReaderParserError;
pub use summarizers::async_buf_reader::{
    summarize_batch, AsyncBufReaderSummarizer, DEFAULT_BATCH_SIZE, DEFAULT_REDUCER_CHANNEL_SIZE,
};
pub use summarizers::sync_buf_reader::parser_error::BufReaderParserError;
pub use summarizers::sync_buf_reader::{
    BufReaderRun, BufReaderSummarizer, DEFAULT_BUFFER_CAPACITY,
};
pub use summarizers::{summarize_record, Summarizer, DEFAULT_DELIMITER};
pub use render::{table_text, TableRow};
pub use summary::{ErrorSummary, JsonSummary, Summary, TypeCount};

/// Sums of bytes per type name as a map.
pub mod counts;
pub mod error;
/// Convert a byte array to parsed metadata.
pub mod parsers;
/// The text that a summary is shown as.
pub mod render;
/// Where a byte, or a run of bytes, occurs in a buffer.
pub mod search;
/// Cutting the input into records and summing them up.
pub mod summarizers;
/// The aggregated return type
pub mod summary;

use vstd::prelude::*;

verus! {

/// The parser that a run uses where no other is asked for.
pub type MainParser = StringParser;

} // verus!
