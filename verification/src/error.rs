use crate::summarizers::async_buf_reader::error::AsyncBufReaderSummarizerError;
use vstd::prelude::*;
use vstd::std_specs::convert::FromSpecImpl;

verus! {

/// The main entry point error which can wrap any other error from within
/// the library.
#[derive(Debug, Clone, Copy, PartialEq, Eq, Structural)]
pub enum LogParserError {
    /// The input could not be read.
    Io,
    /// A run in batches failed.
    AsyncBufReaderSummarizer(AsyncBufReaderSummarizerError),
}

impl From<AsyncBufReaderSummarizerError> for LogParserError {
    fn from(err: AsyncBufReaderSummarizerError) -> (error: Self) {
        Self::AsyncBufReaderSummarizer(err)
    }
}

impl FromSpecImpl<AsyncBufReaderSummarizerError> for LogParserError {
    open spec fn obeys_from_spec() -> bool {
        true
    }

    open spec fn from_spec(err: AsyncBufReaderSummarizerError) -> Self {
        Self::AsyncBufReaderSummarizer(err)
    }
}

} // verus!
