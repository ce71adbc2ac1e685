use vstd::prelude::*;

verus! {

/// What ends a run in batches before its summary is complete.
#[derive(Debug, Clone, Copy, PartialEq, Eq, Structural)]
pub enum AsyncBufReaderSummarizerError {
    /// The input could not be read.
    Io,
    /// A task that had a batch to summarize did not complete.
    TokioJoinError,
    /// Don't hang on to the inner details. There was an error sending
    /// messages between the mpsc and the reducer
    TokioSendError,
    /// A batch was filled and held no delimiter: a record is longer than a
    /// batch.
    BoundaryNotFound,
}

} // verus!
