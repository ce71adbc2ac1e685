pub mod batch_reader;
/// A utility for iterating byte arrays over delimiters.
pub mod byte_lines;
pub mod error;
pub mod parser_error;

use crate::counts::{lemma_total_add, lemma_total_merge};
use crate::parsers::Parser;
use crate::summarizers::async_buf_reader::batch_reader::{batch_len, AsyncBatchReader};
use crate::summarizers::async_buf_reader::byte_lines::{records_of, ByteLines};
use crate::summarizers::async_buf_reader::error::AsyncBufReaderSummarizerError;
use crate::summarizers::async_buf_reader::parser_error::AsyncBatchReaderParserError;
use crate::summarizers::{
    failures, lemma_tally_accounts, lemma_tally_concat, summarize_record, tally, Summarizer,
    DEFAULT_DELIMITER,
};
use crate::summary::{ErrorSummary, Summary};
use vstd::prelude::*;
use vstd::slice::{slice_subrange, slice_to_vec};

verus! {

/// The size of a batch in bytes where no other is asked for.
pub const DEFAULT_BATCH_SIZE: usize = 1_048_576;

/// The number of summaries that may wait for the reducer where no other is
/// asked for.
pub const DEFAULT_REDUCER_CHANNEL_SIZE: usize = 1024;

/// The batches that an input is cut into, in order: each is cut from the
/// next `batch_size` bytes that no batch holds yet. `None` where one of them
/// cannot be cut. With a batch size of zero nothing is read, so there is no
/// batch.
pub open spec fn batches_of(input: Seq<u8>, batch_size: nat, delim: u8) -> Option<Seq<Seq<u8>>>
    decreases input.len(),
{
    if input.len() == 0 || batch_size == 0 {
        Some(Seq::empty())
    } else {
        let window = input.take(
            if batch_size <= input.len() {
                batch_size as int
            } else {
                input.len() as int
            },
        );
        match batch_len(window, delim, window.len() == input.len()) {
            Some(length) => if 0 < length <= input.len() {
                match batches_of(input.skip(length), batch_size, delim) {
                    Some(rest) => Some(seq![input.take(length)] + rest),
                    None => None,
                }
            } else {
                None
            },
            None => None,
        }
    }
}

/// The records of a list of batches, in order.
pub open spec fn records_of_batches(batches: Seq<Seq<u8>>, delim: u8) -> Seq<Seq<u8>>
    decreases batches.len(),
{
    if batches.len() == 0 {
        Seq::empty()
    } else {
        records_of_batches(batches.drop_last(), delim) + records_of(batches.last(), delim)
    }
}

/// Sums the input up in batches: each batch is summarized on its own, and
/// the summaries are merged. Of the records that no type could be read from
/// only the number is kept.
pub struct AsyncBufReaderSummarizer {
    /// The maximum number of messages in the reducer channel before it
    /// blocks.
    reducer_channel_size: usize,
    /// The maximum amount of bytes to read in a single call.
    batch_size: usize,
    /// The character to split on
    delim: u8,
}

/// Sums up the records of one batch.
pub fn summarize_batch<P: Parser>(data: &[u8], delim: u8) -> (summary: Summary<
    AsyncBatchReaderParserError,
>)
    ensures
        summary.wf(),
        summary.counts() == tally::<P>(records_of(data@, delim)),
        summary.spec_errors().failures() == failures::<P>(records_of(data@, delim)),
        summary.total() <= data@.len(),
        summary.spec_errors().failures() <= data@.len(),
{
    let mut summary = Summary::<AsyncBatchReaderParserError>::new();
    let mut lines = ByteLines::new(delim, data);
    let length: usize = data.len();
    let ghost mut done: Seq<Seq<u8>> = Seq::empty();
    loop
        invariant
            length == data@.len(),
            lines.wf(),
            lines.delimiter() == delim,
            summary.wf(),
            done + records_of(lines.remaining(), delim) == records_of(data@, delim),
            summary.counts() == tally::<P>(done),
            summary.spec_errors().failures() == failures::<P>(done),
            summary.total() + lines.remaining().len() <= data@.len(),
            summary.spec_errors().failures() + lines.remaining().len() <= data@.len(),
        ensures
            lines.remaining().len() == 0,
        decreases lines.remaining().len(),
    {
        let ghost rest = lines.remaining();
        match lines.next() {
            None => {
                break ;
            },
            Some(record) => {
                proof {
                    lemma_tally_accounts::<P>(done);
                    match P::type_of(record@) {
                        Some(name) => {
                            lemma_total_add(tally::<P>(done), name, record@.len());
                        },
                        None => {},
                    }
                }
                summarize_record::<P, AsyncBatchReaderParserError>(&mut summary, record, 1);
                proof {
                    let next = done.push(record@);
                    assert(next.drop_last() =~= done);
                    assert(next + records_of(lines.remaining(), delim) =~= done + records_of(
                        rest,
                        delim,
                    ));
                    done = next;
                }
            },
        }
    }
    proof {
        assert(done =~= records_of(data@, delim));
    }
    summary
}

impl Default for AsyncBufReaderSummarizer {
    fn default() -> (summarizer: Self)
        ensures
            summarizer.channel_size() == DEFAULT_REDUCER_CHANNEL_SIZE,
            summarizer.batch_bytes() == DEFAULT_BATCH_SIZE,
            summarizer.delimiter() == DEFAULT_DELIMITER,
    {
        Self {
            reducer_channel_size: DEFAULT_REDUCER_CHANNEL_SIZE,
            batch_size: DEFAULT_BATCH_SIZE,
            delim: DEFAULT_DELIMITER,
        }
    }
}

impl AsyncBufReaderSummarizer {
    /// The number of summaries that may wait for the reducer.
    pub closed spec fn channel_size(&self) -> usize {
        self.reducer_channel_size
    }

    /// The most bytes that a batch is filled with.
    pub closed spec fn batch_bytes(&self) -> usize {
        self.batch_size
    }

    /// The byte that ends a record.
    pub closed spec fn delimiter(&self) -> u8 {
        self.delim
    }

    pub fn new(reducer_channel_size: usize, batch_size: usize, delim: u8) -> (summarizer: Self)
        ensures
            summarizer.channel_size() == reducer_channel_size,
            summarizer.batch_bytes() == batch_size,
            summarizer.delimiter() == delim,
    {
        Self { reducer_channel_size, batch_size, delim }
    }

    /// The number of summaries that may wait for the reducer.
    pub fn reducer_channel_size(&self) -> (size: usize)
        ensures
            size == self.channel_size(),
    {
        self.reducer_channel_size
    }

    /// The most bytes that a batch is filled with.
    pub fn batch_size(&self) -> (size: usize)
        ensures
            size == self.batch_bytes(),
    {
        self.batch_size
    }

    /// The byte that ends a record.
    pub fn delim(&self) -> (delim: u8)
        ensures
            delim == self.delimiter(),
    {
        self.delim
    }
}

impl Summarizer for AsyncBufReaderSummarizer {
    type ParserError = AsyncBatchReaderParserError;

    type SummarizerError = AsyncBufReaderSummarizerError;

    open spec fn records(&self, input: Seq<u8>) -> Option<Seq<Seq<u8>>> {
        match batches_of(input, self.batch_bytes() as nat, self.delimiter()) {
            Some(batches) => Some(records_of_batches(batches, self.delimiter())),
            None => None,
        }
    }

    /// Cuts the input into batches, summarizes each and merges the
    /// summaries. Fails where a batch cannot be cut, and with nothing else.
    fn summarize<P: Parser>(&self, input: &[u8]) -> (run: Result<
        Summary<AsyncBatchReaderParserError>,
        AsyncBufReaderSummarizerError,
    >)
        ensures
            run matches Err(error) ==> error == AsyncBufReaderSummarizerError::BoundaryNotFound,
    {
        let length: usize = input.len();
        let mut reader = AsyncBatchReader::new(self.batch_size, self.delim);
        let mut summary = Summary::<AsyncBatchReaderParserError>::new();
        let mut position: usize = 0;
        let ghost size = self.batch_size as nat;
        let ghost delim = self.delim;
        let ghost mut start: int = 0;
        let ghost mut done: Seq<Seq<u8>> = Seq::empty();
        proof {
            assert(input@.skip(0) =~= input@);
            match batches_of(input@, size, delim) {
                Some(rest) => {
                    assert(done + rest =~= rest);
                },
                None => {},
            }
        }
        loop
            invariant
                length == input@.len(),
                size == self.batch_size,
                delim == self.delim,
                reader.batch_size() == self.batch_size,
                reader.delim() == self.delim,
                0 <= start <= position <= length,
                position - start <= size,
                reader.remainder() == input@.subrange(start, position as int),
                match batches_of(input@.skip(start), size, delim) {
                    Some(rest) => batches_of(input@, size, delim) == Some(done + rest),
                    None => batches_of(input@, size, delim) is None,
                },
                summary.wf(),
                summary.counts() == tally::<P>(records_of_batches(done, delim)),
                summary.spec_errors().failures() == failures::<P>(records_of_batches(done, delim)),
                summary.total() <= start,
                summary.spec_errors().failures() <= start,
            ensures
                batches_of(input@, size, delim) == Some(done),
            decreases length - start,
        {
            let wanted: usize = reader.wanted();
            let available: usize = length - position;
            let count: usize = if wanted <= available {
                wanted
            } else {
                available
            };
            let fresh = slice_to_vec(slice_subrange(input, position, position + count));
            let ghost buffer = input@.subrange(start, position + count);
            let ghost unread = input@.skip(start);
            proof {
                assert(reader.remainder() + fresh@ =~= buffer);
                assert(buffer =~= unread.take(
                    if size <= unread.len() {
                        size as int
                    } else {
                        unread.len() as int
                    },
                ));
            }
            position = position + count;
            let at_end: bool = position == length;
            match reader.read_batch(fresh, at_end) {
                Err(error) => {
                    return Err(error);
                },
                Ok(None) => {
                    proof {
                        assert(done + Seq::<Seq<u8>>::empty() =~= done);
                    }
                    break ;
                },
                Ok(Some(batch)) => {
                    let local = summarize_batch::<P>(batch.as_slice(), self.delim);
                    proof {
                        let cut = batch@.len() as int;
                        assert(batch@ =~= unread.take(cut));
                        assert(unread.skip(cut) =~= input@.skip(start + cut));
                        assert(reader.remainder() =~= input@.subrange(start + cut, position as int));
                        let next = done.push(batch@);
                        assert(next.drop_last() =~= done);
                        match batches_of(input@.skip(start + cut), size, delim) {
                            Some(rest) => {
                                assert(next + rest =~= done + (seq![batch@] + rest));
                            },
                            None => {},
                        }
                        lemma_tally_concat::<P>(
                            records_of_batches(done, delim),
                            records_of(batch@, delim),
                        );
                        summary.lemma_bounded();
                        local.lemma_bounded();
                        lemma_total_merge(summary.counts(), local.counts());
                        done = next;
                        start = start + cut;
                    }
                    summary.combine(local);
                },
            }
        }
        proof {
            lemma_tally_accounts::<P>(records_of_batches(done, delim));
        }
        Ok(summary)
    }
}

} // verus!
