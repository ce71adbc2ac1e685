pub mod parser_error;

use crate::counts::{lemma_total_add, total_of, Counts};
use crate::parsers::Parser;
use crate::summarizers::async_buf_reader::byte_lines::{records_of, ByteLines};
use crate::summarizers::sync_buf_reader::parser_error::BufReaderParserError;
use crate::summarizers::{
    failed_indices, failures, lemma_tally_accounts, parsed_bytes, summarize_record, tally,
    Summarizer, DEFAULT_DELIMITER,
};
use crate::summary::{ErrorSummary, Summary};
use core::convert::Infallible;
use core::marker::PhantomData;
use vstd::prelude::*;

verus! {

/// The capacity of the line buffer where no other is asked for.
pub const DEFAULT_BUFFER_CAPACITY: usize = 1024;

/// Whether `lines` holds the indices `indices`, in their order.
pub open spec fn same_indices(lines: Seq<usize>, indices: Seq<int>) -> bool {
    &&& lines.len() == indices.len()
    &&& forall|k: int| 0 <= k < lines.len() ==> lines[k] == indices[k]
}

/// Sums the records up one after the other, and keeps the index of each
/// record that no type could be read from.
pub struct BufReaderSummarizer {
    /// The length of the read buffer
    capacity: usize,
    /// The character to split on
    delim: u8,
}

impl Default for BufReaderSummarizer {
    fn default() -> (summarizer: Self)
        ensures
            summarizer.buffer_capacity() == DEFAULT_BUFFER_CAPACITY,
            summarizer.delimiter() == DEFAULT_DELIMITER,
    {
        Self { capacity: DEFAULT_BUFFER_CAPACITY, delim: DEFAULT_DELIMITER }
    }
}

impl BufReaderSummarizer {
    /// The capacity that a reader's line buffer starts with.
    pub closed spec fn buffer_capacity(&self) -> usize {
        self.capacity
    }

    /// The byte that ends a record.
    pub closed spec fn delimiter(&self) -> u8 {
        self.delim
    }

    pub fn new(capacity: usize, delim: u8) -> (summarizer: Self)
        ensures
            summarizer.buffer_capacity() == capacity,
            summarizer.delimiter() == delim,
    {
        Self { capacity, delim }
    }

    /// The capacity that a reader's line buffer starts with.
    pub fn capacity(&self) -> (capacity: usize)
        ensures
            capacity == self.buffer_capacity(),
    {
        self.capacity
    }

    /// The byte that ends a record.
    pub fn delim(&self) -> (delim: u8)
        ensures
            delim == self.delimiter(),
    {
        self.delim
    }
}

/// A sequential run in progress: the summary of the records taken so far,
/// with the index that the next record has.
pub struct BufReaderRun<P: Parser> {
    summary: Summary<BufReaderParserError>,
    line_number: usize,
    read: usize,
    records: Ghost<Seq<Seq<u8>>>,
    parser: PhantomData<P>,
}

impl<P: Parser> BufReaderRun<P> {
    /// The records taken so far, in their order.
    pub closed spec fn records(&self) -> Seq<Seq<u8>> {
        self.records@
    }

    /// The summary of the records taken so far.
    pub closed spec fn summary(&self) -> Summary<BufReaderParserError> {
        self.summary
    }

    /// The bytes of the records taken so far.
    pub closed spec fn read(&self) -> usize {
        self.read
    }

    /// The summary is that of the records taken, and the index of the
    /// next record is their number.
    pub closed spec fn wf(&self) -> bool {
        &&& self.summary.wf()
        &&& self.summary.counts() == tally::<P>(self.records@)
        &&& same_indices(self.summary.spec_errors()@, failed_indices::<P>(self.records@))
        &&& self.line_number == self.records@.len()
        &&& self.summary.total() <= self.read
    }

    /// What a run that is well formed holds: the bytes per type of the
    /// records taken, and the indices of those that no type was read from.
    pub proof fn lemma_run(&self)
        requires
            self.wf(),
        ensures
            self.summary().wf(),
            self.summary().counts() == tally::<P>(self.records()),
            self.summary().total() == parsed_bytes::<P>(self.records()),
            same_indices(self.summary().spec_errors()@, failed_indices::<P>(self.records())),
            self.summary().spec_errors().failures() == failures::<P>(self.records()),
    {
        lemma_tally_accounts::<P>(self.records@);
    }

    /// A run that has taken no record.
    pub fn new() -> (run: Self)
        ensures
            run.wf(),
            run.records() == Seq::<Seq<u8>>::empty(),
            run.read() == 0,
    {
        proof {
            assert(total_of(Counts::empty()) == 0);
        }
        BufReaderRun {
            summary: Summary::new(),
            line_number: 0,
            read: 0,
            records: Ghost(Seq::empty()),
            parser: PhantomData,
        }
    }

    /// The index of the next record: the number of records taken.
    pub fn line_number(&self) -> (index: usize)
        requires
            self.wf(),
        ensures
            index == self.records().len(),
    {
        self.line_number
    }

    /// The bytes of the records taken so far.
    pub fn bytes_read(&self) -> (bytes: usize)
        ensures
            bytes == self.read(),
    {
        self.read
    }

    /// Takes the next record: its bytes are counted for the type that `P`
    /// reads from it; where `P` reads none, its index is put on record.
    pub fn record(&mut self, record: &[u8])
        requires
            old(self).wf(),
            old(self).read() + record@.len() <= usize::MAX,
            old(self).records().len() < usize::MAX,
        ensures
            final(self).wf(),
            final(self).records() == old(self).records().push(record@),
            final(self).read() == old(self).read() + record@.len(),
            final(self).summary().counts() == tally::<P>(final(self).records()),
            same_indices(
                final(self).summary().spec_errors()@,
                failed_indices::<P>(final(self).records()),
            ),
    {
        let ghost before = self.records@;
        proof {
            lemma_tally_accounts::<P>(before);
            match P::type_of(record@) {
                Some(name) => {
                    lemma_total_add(tally::<P>(before), name, record@.len());
                },
                None => {},
            }
        }
        summarize_record::<P, BufReaderParserError>(&mut self.summary, record, self.line_number);
        self.line_number = self.line_number + 1;
        self.read = self.read + record.len();
        self.records = Ghost(before.push(record@));
        proof {
            assert(before.push(record@).drop_last() =~= before);
        }
    }

    /// Ends the run and hands out its summary.
    pub fn finish(self) -> (summary: Summary<BufReaderParserError>)
        requires
            self.wf(),
        ensures
            summary == self.summary(),
            summary.wf(),
            summary.counts() == tally::<P>(self.records()),
            summary.total() == parsed_bytes::<P>(self.records()),
            same_indices(summary.spec_errors()@, failed_indices::<P>(self.records())),
            summary.spec_errors().failures() == failures::<P>(self.records()),
    {
        proof {
            self.lemma_run();
        }
        self.summary
    }
}

impl Summarizer for BufReaderSummarizer {
    type ParserError = BufReaderParserError;

    type SummarizerError = Infallible;

    open spec fn records(&self, input: Seq<u8>) -> Option<Seq<Seq<u8>>> {
        Some(records_of(input, self.delimiter()))
    }

    /// Never fails: a record may be as long as the input. The failures are
    /// kept by the index that the record has in the input, counted from
    /// zero.
    fn summarize<P: Parser>(&self, input: &[u8]) -> (run: Result<
        Summary<BufReaderParserError>,
        Infallible,
    >)
        ensures
            run matches Ok(summary) && same_indices(
                summary.spec_errors()@,
                failed_indices::<P>(records_of(input@, self.delimiter())),
            ),
    {
        let mut run = BufReaderRun::<P>::new();
        let mut lines = ByteLines::new(self.delim, input);
        let length: usize = input.len();
        loop
            invariant
                length == input@.len(),
                lines.wf(),
                lines.delimiter() == self.delim,
                run.wf(),
                run.records() + records_of(lines.remaining(), self.delim) == records_of(
                    input@,
                    self.delim,
                ),
                run.read() + lines.remaining().len() <= input@.len(),
                run.records().len() + lines.remaining().len() <= input@.len(),
            ensures
                lines.remaining().len() == 0,
            decreases lines.remaining().len(),
        {
            let ghost rest = lines.remaining();
            let ghost done = run.records();
            match lines.next() {
                None => {
                    break ;
                },
                Some(record) => {
                    run.record(record);
                    proof {
                        assert(run.records() + records_of(lines.remaining(), self.delim) =~= done
                            + records_of(rest, self.delim));
                    }
                },
            }
        }
        proof {
            assert(run.records() =~= records_of(input@, self.delim));
            lemma_tally_accounts::<P>(run.records());
        }
        Ok(run.finish())
    }
}

} // verus!
