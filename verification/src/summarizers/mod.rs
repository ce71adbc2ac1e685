pub mod async_buf_reader;
pub mod laws;
pub mod sync_buf_reader;

use crate::counts::{add_count, lemma_merge_add, lemma_merge_empty, lemma_total_add, merge_counts, total_of, Counts};
use crate::parsers::Parser;
use crate::summary::{ErrorSummary, Summary};
use vstd::prelude::*;

verus! {

/// The byte that ends a record where no other is asked for: a line feed.
pub const DEFAULT_DELIMITER: u8 = 0x0a;

/// The bytes per type name of the records that `P` reads a type from.
pub open spec fn tally<P: Parser>(records: Seq<Seq<u8>>) -> Counts
    decreases records.len(),
{
    if records.len() == 0 {
        Map::empty()
    } else {
        let before = tally::<P>(records.drop_last());
        match P::type_of(records.last()) {
            Some(name) => add_count(before, name, records.last().len()),
            None => before,
        }
    }
}

/// The number of records that `P` reads a type from.
pub open spec fn successes<P: Parser>(records: Seq<Seq<u8>>) -> nat
    decreases records.len(),
{
    if records.len() == 0 {
        0
    } else {
        successes::<P>(records.drop_last()) + if P::type_of(records.last()) is Some {
            1nat
        } else {
            0nat
        }
    }
}

/// The number of records that `P` reads no type from.
pub open spec fn failures<P: Parser>(records: Seq<Seq<u8>>) -> nat
    decreases records.len(),
{
    if records.len() == 0 {
        0
    } else {
        failures::<P>(records.drop_last()) + if P::type_of(records.last()) is None {
            1nat
        } else {
            0nat
        }
    }
}

/// The indices of the records that `P` reads no type from, in rising order.
pub open spec fn failed_indices<P: Parser>(records: Seq<Seq<u8>>) -> Seq<int>
    decreases records.len(),
{
    if records.len() == 0 {
        Seq::empty()
    } else {
        let before = failed_indices::<P>(records.drop_last());
        if P::type_of(records.last()) is None {
            before.push(records.len() - 1)
        } else {
            before
        }
    }
}

/// The bytes of the records that `P` reads a type from.
pub open spec fn parsed_bytes<P: Parser>(records: Seq<Seq<u8>>) -> nat
    decreases records.len(),
{
    if records.len() == 0 {
        0
    } else {
        parsed_bytes::<P>(records.drop_last()) + if P::type_of(records.last()) is Some {
            records.last().len()
        } else {
            0nat
        }
    }
}

/// Every byte that a summary counts belongs to a record that was parsed,
/// and every record either was parsed or failed: the values of the map sum
/// up to the bytes of the parsed records, and the failures are the records
/// that are left.
pub proof fn lemma_tally_accounts<P: Parser>(records: Seq<Seq<u8>>)
    ensures
        tally::<P>(records).dom().finite(),
        total_of(tally::<P>(records)) == parsed_bytes::<P>(records),
        successes::<P>(records) + failures::<P>(records) == records.len(),
        failed_indices::<P>(records).len() == failures::<P>(records),
    decreases records.len(),
{
    if records.len() > 0 {
        lemma_tally_accounts::<P>(records.drop_last());
        match P::type_of(records.last()) {
            Some(name) => {
                lemma_total_add(tally::<P>(records.drop_last()), name, records.last().len());
            },
            None => {},
        }
    }
}

/// What a run over two lists of records in a row counts is the merge of
/// what a run over each counts, and it fails as often as both together.
pub proof fn lemma_tally_concat<P: Parser>(first: Seq<Seq<u8>>, second: Seq<Seq<u8>>)
    ensures
        tally::<P>(first + second) == merge_counts(tally::<P>(first), tally::<P>(second)),
        failures::<P>(first + second) == failures::<P>(first) + failures::<P>(second),
        successes::<P>(first + second) == successes::<P>(first) + successes::<P>(second),
        parsed_bytes::<P>(first + second) == parsed_bytes::<P>(first) + parsed_bytes::<P>(second),
    decreases second.len(),
{
    if second.len() == 0 {
        assert(first + second =~= first);
        lemma_merge_empty(tally::<P>(first));
    } else {
        let all = first + second;
        assert(all.drop_last() =~= first + second.drop_last());
        assert(all.last() == second.last());
        lemma_tally_concat::<P>(first, second.drop_last());
        match P::type_of(second.last()) {
            Some(name) => {
                lemma_merge_add(
                    tally::<P>(first),
                    tally::<P>(second.drop_last()),
                    name,
                    second.last().len(),
                );
            },
            None => {},
        }
    }
}

/// Puts one record into a summary: its bytes under its type where `P` reads
/// one, else `error` among the failures.
pub fn summarize_record<P: Parser, E: ErrorSummary>(
    summary: &mut Summary<E>,
    record: &[u8],
    error: usize,
)
    requires
        old(summary).wf(),
        old(summary).total() + record@.len() <= usize::MAX,
        old(summary).spec_errors().failures() + E::weight(error) <= usize::MAX,
    ensures
        final(summary).wf(),
        match P::type_of(record@) {
            Some(name) => {
                &&& final(summary).counts() == add_count(
                    old(summary).counts(),
                    name,
                    record@.len(),
                )
                &&& final(summary).spec_errors() == old(summary).spec_errors()
            },
            None => {
                &&& final(summary).counts() == old(summary).counts()
                &&& old(summary).spec_errors().accumulated(error, final(summary).spec_errors())
                &&& final(summary).spec_errors().failures() == old(summary).spec_errors().failures()
                    + E::weight(error)
            },
        },
{
    match P::parse(record) {
        Ok(metadata) => {
            summary.accumulate(&metadata);
        },
        Err(_) => summary.register_error(error),
    }
}

/// The worker of the library: takes a parser and aggregates a [`Summary`]
/// over the whole input.
///
/// The two summarizers of the library differ in what they make of a record
/// that is longer than they read at once. The sequential one takes a record
/// of any length and never fails. The one that works in batches fails on a
/// batch that is full and holds no delimiter: it does not grow a batch.
pub trait Summarizer {
    /// What is kept of the records that no type could be read from.
    type ParserError: ErrorSummary;

    /// What a run can fail with.
    type SummarizerError;

    /// The records that a run over `input` sums up, in the order in which
    /// it takes them; `None` where the run fails.
    spec fn records(&self, input: Seq<u8>) -> Option<Seq<Seq<u8>>>;

    /// Parses the records of `input` and sums them up: the bytes of each
    /// record that `P` reads a type from are counted for that type, and
    /// every other record is a failure.
    fn summarize<P: Parser>(&self, input: &[u8]) -> (run: Result<
        Summary<Self::ParserError>,
        Self::SummarizerError,
    >)
        ensures
            run is Ok <==> self.records(input@) is Some,
            run matches Ok(summary) ==> {
                &&& self.records(input@) matches Some(records)
                &&& summary.wf()
                &&& summary.counts() == tally::<P>(records)
                &&& summary.total() == parsed_bytes::<P>(records)
                &&& summary.spec_errors().failures() == failures::<P>(records)
                &&& summary.spec_errors().failures() + successes::<P>(records) == records.len()
            },
    ;
}

} // verus!
