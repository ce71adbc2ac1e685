use crate::summary::ErrorSummary;
use vstd::prelude::*;
use vstd::string::{to_string_from_display_ensures, StringExecFns};

verus! {

/// The failures of a run in batches: only their number. Within a batch
/// nothing tells the index that a record has in the whole input.
#[derive(Debug)]
pub struct AsyncBatchReaderParserError {
    /// Just the total number of errors. We can't reasonably figure out the
    /// line number when batch processing.
    errors: usize,
}

impl View for AsyncBatchReaderParserError {
    type V = nat;

    closed spec fn view(&self) -> nat {
        self.errors as nat
    }
}

impl Default for AsyncBatchReaderParserError {
    fn default() -> (empty: Self)
        ensures
            empty@ == 0,
    {
        AsyncBatchReaderParserError { errors: 0 }
    }
}

impl AsyncBatchReaderParserError {
    /// What is told of `count` lines.
    pub open spec fn told(count: nat) -> Seq<char> {
        if count == 1 {
            " line could not be parsed\n"@
        } else {
            " lines could not be parsed\n"@
        }
    }
}

impl ErrorSummary for AsyncBatchReaderParserError {
    open spec fn failures(&self) -> nat {
        self@
    }

    open spec fn weight(error: usize) -> nat {
        error as nat
    }

    open spec fn accumulated(&self, error: usize, after: &Self) -> bool {
        after@ == self@ + error
    }

    open spec fn combined(&self, other: &Self, after: &Self) -> bool {
        after@ == self@ + other@
    }

    fn new() -> (empty: Self) {
        AsyncBatchReaderParserError { errors: 0 }
    }

    fn accumulate(&mut self, error: usize) {
        self.errors += error;
    }

    fn combine(&mut self, other: Self) {
        self.errors += other.errors;
    }

    fn total_errors(&self) -> (total: usize) {
        self.errors
    }

    /// One line with the number of failures, where there is one, and a
    /// line feed behind it.
    fn diagnostics(&self) -> (lines: Vec<String>)
        ensures
            self@ == 0 ==> lines@.len() == 0,
            self@ > 0 ==> {
                &&& lines@.len() == 1
                &&& exists|number: String| #[trigger]
                    to_string_from_display_ensures::<usize>(&(self@ as usize), number) && lines@[0]@
                        == number@ + Self::told(self@)
            },
    {
        let mut lines: Vec<String> = Vec::new();
        if self.errors > 0 {
            let number = self.errors.to_string();
            let mut line = String::from_str(number.as_str());
            if self.errors == 1 {
                line.append(" line could not be parsed\n");
            } else {
                line.append(" lines could not be parsed\n");
            }
            assert(to_string_from_display_ensures::<usize>(&(self@ as usize), number));
            assert(line@ == number@ + Self::told(self@));
            lines.push(line);
        }
        lines
    }
}

} // verus!
