use crate::render::{ascending, is_ascending};
use crate::summary::ErrorSummary;
use vstd::prelude::*;
use vstd::string::{to_string_from_display_ensures, StringExecFns};

verus! {

/// The failures of a sequential run: the index of each record that no type
/// could be read from, in the order in which they were put on record.
#[derive(Debug)]
pub struct BufReaderParserError {
    /// The lines we failed to parse
    error_lines: Vec<usize>,
}

impl View for BufReaderParserError {
    type V = Seq<usize>;

    closed spec fn view(&self) -> Seq<usize> {
        self.error_lines@
    }
}

impl Default for BufReaderParserError {
    fn default() -> (empty: Self)
        ensures
            empty@ == Seq::<usize>::empty(),
    {
        BufReaderParserError { error_lines: Vec::new() }
    }
}

impl BufReaderParserError {
    /// The indices of the failed records.
    pub fn error_lines(&self) -> (lines: &Vec<usize>)
        ensures
            lines@ == self@,
    {
        &self.error_lines
    }
}

impl ErrorSummary for BufReaderParserError {
    open spec fn failures(&self) -> nat {
        self@.len()
    }

    open spec fn weight(error: usize) -> nat {
        1
    }

    open spec fn accumulated(&self, error: usize, after: &Self) -> bool {
        after@ == self@.push(error)
    }

    open spec fn combined(&self, other: &Self, after: &Self) -> bool {
        after@ == self@ + other@
    }

    fn new() -> (empty: Self)
        ensures
            empty@ == Seq::<usize>::empty(),
    {
        BufReaderParserError { error_lines: Vec::new() }
    }

    fn accumulate(&mut self, error: usize) {
        self.error_lines.push(error)
    }

    fn combine(&mut self, other: Self) {
        let mut other = other;
        self.error_lines.append(&mut other.error_lines);
    }

    fn total_errors(&self) -> (total: usize) {
        self.error_lines.len()
    }

    /// One failure is told in one line. More are listed in rising order,
    /// each in a line of its own, below a heading. An empty line ends both.
    fn diagnostics(&self) -> (lines: Vec<String>)
        ensures
            self@.len() == 0 ==> lines@.len() == 0,
            self@.len() == 1 ==> {
                &&& lines@.len() == 2
                &&& exists|number: String| #[trigger]
                    to_string_from_display_ensures::<usize>(&self@[0], number) && lines@[0]@
                        == "Failed to parse line "@ + number@
                &&& lines@[1]@ == Seq::<char>::empty()
            },
            self@.len() > 1 ==> {
                &&& lines@.len() == self@.len() + 2
                &&& lines@[0]@ == "Failed to parse the following lines:"@
                &&& exists|sorted: Seq<usize>| #[trigger]
                    is_ascending(self@, sorted) && sorted.len() == self@.len() && forall|i: int|
                        0 <= i < sorted.len() ==> to_string_from_display_ensures::<usize>(
                            &sorted[i],
                            #[trigger] lines@[i + 1],
                        )
                &&& lines@.last()@ == Seq::<char>::empty()
            },
    {
        let mut lines: Vec<String> = Vec::new();
        let count: usize = self.error_lines.len();
        if count == 0 {
            return lines;
        }
        if count == 1 {
            let number = self.error_lines[0].to_string();
            let mut line = String::from_str("Failed to parse line ");
            line.append(number.as_str());
            lines.push(line);
        } else {
            lines.push(String::from_str("Failed to parse the following lines:"));
            let sorted = ascending(&self.error_lines);
            proof {
                sorted@.to_multiset_ensures();
                self@.to_multiset_ensures();
            }
            let mut at: usize = 0;
            while at < sorted.len()
                invariant
                    sorted@.len() == count,
                    count == self@.len(),
                    at <= count,
                    lines@.len() == at + 1,
                    lines@[0]@ == "Failed to parse the following lines:"@,
                    forall|i: int|
                        0 <= i < at ==> to_string_from_display_ensures::<usize>(
                            &sorted@[i],
                            #[trigger] lines@[i + 1],
                        ),
                decreases count - at,
            {
                lines.push(sorted[at].to_string());
                at += 1;
            }
            assert(is_ascending(self@, sorted@));
        }
        lines.push(String::new());
        lines
    }
}

} // verus!
