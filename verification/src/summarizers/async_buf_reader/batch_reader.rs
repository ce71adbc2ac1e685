use crate::search::{is_last_index, last_index, lemma_last_index_is, lemma_last_index_none};
use crate::summarizers::async_buf_reader::error::AsyncBufReaderSummarizerError;
use vstd::prelude::*;

verus! {

/// Where a filled buffer is cut: behind its last delimiter. A buffer without
/// a delimiter is handed out whole where the input ends with it, and cannot
/// be cut where more input follows.
pub open spec fn batch_len(buffer: Seq<u8>, delim: u8, at_end: bool) -> Option<int> {
    match last_index(buffer, delim) {
        Some(at) => Some(at + 1),
        None => if at_end {
            Some(buffer.len() as int)
        } else {
            None
        },
    }
}

/// Cuts a stream of bytes into batches that end on a delimiter. Whoever
/// reads the stream hands over the bytes read; what follows the last
/// delimiter of a batch is kept and starts the next one.
pub struct AsyncBatchReader {
    remainder_buffer: Vec<u8>,
    buffer_size: usize,
    delimiter: u8,
}

impl AsyncBatchReader {
    /// The bytes kept for the next batch.
    pub closed spec fn remainder(&self) -> Seq<u8> {
        self.remainder_buffer@
    }

    /// The most bytes that a batch is filled with.
    pub closed spec fn batch_size(&self) -> usize {
        self.buffer_size
    }

    /// The byte that ends a record.
    pub closed spec fn delim(&self) -> u8 {
        self.delimiter
    }

    pub fn new(buffer_size: usize, delimiter: u8) -> (reader: AsyncBatchReader)
        ensures
            reader.remainder() == Seq::<u8>::empty(),
            reader.batch_size() == buffer_size,
            reader.delim() == delimiter,
    {
        AsyncBatchReader { remainder_buffer: Vec::new(), buffer_size, delimiter }
    }

    /// How many bytes to read for the next batch: what the kept bytes leave
    /// of the batch size.
    pub fn wanted(&self) -> (count: usize)
        ensures
            count == if self.remainder().len() <= self.batch_size() {
                self.batch_size() - self.remainder().len()
            } else {
                0
            },
    {
        if self.remainder_buffer.len() <= self.buffer_size {
            self.buffer_size - self.remainder_buffer.len()
        } else {
            0
        }
    }

    /// Makes the next batch of the kept bytes and `fresh`, the bytes read
    /// since. `at_end` says that the stream holds nothing behind `fresh`.
    /// `None` is returned when there is nothing left to hand out.
    pub fn read_batch(&mut self, fresh: Vec<u8>, at_end: bool) -> (read: Result<
        Option<Vec<u8>>,
        AsyncBufReaderSummarizerError,
    >)
        ensures
            final(self).batch_size() == old(self).batch_size(),
            final(self).delim() == old(self).delim(),
            ({
                let buffer = old(self).remainder() + fresh@;
                match read {
                    Ok(None) => buffer.len() == 0 && final(self).remainder().len() == 0,
                    Ok(Some(batch)) => {
                        &&& buffer.len() > 0
                        &&& 0 < batch@.len() <= buffer.len()
                        &&& batch_len(buffer, old(self).delim(), at_end) == Some(
                            batch@.len() as int,
                        )
                        &&& batch@ == buffer.take(batch@.len() as int)
                        &&& final(self).remainder() == buffer.skip(batch@.len() as int)
                    },
                    Err(error) => {
                        &&& error == AsyncBufReaderSummarizerError::BoundaryNotFound
                        &&& buffer.len() > 0
                        &&& batch_len(buffer, old(self).delim(), at_end) is None
                        &&& final(self).remainder() == buffer
                    },
                }
            }),
    {
        let mut buffer: Vec<u8> = Vec::new();
        core::mem::swap(&mut buffer, &mut self.remainder_buffer);
        let mut fresh = fresh;
        buffer.append(&mut fresh);
        let length: usize = buffer.len();
        if length == 0 {
            return Ok(None);
        }
        match last_delim(buffer.as_slice(), self.delimiter) {
            Some(at) => {
                let ghost whole = buffer@;
                self.remainder_buffer = buffer.split_off(at + 1);
                assert(buffer@ =~= whole.take(at + 1));
                assert(self.remainder_buffer@ =~= whole.skip(at + 1));
                Ok(Some(buffer))
            },
            None => {
                if at_end {
                    assert(buffer@ =~= buffer@.take(buffer@.len() as int));
                    assert(self.remainder_buffer@ =~= buffer@.skip(buffer@.len() as int));
                    Ok(Some(buffer))
                } else {
                    self.remainder_buffer = buffer;
                    Err(AsyncBufReaderSummarizerError::BoundaryNotFound)
                }
            },
        }
    }
}

/// Return the last occurrence of a delimiter in a buffer
pub fn last_delim(buf: &[u8], delim: u8) -> (found: Option<usize>)
    ensures
        match found {
            Some(at) => is_last_index(buf@, delim, at as int),
            None => forall|j: int| 0 <= j < buf@.len() ==> buf@[j] != delim,
        },
        match found {
            Some(at) => last_index(buf@, delim) == Some(at as int),
            None => last_index(buf@, delim) is None,
        },
{
    let mut i: usize = buf.len();
    while i > 0
        invariant
            i <= buf@.len(),
            forall|j: int| i <= j < buf@.len() ==> buf@[j] != delim,
        decreases i,
    {
        i -= 1;
        if buf[i] == delim {
            proof {
                lemma_last_index_is(buf@, delim, i as int);
            }
            return Some(i);
        }
    }
    proof {
        lemma_last_index_none(buf@, delim);
    }
    None
}

} // verus!
