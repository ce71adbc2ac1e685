use crate::search::{
    first_index, is_first_index, lemma_first_index_is, lemma_first_index_none,
    lemma_first_index_total,
};
use vstd::prelude::*;
use vstd::slice::slice_subrange;

verus! {

/// The length of the first record of a buffer that is not empty: it ends
/// behind the first delimiter, or with the buffer where that holds none.
pub open spec fn first_record_len(buf: Seq<u8>, delim: u8) -> int {
    match first_index(buf, delim) {
        Some(at) => at + 1,
        None => buf.len() as int,
    }
}

/// The first record of a buffer that is not empty holds a byte at least and
/// no more than the buffer.
pub proof fn lemma_first_record_len(buf: Seq<u8>, delim: u8)
    requires
        buf.len() > 0,
    ensures
        1 <= first_record_len(buf, delim) <= buf.len(),
{
    if first_index(buf, delim) is Some {
        let at = choose|i: int| is_first_index(buf, delim, i);
        assert(is_first_index(buf, delim, at));
    }
}

/// The records of a buffer, in order. Each holds the delimiter that ends it;
/// only the last may end without one. Together they are the buffer.
pub open spec fn records_of(buf: Seq<u8>, delim: u8) -> Seq<Seq<u8>>
    decreases buf.len(),
{
    if buf.len() == 0 {
        Seq::empty()
    } else {
        let length = first_record_len(buf, delim);
        seq![buf.take(length)] + records_of(buf.skip(length), delim)
    }
}

/// The records of a buffer are the buffer cut into pieces: none is empty,
/// none holds a delimiter before its last byte, each but the last ends with
/// one, and in a row they are the buffer.
pub proof fn lemma_records_shape(buf: Seq<u8>, delim: u8)
    ensures
        records_of(buf, delim).flatten() == buf,
        forall|i: int|
            0 <= i < records_of(buf, delim).len() ==> (#[trigger] records_of(buf, delim)[i]).len()
                > 0,
        forall|i: int|
            0 <= i < records_of(buf, delim).len() - 1 ==> (#[trigger] records_of(
                buf,
                delim,
            )[i]).last() == delim,
        forall|i: int, j: int|
            0 <= i < records_of(buf, delim).len() && 0 <= j < records_of(buf, delim)[i].len() - 1
                ==> (#[trigger] records_of(buf, delim)[i][j]) != delim,
    decreases buf.len(),
{
    let records = records_of(buf, delim);
    if buf.len() == 0 {
        assert(records.flatten() =~= buf);
    } else {
        lemma_first_record_len(buf, delim);
        lemma_first_index_total(buf, delim);
        let length = first_record_len(buf, delim);
        let first = buf.take(length);
        let rest = records_of(buf.skip(length), delim);
        lemma_records_shape(buf.skip(length), delim);
        assert(records.first() == first);
        assert(records.drop_first() =~= rest);
        assert(records.flatten() =~= buf);
        assert forall|i: int| 0 <= i < records.len() implies (#[trigger] records[i]).len() > 0 by {
            if i > 0 {
                assert(records[i] == rest[i - 1]);
            }
        }
        assert forall|i: int| 0 <= i < records.len() - 1 implies (#[trigger] records[i]).last()
            == delim by {
            if i > 0 {
                assert(records[i] == rest[i - 1]);
            } else {
                assert(buf.skip(length).len() > 0);
            }
        }
        assert forall|i: int, j: int|
            0 <= i < records.len() && 0 <= j < records[i].len() - 1 implies (
        #[trigger] records[i][j]) != delim by {
            if i > 0 {
                assert(records[i] == rest[i - 1]);
                assert(rest[i - 1][j] != delim);
            } else {
                assert(first[j] == buf[j]);
            }
        }
    }
}

/// Splits a buffer into its records, one call at a time. No byte is copied:
/// a record is a part of the buffer.
pub struct ByteLines<'a> {
    delim: u8,
    buf: &'a [u8],
    read_start: usize,
    read_end: usize,
}

impl<'a> ByteLines<'a> {
    /// The cursor stands in the buffer, and what it has passed since the
    /// last record holds no delimiter.
    pub closed spec fn wf(&self) -> bool {
        &&& self.read_start <= self.read_end <= self.buf@.len()
        &&& forall|i: int| self.read_start <= i < self.read_end ==> self.buf@[i] != self.delim
    }

    /// The byte that ends a record.
    pub closed spec fn delimiter(&self) -> u8 {
        self.delim
    }

    /// The bytes that no record has been made of yet.
    pub closed spec fn remaining(&self) -> Seq<u8> {
        self.buf@.skip(self.read_start as int)
    }

    pub fn new(delim: u8, buf: &'a [u8]) -> (lines: ByteLines<'a>)
        ensures
            lines.wf(),
            lines.delimiter() == delim,
            lines.remaining() == buf@,
    {
        ByteLines { delim, buf, read_start: 0, read_end: 0 }
    }

    /// The next record, or `None` when the buffer is used up.
    pub fn next(&mut self) -> (line: Option<&'a [u8]>)
        requires
            old(self).wf(),
        ensures
            final(self).wf(),
            final(self).delimiter() == old(self).delimiter(),
            match line {
                Some(record) => {
                    &&& 0 < record@.len() <= old(self).remaining().len()
                    &&& record@ == old(self).remaining().take(
                        first_record_len(old(self).remaining(), old(self).delimiter()),
                    )
                    &&& final(self).remaining() == old(self).remaining().skip(record@.len() as int)
                },
                None => old(self).remaining().len() == 0 && final(self).remaining().len() == 0,
            },
    {
        let ghost rest = self.remaining();
        loop
            invariant
                self.wf(),
                self.buf == old(self).buf,
                self.delim == old(self).delim,
                self.read_start == old(self).read_start,
                rest == self.buf@.skip(self.read_start as int),
            decreases self.buf@.len() - self.read_end,
        {
            if self.read_end == self.buf.len() {
                if self.read_start < self.read_end {
                    let slice = slice_subrange(self.buf, self.read_start, self.read_end);
                    proof {
                        assert forall|j: int| 0 <= j < rest.len() implies rest[j] != self.delim by {
                            assert(rest[j] == self.buf@[self.read_start + j]);
                        }
                        lemma_first_index_none(rest, self.delim);
                        assert(slice@ =~= rest.take(rest.len() as int));
                    }
                    self.read_start = self.read_end;
                    assert(self.remaining() =~= rest.skip(slice@.len() as int));
                    return Some(slice);
                } else {
                    return None;
                }
            } else {
                let byte = self.buf[self.read_end];
                if byte == self.delim {
                    proof {
                        let at = self.read_end - self.read_start;
                        assert(rest[at] == self.buf@[self.read_end as int]);
                        assert forall|j: int| 0 <= j < at implies rest[j] != self.delim by {
                            assert(rest[j] == self.buf@[self.read_start + j]);
                        }
                        lemma_first_index_is(rest, self.delim, at);
                    }
                    self.read_end += 1;
                    let slice = slice_subrange(self.buf, self.read_start, self.read_end);
                    assert(slice@ =~= rest.take(self.read_end - self.read_start));
                    self.read_start = self.read_end;
                    assert(self.remaining() =~= rest.skip(slice@.len() as int));
                    return Some(slice);
                }
                self.read_end += 1;
            }
        }
    }
}

/// Makes `byte_lines` available on a slice of bytes.
pub trait ByteLinesExt {
    /// The bytes that the records are made of.
    spec fn bytes(&self) -> Seq<u8>;

    fn byte_lines<'a>(&'a self, delim: u8) -> (lines: ByteLines<'a>)
        ensures
            lines.wf(),
            lines.delimiter() == delim,
            lines.remaining() == self.bytes(),
    ;
}

impl ByteLinesExt for [u8] {
    open spec fn bytes(&self) -> Seq<u8> {
        self@
    }

    fn byte_lines<'a>(&'a self, delim: u8) -> (lines: ByteLines<'a>) {
        ByteLines::new(delim, self)
    }
}

} // verus!
