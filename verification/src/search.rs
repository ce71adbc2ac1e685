//! Where a byte, or a run of bytes, first and last occurs in a buffer.

use vstd::prelude::*;

verus! {

/// Whether `needle` stands in `haystack` at offset `at`.
pub open spec fn occurs_at(haystack: Seq<u8>, needle: Seq<u8>, at: int) -> bool {
    &&& 0 <= at
    &&& at + needle.len() <= haystack.len()
    &&& haystack.subrange(at, at + needle.len()) == needle
}

/// Whether `at` is the least offset at which `needle` stands in `haystack`.
pub open spec fn is_first_occurrence(haystack: Seq<u8>, needle: Seq<u8>, at: int) -> bool {
    &&& occurs_at(haystack, needle, at)
    &&& forall|j: int| 0 <= j < at ==> !occurs_at(haystack, needle, j)
}

/// The least offset at which `needle` stands in `haystack`, if there is one.
pub open spec fn first_occurrence(haystack: Seq<u8>, needle: Seq<u8>) -> Option<int> {
    if exists|i: int| is_first_occurrence(haystack, needle, i) {
        Some(choose|i: int| is_first_occurrence(haystack, needle, i))
    } else {
        None
    }
}

/// Whether `at` is the least index of `byte` in `buf`.
pub open spec fn is_first_index(buf: Seq<u8>, byte: u8, at: int) -> bool {
    &&& 0 <= at < buf.len()
    &&& buf[at] == byte
    &&& forall|j: int| 0 <= j < at ==> buf[j] != byte
}

/// The least index of `byte` in `buf`, if `byte` occurs at all.
pub open spec fn first_index(buf: Seq<u8>, byte: u8) -> Option<int> {
    if exists|i: int| is_first_index(buf, byte, i) {
        Some(choose|i: int| is_first_index(buf, byte, i))
    } else {
        None
    }
}

/// Whether `at` is the greatest index of `byte` in `buf`.
pub open spec fn is_last_index(buf: Seq<u8>, byte: u8, at: int) -> bool {
    &&& 0 <= at < buf.len()
    &&& buf[at] == byte
    &&& forall|j: int| at < j < buf.len() ==> buf[j] != byte
}

/// The greatest index of `byte` in `buf`, if `byte` occurs at all.
pub open spec fn last_index(buf: Seq<u8>, byte: u8) -> Option<int> {
    if exists|i: int| is_last_index(buf, byte, i) {
        Some(choose|i: int| is_last_index(buf, byte, i))
    } else {
        None
    }
}

/// A least offset is the first occurrence.
pub proof fn lemma_first_occurrence_is(haystack: Seq<u8>, needle: Seq<u8>, at: int)
    requires
        is_first_occurrence(haystack, needle, at),
    ensures
        first_occurrence(haystack, needle) == Some(at),
{
    let chosen = choose|i: int| is_first_occurrence(haystack, needle, i);
    assert(is_first_occurrence(haystack, needle, chosen));
    if chosen < at {
        assert(!occurs_at(haystack, needle, chosen));
    } else if at < chosen {
        assert(!occurs_at(haystack, needle, at));
    }
}

/// Where `needle` stands nowhere there is no first occurrence.
pub proof fn lemma_first_occurrence_none(haystack: Seq<u8>, needle: Seq<u8>)
    requires
        forall|j: int| !occurs_at(haystack, needle, j),
    ensures
        first_occurrence(haystack, needle) is None,
{
}

/// A least index is the first index.
pub proof fn lemma_first_index_is(buf: Seq<u8>, byte: u8, at: int)
    requires
        is_first_index(buf, byte, at),
    ensures
        first_index(buf, byte) == Some(at),
{
    let chosen = choose|i: int| is_first_index(buf, byte, i);
    assert(is_first_index(buf, byte, chosen));
    if chosen < at {
        assert(buf[chosen] != byte);
    } else if at < chosen {
        assert(buf[at] != byte);
    }
}

/// A buffer without `byte` has no first index of it.
pub proof fn lemma_first_index_none(buf: Seq<u8>, byte: u8)
    requires
        forall|j: int| 0 <= j < buf.len() ==> buf[j] != byte,
    ensures
        first_index(buf, byte) is None,
{
}

/// A greatest index is the last index.
pub proof fn lemma_last_index_is(buf: Seq<u8>, byte: u8, at: int)
    requires
        is_last_index(buf, byte, at),
    ensures
        last_index(buf, byte) == Some(at),
{
    let chosen = choose|i: int| is_last_index(buf, byte, i);
    assert(is_last_index(buf, byte, chosen));
    if chosen < at {
        assert(buf[at] != byte);
    } else if at < chosen {
        assert(buf[chosen] != byte);
    }
}

/// A buffer without `byte` has no last index of it.
pub proof fn lemma_last_index_none(buf: Seq<u8>, byte: u8)
    requires
        forall|j: int| 0 <= j < buf.len() ==> buf[j] != byte,
    ensures
        last_index(buf, byte) is None,
{
}

/// `first_index` finds the byte wherever the buffer holds it: it is `None`
/// only for a buffer without the byte.
pub proof fn lemma_first_index_total(buf: Seq<u8>, byte: u8)
    ensures
        match first_index(buf, byte) {
            Some(at) => is_first_index(buf, byte, at),
            None => forall|j: int| 0 <= j < buf.len() ==> buf[j] != byte,
        },
{
    lemma_first_index_from(buf, byte, 0);
}

proof fn lemma_first_index_from(buf: Seq<u8>, byte: u8, from: int)
    requires
        0 <= from <= buf.len(),
        forall|j: int| 0 <= j < from ==> buf[j] != byte,
    ensures
        match first_index(buf, byte) {
            Some(at) => is_first_index(buf, byte, at),
            None => forall|j: int| 0 <= j < buf.len() ==> buf[j] != byte,
        },
    decreases buf.len() - from,
{
    if from == buf.len() {
        lemma_first_index_none(buf, byte);
    } else if buf[from] == byte {
        lemma_first_index_is(buf, byte, from);
    } else {
        lemma_first_index_from(buf, byte, from + 1);
    }
}

/// `last_index` finds the byte wherever the buffer holds it: it is `None`
/// only for a buffer without the byte.
pub proof fn lemma_last_index_total(buf: Seq<u8>, byte: u8)
    ensures
        match last_index(buf, byte) {
            Some(at) => is_last_index(buf, byte, at),
            None => forall|j: int| 0 <= j < buf.len() ==> buf[j] != byte,
        },
{
    lemma_last_index_before(buf, byte, buf.len() as int);
}

proof fn lemma_last_index_before(buf: Seq<u8>, byte: u8, before: int)
    requires
        0 <= before <= buf.len(),
        forall|j: int| before <= j < buf.len() ==> buf[j] != byte,
    ensures
        match last_index(buf, byte) {
            Some(at) => is_last_index(buf, byte, at),
            None => forall|j: int| 0 <= j < buf.len() ==> buf[j] != byte,
        },
    decreases before,
{
    if before == 0 {
        lemma_last_index_none(buf, byte);
    } else if buf[before - 1] == byte {
        lemma_last_index_is(buf, byte, before - 1);
    } else {
        lemma_last_index_before(buf, byte, before - 1);
    }
}

/// A run of one byte stands where that byte stands.
pub proof fn lemma_single_byte_occurrence(buf: Seq<u8>, byte: u8)
    ensures
        forall|i: int| #[trigger]
            occurs_at(buf, seq![byte], i) <==> (0 <= i < buf.len() && buf[i] == byte),
        first_occurrence(buf, seq![byte]) == first_index(buf, byte),
{
    let needle = seq![byte];
    assert forall|i: int| #[trigger]
        occurs_at(buf, needle, i) <==> (0 <= i < buf.len() && buf[i] == byte) by {
        if 0 <= i < buf.len() {
            let window = buf.subrange(i, i + 1);
            assert(window[0] == buf[i]);
            if buf[i] == byte {
                assert(window =~= needle);
            } else {
                assert(needle[0] == byte);
            }
        }
    }
    if exists|i: int| is_first_index(buf, byte, i) {
        let at = choose|i: int| is_first_index(buf, byte, i);
        assert(occurs_at(buf, needle, at));
        assert forall|j: int| 0 <= j < at implies !occurs_at(buf, needle, j) by {
            assert(buf[j] != byte);
        }
        assert(is_first_occurrence(buf, needle, at));
        lemma_first_occurrence_is(buf, needle, at);
        lemma_first_index_is(buf, byte, at);
    } else if exists|i: int| is_first_occurrence(buf, needle, i) {
        let at = choose|i: int| is_first_occurrence(buf, needle, i);
        assert(occurs_at(buf, needle, at));
        assert forall|j: int| 0 <= j < at implies buf[j] != byte by {
            assert(!occurs_at(buf, needle, j));
        }
        assert(is_first_index(buf, byte, at));
    }
}

} // verus!
