//! What holds of the two summarizers together: a run in batches counts what
//! a run over the records in their order counts, in whatever order the
//! summaries of the batches are merged.

use crate::counts::{lemma_merge_associative, lemma_merge_commutative, merge_counts, Counts};
use crate::parsers::Parser;
use crate::search::{
    first_index, is_first_index, last_index, lemma_first_index_is, lemma_first_index_total,
    lemma_last_index_total,
};
use crate::summarizers::async_buf_reader::batch_reader::batch_len;
use crate::summarizers::async_buf_reader::byte_lines::{
    first_record_len, lemma_first_record_len, records_of,
};
use crate::summarizers::async_buf_reader::{batches_of, records_of_batches};
use crate::summarizers::{failures, lemma_tally_concat, tally};
use vstd::prelude::*;
use vstd::seq_lib::{commutative_foldl, lemma_fold_left_permutation};

verus! {

/// Behind a buffer that ends with a delimiter a new record begins: the
/// records of two buffers in a row are those of the first and then those of
/// the second.
pub proof fn lemma_records_split(first: Seq<u8>, second: Seq<u8>, delim: u8)
    requires
        first.len() == 0 || first.last() == delim,
    ensures
        records_of(first + second, delim) == records_of(first, delim) + records_of(second, delim),
    decreases first.len(),
{
    let whole = first + second;
    if first.len() == 0 {
        assert(whole =~= second);
        assert(records_of(first, delim) + records_of(second, delim) =~= records_of(second, delim));
    } else {
        lemma_first_index_total(first, delim);
        let at = first_index(first, delim).unwrap();
        assert(is_first_index(whole, delim, at)) by {
            assert(whole[at] == first[at]);
            assert forall|j: int| 0 <= j < at implies whole[j] != delim by {
                assert(whole[j] == first[j]);
            }
        }
        lemma_first_index_is(whole, delim, at);
        let length = at + 1;
        assert(whole.take(length) =~= first.take(length));
        assert(whole.skip(length) =~= first.skip(length) + second);
        if first.skip(length).len() > 0 {
            assert(first.skip(length).last() == first.last());
        }
        lemma_records_split(first.skip(length), second, delim);
        assert(records_of(whole, delim) =~= records_of(first, delim) + records_of(second, delim));
    }
}

/// The records of a batch and of the batches behind it are the records of
/// them all.
pub proof fn lemma_records_of_batches_front(batch: Seq<u8>, rest: Seq<Seq<u8>>, delim: u8)
    ensures
        records_of_batches(seq![batch] + rest, delim) == records_of(batch, delim)
            + records_of_batches(rest, delim),
    decreases rest.len(),
{
    let all = seq![batch] + rest;
    if rest.len() == 0 {
        assert(all.drop_last() =~= Seq::<Seq<u8>>::empty());
        assert(records_of_batches(all.drop_last(), delim) =~= Seq::<Seq<u8>>::empty());
        assert(all.last() == batch);
        assert(records_of_batches(all, delim) =~= records_of(batch, delim));
        assert(records_of(batch, delim) + records_of_batches(rest, delim) =~= records_of(
            batch,
            delim,
        ));
    } else {
        assert(all.drop_last() =~= seq![batch] + rest.drop_last());
        assert(all.last() == rest.last());
        lemma_records_of_batches_front(batch, rest.drop_last(), delim);
        assert(records_of_batches(all, delim) =~= records_of(batch, delim) + records_of_batches(
            rest,
            delim,
        ));
    }
}

/// With a batch size that no record exceeds every batch can be cut, and the
/// batches hold the records of the input, each whole and in its place.
pub proof fn lemma_batches_keep_records(input: Seq<u8>, batch_size: nat, delim: u8)
    requires
        forall|i: int|
            0 <= i < records_of(input, delim).len() ==> (#[trigger] records_of(input, delim)[i]).len()
                <= batch_size,
    ensures
        batches_of(input, batch_size, delim) matches Some(batches) && records_of_batches(
            batches,
            delim,
        ) == records_of(input, delim),
    decreases input.len(),
{
    let records = records_of(input, delim);
    if input.len() == 0 {
        assert(records_of_batches(Seq::<Seq<u8>>::empty(), delim) =~= records);
    } else {
        lemma_first_record_len(input, delim);
        assert(records[0] == input.take(first_record_len(input, delim)));
        assert(batch_size > 0);
        let width = if batch_size <= input.len() {
            batch_size as int
        } else {
            input.len() as int
        };
        let window = input.take(width);
        lemma_last_index_total(window, delim);
        match last_index(window, delim) {
            Some(at) => {
                let length = at + 1;
                let batch = input.take(length);
                let unread = input.skip(length);
                assert(batch.last() == window[at]);
                assert(batch + unread =~= input);
                lemma_records_split(batch, unread, delim);
                let front = records_of(batch, delim);
                assert forall|i: int| 0 <= i < records_of(unread, delim).len() implies (
                #[trigger] records_of(unread, delim)[i]).len() <= batch_size by {
                    assert(records_of(unread, delim)[i] == records[front.len() + i]);
                }
                lemma_batches_keep_records(unread, batch_size, delim);
                let rest = batches_of(unread, batch_size, delim).unwrap();
                lemma_records_of_batches_front(batch, rest, delim);
                assert(batch_len(window, delim, window.len() == input.len()) == Some(length));
                assert(batches_of(input, batch_size, delim) == Some(seq![batch] + rest));
                assert(records_of_batches(seq![batch] + rest, delim) == records);
            },
            None => {
                if window.len() == input.len() {
                    assert(window =~= input);
                    assert(input.take(input.len() as int) =~= input);
                    assert(input.skip(input.len() as int) =~= Seq::<u8>::empty());
                    lemma_records_of_batches_front(input, Seq::empty(), delim);
                    assert(seq![input] + Seq::<Seq<u8>>::empty() =~= seq![input]);
                    assert(records_of(input, delim) + records_of_batches(
                        Seq::<Seq<u8>>::empty(),
                        delim,
                    ) =~= records);
                    assert(batch_len(window, delim, true) == Some(input.len() as int));
                    assert(batches_of(input.skip(input.len() as int), batch_size, delim) == Some(
                        Seq::<Seq<u8>>::empty(),
                    ));
                    assert(batches_of(input, batch_size, delim) == Some(seq![input]));
                } else {
                    lemma_first_index_total(input, delim);
                    match first_index(input, delim) {
                        Some(at) => {
                            if at < width {
                                assert(window[at] == input[at]);
                            }
                        },
                        None => {},
                    }
                    assert(records[0].len() > batch_size);
                }
            },
        }
    }
}

/// The batches of an input are the input cut into pieces, where the batch
/// size is not zero: none is empty, none is longer than the batch size,
/// each but the last ends with a delimiter, and in a row they are the
/// input.
pub proof fn lemma_batches_shape(input: Seq<u8>, batch_size: nat, delim: u8)
    requires
        batch_size > 0,
        batches_of(input, batch_size, delim) is Some,
    ensures
        ({
            let batches = batches_of(input, batch_size, delim).unwrap();
            &&& batches.flatten() == input
            &&& forall|i: int|
                0 <= i < batches.len() ==> 0 < (#[trigger] batches[i]).len() <= batch_size
            &&& forall|i: int| 0 <= i < batches.len() - 1 ==> (#[trigger] batches[i]).last() == delim
        }),
    decreases input.len(),
{
    let batches = batches_of(input, batch_size, delim).unwrap();
    if input.len() == 0 {
        assert(batches.flatten() =~= input);
    } else {
        let width = if batch_size <= input.len() {
            batch_size as int
        } else {
            input.len() as int
        };
        let window = input.take(width);
        lemma_last_index_total(window, delim);
        let length = batch_len(window, delim, window.len() == input.len()).unwrap();
        let batch = input.take(length);
        let unread = input.skip(length);
        let rest = batches_of(unread, batch_size, delim).unwrap();
        lemma_batches_shape(unread, batch_size, delim);
        assert(batches.first() == batch);
        assert(batches.drop_first() =~= rest);
        assert(batches.flatten() =~= input);
        assert forall|i: int| 0 <= i < batches.len() implies 0 < (#[trigger] batches[i]).len()
            <= batch_size by {
            if i > 0 {
                assert(batches[i] == rest[i - 1]);
            }
        }
        assert forall|i: int| 0 <= i < batches.len() - 1 implies (#[trigger] batches[i]).last()
            == delim by {
            if i > 0 {
                assert(batches[i] == rest[i - 1]);
            } else {
                assert(unread.len() > 0);
                match last_index(window, delim) {
                    Some(at) => {
                        assert(batch.last() == window[at]);
                    },
                    None => {},
                }
            }
        }
    }
}

/// What a batch adds to a summary: the bytes per type name and the number
/// of failures.
pub type Part = (Counts, nat);

/// The merge of two parts.
pub open spec fn merge_parts(a: Part, b: Part) -> Part {
    (merge_counts(a.0, b.0), a.1 + b.1)
}

/// The merge of a list of parts, taken one after the other.
pub open spec fn merge_all(parts: Seq<Part>) -> Part {
    parts.fold_left((Map::empty(), 0nat), |merged: Part, part: Part| merge_parts(merged, part))
}

/// What each batch of a list adds, in the order of the batches.
pub open spec fn parts_of<P: Parser>(batches: Seq<Seq<u8>>, delim: u8) -> Seq<Part> {
    Seq::new(
        batches.len(),
        |i: int| (tally::<P>(records_of(batches[i], delim)), failures::<P>(records_of(batches[i], delim))),
    )
}

/// Merging is commutative and associative.
pub proof fn lemma_merge_parts(a: Part, b: Part, c: Part)
    ensures
        merge_parts(a, b) == merge_parts(b, a),
        merge_parts(merge_parts(a, b), c) == merge_parts(a, merge_parts(b, c)),
{
    lemma_merge_commutative(a.0, b.0);
    lemma_merge_associative(a.0, b.0, c.0);
}

/// The order in which parts are merged does not matter to the result.
pub proof fn lemma_merge_order(first: Seq<Part>, second: Seq<Part>)
    requires
        first.to_multiset() == second.to_multiset(),
    ensures
        merge_all(first) == merge_all(second),
{
    let merge = |merged: Part, part: Part| merge_parts(merged, part);
    assert(commutative_foldl(merge)) by {
        assert forall|x: Part, y: Part, v: Part| #[trigger]
            merge(merge(v, x), y) == merge(merge(v, y), x) by {
            lemma_merge_parts(v, x, y);
            lemma_merge_parts(v, y, x);
            lemma_merge_parts(x, y, v);
        }
    }
    lemma_fold_left_permutation(first, second, merge, (Map::empty(), 0nat));
}

/// Merging what the batches add, in their order, gives what a run over
/// their records in a row counts.
pub proof fn lemma_merge_of_batches<P: Parser>(batches: Seq<Seq<u8>>, delim: u8)
    ensures
        merge_all(parts_of::<P>(batches, delim)) == (
            tally::<P>(records_of_batches(batches, delim)),
            failures::<P>(records_of_batches(batches, delim)),
        ),
    decreases batches.len(),
{
    let parts = parts_of::<P>(batches, delim);
    if batches.len() == 0 {
    } else {
        let front = batches.drop_last();
        lemma_merge_of_batches::<P>(front, delim);
        assert(parts.drop_last() =~= parts_of::<P>(front, delim));
        lemma_tally_concat::<P>(records_of_batches(front, delim), records_of(batches.last(), delim));
    }
}

/// A run in batches agrees with a run over the records in their order.
/// Where no record is longer than a batch, every batch can be cut; and in
/// whatever order the summaries of the batches arrive and are merged, the
/// result holds the bytes per type name and the number of failures of the
/// records of the input.
pub proof fn lemma_batched_agrees_with_sequential<P: Parser>(
    input: Seq<u8>,
    batch_size: nat,
    delim: u8,
    arrival: Seq<Part>,
)
    requires
        forall|i: int|
            0 <= i < records_of(input, delim).len() ==> (#[trigger] records_of(input, delim)[i]).len()
                <= batch_size,
        batches_of(input, batch_size, delim) matches Some(batches) ==> arrival.to_multiset()
            == parts_of::<P>(batches, delim).to_multiset(),
    ensures
        batches_of(input, batch_size, delim) is Some,
        merge_all(arrival) == (
            tally::<P>(records_of(input, delim)),
            failures::<P>(records_of(input, delim)),
        ),
{
    lemma_batches_keep_records(input, batch_size, delim);
    let batches = batches_of(input, batch_size, delim).unwrap();
    lemma_merge_of_batches::<P>(batches, delim);
    lemma_merge_order(arrival, parts_of::<P>(batches, delim));
}

} // verus!
