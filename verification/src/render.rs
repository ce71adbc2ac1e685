//! The text that a summary is shown as: names and sizes in columns, the
//! greatest size first.

use crate::summary::TypeCount;
use bytesize::ByteSize;
use core::cmp::Ordering;
use itertools::Itertools;
use std::io::Write;
use tabwriter::TabWriter;
use vstd::prelude::*;
use vstd::string::{to_string_from_display_ensures, StringExecFns};
use vstd::utf8::{decode_utf8, valid_utf8};

verus! {

/// The text that `bytes` read as: the text that they encode in UTF-8, with
/// a replacement character in place of what encodes none.
pub uninterp spec fn utf8_lossy(bytes: Seq<u8>) -> Seq<char>;

/// Calls `String::from_utf8_lossy`. The contract names the result
/// `utf8_lossy`, and claims what the documentation of the function says of
/// valid input: the result is the text that the bytes encode.
#[verifier::external_body]
pub(crate) fn lossy_text(bytes: &[u8]) -> (text: String)
    ensures
        text@ == utf8_lossy(bytes@),
        valid_utf8(bytes@) ==> text@ == decode_utf8(bytes@),
{
    String::from_utf8_lossy(bytes).into_owned()
}

/// Whether `text` is what `bytesize` writes for `bytes`: a number with a
/// unit, for a reader. From a thousand bytes on the unit is picked with a
/// logarithm in floating point, of which std fixes no precision; so this is
/// a relation between the number and the text, and no function of the
/// number.
pub uninterp spec fn is_size_text(bytes: u64, text: Seq<char>) -> bool;

/// Whether `text` is `bytes` written out as a number, a blank and `B`.
pub open spec fn is_count_of_bytes(bytes: u64, text: Seq<char>) -> bool {
    exists|number: String| #[trigger]
        to_string_from_display_ensures::<u64>(&bytes, number) && text == number@ + " B"@
}

/// Calls the `Display` of `bytesize::ByteSize` on a number of bytes. The
/// contract names the relation between the number and the result
/// `is_size_text`, and claims what the source fixes without floating
/// point: below a thousand the text is the number as `u64` displays it, a
/// blank and `B`.
#[verifier::external_body]
pub(crate) fn human_size(bytes: u64) -> (text: String)
    ensures
        is_size_text(bytes, text@),
        bytes < 1000 ==> is_count_of_bytes(bytes, text@),
{
    ByteSize(bytes).to_string()
}

/// The text `text` with its columns aligned, as `tabwriter` aligns them
/// with the settings that `TabWriter::new` starts with: a tab ends a cell,
/// a line feed a line, and blanks take the place of the tabs.
pub uninterp spec fn tab_aligned(text: Seq<u8>) -> Seq<u8>;

/// Writes `text` to a `tabwriter::TabWriter` over a vector, made by
/// `TabWriter::new`, and takes the vector back with `into_inner`. The
/// contract names the result `tab_aligned`.
#[verifier::external_body]
pub(crate) fn align_columns(text: &[u8]) -> (aligned: Vec<u8>)
    ensures
        aligned@ == tab_aligned(text@),
{
    let mut writer = TabWriter::new(Vec::new());
    let _ = writer.write_all(text);
    match writer.into_inner() {
        Ok(aligned) => aligned,
        Err(_) => Vec::new(),
    }
}

/// Whether `order` lists the indices of `entries` by falling size, entries
/// of one size in the order that they have in `entries`.
pub open spec fn is_descending_order(entries: Seq<TypeCount>, order: Seq<usize>) -> bool {
    &&& order.len() == entries.len()
    &&& forall|i: int| 0 <= i < order.len() ==> order[i] < entries.len()
    &&& forall|i: int, j: int| 0 <= i < j < order.len() ==> order[i] != order[j]
    &&& forall|i: int, j: int|
        0 <= i < j < order.len() ==> entries[order[i] as int].bytes >= entries[order[j] as int].bytes
    &&& forall|i: int, j: int|
        0 <= i < j < order.len() && entries[order[i] as int].bytes == entries[order[j] as int].bytes
            ==> order[i] < order[j]
}

/// The order of two entries in the table: the one with more bytes comes
/// first.
pub fn by_falling_size(a: &TypeCount, b: &TypeCount) -> (order: Ordering)
    ensures
        order == Ordering::Less <==> a.bytes > b.bytes,
        order == Ordering::Equal <==> a.bytes == b.bytes,
        order == Ordering::Greater <==> a.bytes < b.bytes,
{
    if a.bytes > b.bytes {
        Ordering::Less
    } else if a.bytes < b.bytes {
        Ordering::Greater
    } else {
        Ordering::Equal
    }
}

/// Calls `Itertools::sorted_by` on the indices of `entries`, with
/// `by_falling_size` on the entries as the comparison. The contract claims
/// what the documentation says: the result holds what went in, sorted by
/// the comparison, and the sort is that of `slice::sort_by`, which keeps
/// the order of equal elements.
#[verifier::external_body]
pub(crate) fn descending_order(entries: &Vec<TypeCount>) -> (order: Vec<usize>)
    ensures
        is_descending_order(entries@, order@),
{
    (0..entries.len()).sorted_by(|&a, &b| by_falling_size(&entries[a], &entries[b])).collect()
}

/// Whether `sorted` holds the numbers of `lines` in rising order.
pub open spec fn is_ascending(lines: Seq<usize>, sorted: Seq<usize>) -> bool {
    &&& sorted.to_multiset() == lines.to_multiset()
    &&& forall|i: int, j: int| 0 <= i < j < sorted.len() ==> sorted[i] <= sorted[j]
}

/// Calls `Itertools::sorted` on the numbers of `lines`. The contract claims
/// what the documentation says: the result holds what went in, in rising
/// order.
#[verifier::external_body]
pub(crate) fn ascending(lines: &Vec<usize>) -> (sorted: Vec<usize>)
    ensures
        is_ascending(lines@, sorted@),
{
    lines.iter().copied().sorted().collect()
}

/// One line of the table: a name and the size that goes with it.
#[derive(Debug)]
pub struct TableRow {
    pub label: String,
    pub size: String,
}

/// The lines of a table as one text: each row as its label, a tab, its
/// size and a line feed.
pub open spec fn rows_text(rows: Seq<TableRow>) -> Seq<char>
    decreases rows.len(),
{
    if rows.len() == 0 {
        Seq::empty()
    } else {
        rows_text(rows.drop_last()) + rows.last().label@ + "\t"@ + rows.last().size@ + "\n"@
    }
}

/// The text of a table: its rows, and a last line with the total, which no
/// line feed ends.
pub open spec fn table_of(rows: Seq<TableRow>, total: Seq<char>) -> Seq<char> {
    rows_text(rows) + "Total:\t"@ + total
}

/// Writes a table out, its columns parted by tabs.
pub fn table_text(rows: &Vec<TableRow>, total: &str) -> (text: String)
    ensures
        text@ == table_of(rows@, total@),
{
    let mut text = String::new();
    let mut at: usize = 0;
    while at < rows.len()
        invariant
            at <= rows@.len(),
            text@ == rows_text(rows@.take(at as int)),
        decreases rows@.len() - at,
    {
        proof {
            let next = rows@.take(at + 1);
            assert(next.drop_last() =~= rows@.take(at as int));
            assert(next.last() == rows@[at as int]);
        }
        text.append(rows[at].label.as_str());
        text.append("\t");
        text.append(rows[at].size.as_str());
        text.append("\n");
        at += 1;
    }
    assert(rows@.take(at as int) =~= rows@);
    text.append("Total:\t");
    text.append(total);
    text
}

} // verus!
