use crate::counts::{
    add_count, count_of, lemma_count_le_total, lemma_merge_add, lemma_merge_associative,
    lemma_merge_commutative, lemma_merge_empty, lemma_total_add, lemma_total_merge, merge_counts,
    total_of, Counts,
};
use crate::parsers::LogLineMetadata;
use crate::render::{
    align_columns, descending_order, human_size, is_descending_order, is_size_text, lossy_text,
    tab_aligned,
    table_of, table_text, utf8_lossy, TableRow,
};
use core::fmt::Debug;
use vstd::prelude::*;
use vstd::slice::slice_to_vec;
use vstd::utf8::{decode_utf8, decode_utf8_encode_utf8, encode_utf8, valid_utf8};

verus! {

/// A type name with the bytes counted for it.
#[derive(Debug)]
pub struct TypeCount {
    pub name: Vec<u8>,
    pub bytes: usize,
}

/// What a summary holds, as plain numbers and text: the form in which it is
/// handed on to be written out as a document.
#[derive(Debug, Clone)]
pub struct JsonSummary {
    /// The total file size
    pub total_size: usize,
    /// All types and aggregate sizes in bytes
    pub type_size: Vec<(String, usize)>,
    /// The total number of lines which returned errors
    pub total_errors: usize,
}

/// Whether `text` is the table of `entries`: `rows` holds a row for each
/// entry, the one at `order[i]` in the place `i`, its name as text beside
/// its bytes as a size; below the rows stands `total`, the size of all
/// bytes together; and the columns are aligned.
pub open spec fn renders(
    entries: Seq<TypeCount>,
    rows: Seq<TableRow>,
    order: Seq<usize>,
    total: Seq<char>,
    text: Seq<char>,
) -> bool {
    &&& is_descending_order(entries, order)
    &&& rows.len() == order.len()
    &&& forall|i: int|
        0 <= i < rows.len() ==> (#[trigger] rows[i]).label@ == utf8_lossy(
            entries[order[i] as int].name@,
        )
    &&& forall|i: int|
        0 <= i < rows.len() ==> is_size_text(
            entries[order[i] as int].bytes as u64,
            (#[trigger] rows[i]).size@,
        )
    &&& is_size_text(total_of(counts_of(entries)) as u64, total)
    &&& text == utf8_lossy(tab_aligned(encode_utf8(table_of(rows, total))))
}

/// The map that a list of entries stands for.
pub open spec fn counts_of(entries: Seq<TypeCount>) -> Counts
    decreases entries.len(),
{
    if entries.len() == 0 {
        Map::empty()
    } else {
        counts_of(entries.drop_last()).insert(entries.last().name@, entries.last().bytes as nat)
    }
}

/// No name stands in the list twice.
pub open spec fn distinct_names(entries: Seq<TypeCount>) -> bool {
    forall|i: int, j: int|
        0 <= i < j < entries.len() ==> (#[trigger] entries[i]).name@ != (#[trigger] entries[j]).name@
}

/// The names of a list are the keys of its map; there are finitely many.
pub proof fn lemma_counts_dom(entries: Seq<TypeCount>)
    ensures
        counts_of(entries).dom().finite(),
        forall|name: Seq<u8>|
            counts_of(entries).dom().contains(name) <==> exists|i: int|
                0 <= i < entries.len() && (#[trigger] entries[i]).name@ == name,
    decreases entries.len(),
{
    if entries.len() > 0 {
        let front = entries.drop_last();
        lemma_counts_dom(front);
        assert forall|name: Seq<u8>|
            counts_of(entries).dom().contains(name) <==> exists|i: int|
                0 <= i < entries.len() && (#[trigger] entries[i]).name@ == name by {
            if counts_of(entries).dom().contains(name) {
                if name == entries.last().name@ {
                    assert(entries[entries.len() - 1].name@ == name);
                } else {
                    let i = choose|i: int| 0 <= i < front.len() && (#[trigger] front[i]).name@ == name;
                    assert(entries[i].name@ == name);
                }
            }
            if exists|i: int| 0 <= i < entries.len() && (#[trigger] entries[i]).name@ == name {
                let i = choose|i: int| 0 <= i < entries.len() && (#[trigger] entries[i]).name@ == name;
                if i < entries.len() - 1 {
                    assert(front[i].name@ == name);
                }
            }
        }
    }
}

/// Where no name stands twice, each entry holds what its name counts for.
pub proof fn lemma_counts_at(entries: Seq<TypeCount>, at: int)
    requires
        distinct_names(entries),
        0 <= at < entries.len(),
    ensures
        counts_of(entries).dom().contains(entries[at].name@),
        counts_of(entries)[entries[at].name@] == entries[at].bytes,
    decreases entries.len(),
{
    if at < entries.len() - 1 {
        let front = entries.drop_last();
        assert(front[at] == entries[at]);
        assert(distinct_names(front)) by {
            assert forall|i: int, j: int| 0 <= i < j < front.len() implies (#[trigger] front[i]).name@
                != (#[trigger] front[j]).name@ by {
                assert(front[i] == entries[i] && front[j] == entries[j]);
            }
        }
        lemma_counts_at(front, at);
        assert(entries[at].name@ != entries[entries.len() - 1].name@);
    }
}

/// Putting other bytes into one entry puts them into the map under its name.
pub proof fn lemma_counts_update(entries: Seq<TypeCount>, at: int, entry: TypeCount)
    requires
        distinct_names(entries),
        0 <= at < entries.len(),
        entry.name@ == entries[at].name@,
    ensures
        distinct_names(entries.update(at, entry)),
        counts_of(entries.update(at, entry)) == counts_of(entries).insert(
            entry.name@,
            entry.bytes as nat,
        ),
    decreases entries.len(),
{
    let after = entries.update(at, entry);
    assert(distinct_names(after)) by {
        assert forall|i: int, j: int| 0 <= i < j < after.len() implies (#[trigger] after[i]).name@
            != (#[trigger] after[j]).name@ by {
            assert(after[i].name@ == entries[i].name@ && after[j].name@ == entries[j].name@);
        }
    }
    let front = entries.drop_last();
    if at == entries.len() - 1 {
        assert(after.drop_last() =~= front);
        assert(counts_of(after) =~= counts_of(entries).insert(entry.name@, entry.bytes as nat));
    } else {
        assert(front[at] == entries[at]);
        assert(distinct_names(front)) by {
            assert forall|i: int, j: int| 0 <= i < j < front.len() implies (#[trigger] front[i]).name@
                != (#[trigger] front[j]).name@ by {
                assert(front[i] == entries[i] && front[j] == entries[j]);
            }
        }
        lemma_counts_update(front, at, entry);
        assert(after.drop_last() =~= front.update(at, entry));
        assert(after.last() == entries.last());
        assert(entries[at].name@ != entries[entries.len() - 1].name@);
        assert(counts_of(after) =~= counts_of(entries).insert(entry.name@, entry.bytes as nat));
    }
}

/// One entry more, under a name of its own, is one key more in the map and
/// its bytes more in the total.
pub proof fn lemma_counts_step(entries: Seq<TypeCount>, at: int)
    requires
        distinct_names(entries),
        0 <= at < entries.len(),
    ensures
        counts_of(entries.take(at)).dom().finite(),
        !counts_of(entries.take(at)).dom().contains(entries[at].name@),
        counts_of(entries.take(at + 1)) == add_count(
            counts_of(entries.take(at)),
            entries[at].name@,
            entries[at].bytes as nat,
        ),
        total_of(counts_of(entries.take(at + 1))) == total_of(counts_of(entries.take(at)))
            + entries[at].bytes,
{
    let front = entries.take(at);
    let next = entries.take(at + 1);
    lemma_counts_dom(front);
    if counts_of(front).dom().contains(entries[at].name@) {
        let i = choose|i: int| 0 <= i < front.len() && (#[trigger] front[i]).name@ == entries[at].name@;
        assert(front[i] == entries[i]);
    }
    assert(next.drop_last() =~= front);
    assert(next.last() == entries[at]);
    lemma_total_add(counts_of(front), entries[at].name@, entries[at].bytes as nat);
}

/// The entries up to `at` count for no more than all of them.
pub proof fn lemma_counts_prefix(entries: Seq<TypeCount>, at: int)
    requires
        distinct_names(entries),
        0 <= at <= entries.len(),
    ensures
        total_of(counts_of(entries.take(at))) <= total_of(counts_of(entries)),
    decreases entries.len() - at,
{
    if at == entries.len() {
        assert(entries.take(at) =~= entries);
    } else {
        lemma_counts_step(entries, at);
        lemma_counts_prefix(entries, at + 1);
    }
}

/// Nothing is lost between a summary and the numbers and texts that it is
/// handed on as, where its names are text in UTF-8: the text of a row
/// encodes the name of its entry, no other row has that text, and the
/// number beside it is what the map holds under the name.
pub proof fn lemma_snapshot_lossless(
    entries: Seq<TypeCount>,
    rows: Seq<(String, usize)>,
    at: int,
)
    requires
        distinct_names(entries),
        rows.len() == entries.len(),
        forall|i: int|
            0 <= i < entries.len() ==> {
                &&& valid_utf8(entries[i].name@)
                &&& (#[trigger] rows[i]).0@ == decode_utf8(entries[i].name@)
                &&& rows[i].1 == entries[i].bytes
            },
        0 <= at < entries.len(),
    ensures
        encode_utf8(rows[at].0@) == entries[at].name@,
        counts_of(entries).dom().contains(entries[at].name@),
        rows[at].1 == counts_of(entries)[entries[at].name@],
        forall|j: int| 0 <= j < rows.len() && (#[trigger] rows[j]).0@ == rows[at].0@ ==> j == at,
{
    lemma_counts_at(entries, at);
    assert(rows[at].0@ == decode_utf8(entries[at].name@));
    decode_utf8_encode_utf8(entries[at].name@);
    assert forall|j: int| 0 <= j < rows.len() && (#[trigger] rows[j]).0@ == rows[at].0@ implies j
        == at by {
        assert(rows[j].0@ == decode_utf8(entries[j].name@));
        decode_utf8_encode_utf8(entries[j].name@);
        if j < at {
            assert(entries[j].name@ != entries[at].name@);
        } else if at < j {
            assert(entries[at].name@ != entries[j].name@);
        }
    }
}

/// It does not matter which of two summaries takes the other in: the maps
/// and the numbers of failures come out the same.
pub proof fn lemma_combine_commutative<E: ErrorSummary>(
    a: Summary<E>,
    b: Summary<E>,
    a_with_b: Summary<E>,
    b_with_a: Summary<E>,
)
    requires
        a.merged(&b, &a_with_b),
        b.merged(&a, &b_with_a),
    ensures
        a_with_b.counts() == b_with_a.counts(),
        a_with_b.spec_errors().failures() == b_with_a.spec_errors().failures(),
{
    lemma_merge_commutative(a.counts(), b.counts());
}

/// Nor does it matter in which grouping three summaries are combined.
pub proof fn lemma_combine_associative<E: ErrorSummary>(
    a: Summary<E>,
    b: Summary<E>,
    c: Summary<E>,
    a_with_b: Summary<E>,
    left: Summary<E>,
    b_with_c: Summary<E>,
    right: Summary<E>,
)
    requires
        a.merged(&b, &a_with_b),
        a_with_b.merged(&c, &left),
        b.merged(&c, &b_with_c),
        a.merged(&b_with_c, &right),
    ensures
        left.counts() == right.counts(),
        left.spec_errors().failures() == right.spec_errors().failures(),
{
    lemma_merge_associative(a.counts(), b.counts(), c.counts());
}

/// What a summary keeps of the records that no type could be read from.
/// The sequential summarizer keeps their indices, the batch summarizer only
/// their number.
pub trait ErrorSummary: Debug + Default {
    /// The number of failed records on record.
    spec fn failures(&self) -> nat;

    /// How many failed records one call of `accumulate` with `error` stands
    /// for.
    spec fn weight(error: usize) -> nat;

    /// Whether `after` is what `self` becomes when `error` is put on record.
    spec fn accumulated(&self, error: usize, after: &Self) -> bool;

    /// Whether `after` is what `self` becomes when it takes over `other`.
    spec fn combined(&self, other: &Self, after: &Self) -> bool;

    /// A summary of no failure.
    fn new() -> (empty: Self)
        ensures
            empty.failures() == 0,
    ;

    /// Puts a failure on record: `error` says which record failed, or how
    /// many did.
    fn accumulate(&mut self, error: usize)
        requires
            old(self).failures() + Self::weight(error) <= usize::MAX,
        ensures
            old(self).accumulated(error, final(self)),
            final(self).failures() == old(self).failures() + Self::weight(error),
    ;

    /// Takes over the failures of `other`.
    fn combine(&mut self, other: Self)
        requires
            old(self).failures() + other.failures() <= usize::MAX,
        ensures
            old(self).combined(&other, final(self)),
            final(self).failures() == old(self).failures() + other.failures(),
    ;

    /// Total number of errors
    fn total_errors(&self) -> (total: usize)
        ensures
            total == self.failures(),
    ;

    /// The lines that tell a reader of the failures: none where there is no
    /// failure.
    fn diagnostics(&self) -> (lines: Vec<String>)
        ensures
            self.failures() == 0 <==> lines@.len() == 0,
    ;
}

/// An aggregated type string count
#[derive(Debug)]
pub struct Summary<E: ErrorSummary> {
    type_counts: Vec<TypeCount>,
    errors: E,
}

impl<E: ErrorSummary> Default for Summary<E> {
    fn default() -> (summary: Self)
        ensures
            summary.wf(),
            summary.counts() == Counts::empty(),
            summary.spec_errors().failures() == 0,
    {
        Self::new()
    }
}

/// Whether two slices hold the same bytes.
pub fn same_bytes(a: &[u8], b: &[u8]) -> (same: bool)
    ensures
        same == (a@ == b@),
{
    if a.len() != b.len() {
        return false;
    }
    let mut at: usize = 0;
    while at < a.len()
        invariant
            a@.len() == b@.len(),
            at <= a@.len(),
            forall|k: int| 0 <= k < at ==> a@[k] == b@[k],
        decreases a@.len() - at,
    {
        if a[at] != b[at] {
            return false;
        }
        at += 1;
    }
    assert(a@ =~= b@);
    true
}

impl<E: ErrorSummary> Summary<E> {
    /// No type name is kept twice, and the bytes of all types together fit
    /// into a `usize`.
    pub closed spec fn wf(&self) -> bool {
        &&& distinct_names(self.type_counts@)
        &&& total_of(counts_of(self.type_counts@)) <= usize::MAX
    }

    /// The map of a summary is finite and its total fits into a `usize`.
    pub proof fn lemma_bounded(&self)
        requires
            self.wf(),
        ensures
            self.counts().dom().finite(),
            self.total() <= usize::MAX,
    {
        lemma_counts_dom(self.type_counts@);
    }

    /// The bytes counted so far, by type name.
    pub closed spec fn counts(&self) -> Counts {
        counts_of(self.type_counts@)
    }

    /// What is kept of the failed records.
    pub closed spec fn spec_errors(&self) -> &E {
        &self.errors
    }

    /// The bytes of all types together.
    pub open spec fn total(&self) -> nat {
        total_of(self.counts())
    }

    /// Whether `after` holds what `self` and `other` hold together: the
    /// key-wise sum of their maps, and the failures of both. This is what
    /// `combine` makes of `self`.
    pub open spec fn merged(&self, other: &Self, after: &Self) -> bool {
        &&& after.counts() == merge_counts(self.counts(), other.counts())
        &&& after.spec_errors().failures() == self.spec_errors().failures()
            + other.spec_errors().failures()
    }

    /// The type names with their bytes, in the order in which the names
    /// were first counted.
    pub closed spec fn entries(&self) -> Seq<TypeCount> {
        self.type_counts@
    }

    /// The entries of a summary hold each name once, and they are what the
    /// map holds.
    pub proof fn lemma_entries(&self)
        requires
            self.wf(),
        ensures
            distinct_names(self.entries()),
            self.counts() == counts_of(self.entries()),
    {
    }

    /// A summary of no record.
    pub fn new() -> (summary: Self)
        ensures
            summary.wf(),
            summary.counts() == Counts::empty(),
            summary.spec_errors().failures() == 0,
    {
        Summary { type_counts: Vec::new(), errors: E::new() }
    }

    /// What is kept of the failed records.
    #[verifier::when_used_as_spec(spec_errors)]
    pub fn errors(&self) -> (errors: &E)
        ensures
            errors == self.spec_errors(),
    {
        &self.errors
    }

    pub fn register_error(&mut self, error: usize)
        requires
            old(self).wf(),
            old(self).spec_errors().failures() + E::weight(error) <= usize::MAX,
        ensures
            final(self).wf(),
            final(self).counts() == old(self).counts(),
            old(self).spec_errors().accumulated(error, final(self).spec_errors()),
            final(self).spec_errors().failures() == old(self).spec_errors().failures() + E::weight(
                error,
            ),
    {
        self.errors.accumulate(error);
    }

    /// Counts `bytes` more for `name`.
    fn add(&mut self, name: &[u8], bytes: usize)
        requires
            old(self).wf(),
            old(self).total() + bytes <= usize::MAX,
        ensures
            final(self).wf(),
            final(self).counts() == add_count(old(self).counts(), name@, bytes as nat),
            final(self).spec_errors() == old(self).spec_errors(),
    {
        proof {
            lemma_counts_dom(self.type_counts@);
            lemma_total_add(self.counts(), name@, bytes as nat);
        }
        let ghost before = self.type_counts@;
        let mut at: usize = 0;
        while at < self.type_counts.len()
            invariant
                self.type_counts@ == before,
                old(self).type_counts@ == before,
                self.errors == old(self).errors,
                distinct_names(before),
                counts_of(before).dom().finite(),
                total_of(counts_of(before)) + bytes <= usize::MAX,
                at <= before.len(),
                forall|k: int| 0 <= k < at ==> (#[trigger] before[k]).name@ != name@,
            decreases before.len() - at,
        {
            if same_bytes(self.type_counts[at].name.as_slice(), name) {
                proof {
                    lemma_counts_at(before, at as int);
                    lemma_count_le_total(counts_of(before), name@);
                }
                let sum: usize = self.type_counts[at].bytes + bytes;
                proof {
                    let entry = TypeCount { name: before[at as int].name, bytes: sum };
                    lemma_counts_update(before, at as int, entry);
                }
                self.type_counts[at].bytes = sum;
                proof {
                    let entry = TypeCount { name: before[at as int].name, bytes: sum };
                    assert(self.type_counts@ =~= before.update(at as int, entry));
                    assert(entry.name@ == name@);
                    assert(count_of(counts_of(before), name@) == before[at as int].bytes);
                    assert(counts_of(self.type_counts@) == add_count(
                        counts_of(before),
                        name@,
                        bytes as nat,
                    ));
                    lemma_total_add(counts_of(before), name@, bytes as nat);
                }
                return ;
            }
            at += 1;
        }
        proof {
            assert(!counts_of(before).dom().contains(name@));
        }
        let entry = TypeCount { name: slice_to_vec(name), bytes };
        self.type_counts.push(entry);
        proof {
            let after = self.type_counts@;
            assert(after.drop_last() =~= before);
            assert forall|i: int, j: int| 0 <= i < j < after.len() implies (#[trigger] after[i]).name@
                != (#[trigger] after[j]).name@ by {
                if j == after.len() - 1 {
                    assert(after[i] == before[i]);
                } else {
                    assert(after[i] == before[i] && after[j] == before[j]);
                }
            }
        }
    }

    /// The total file size
    pub fn total_size(&self) -> (total: usize)
        requires
            self.wf(),
        ensures
            total == self.total(),
    {
        let mut total: usize = 0;
        let mut at: usize = 0;
        while at < self.type_counts.len()
            invariant
                self.wf(),
                at <= self.type_counts@.len(),
                total == total_of(counts_of(self.type_counts@.take(at as int))),
            decreases self.type_counts@.len() - at,
        {
            proof {
                lemma_counts_step(self.type_counts@, at as int);
                lemma_counts_prefix(self.type_counts@, at + 1);
            }
            total = total + self.type_counts[at].bytes;
            at += 1;
        }
        assert(self.type_counts@.take(at as int) =~= self.type_counts@);
        total
    }

    /// The summary as a table for a reader: a line for each type, the
    /// greatest first, with the name and the size, and a last line with the
    /// total. The sizes are written with a unit, as `bytesize` writes them.
    pub fn to_string(&self) -> (text: String)
        requires
            self.wf(),
        ensures
            exists|rows: Seq<TableRow>, order: Seq<usize>, total: Seq<char>| #[trigger]
                renders(self.entries(), rows, order, total, text@),
    {
        let order = descending_order(&self.type_counts);
        let mut rows: Vec<TableRow> = Vec::new();
        let mut at: usize = 0;
        while at < order.len()
            invariant
                is_descending_order(self.type_counts@, order@),
                at <= order@.len(),
                rows@.len() == at,
                forall|i: int|
                    0 <= i < at ==> (#[trigger] rows@[i]).label@ == utf8_lossy(
                        self.type_counts@[order@[i] as int].name@,
                    ),
                forall|i: int|
                    0 <= i < at ==> is_size_text(
                        self.type_counts@[order@[i] as int].bytes as u64,
                        (#[trigger] rows@[i]).size@,
                    ),
            decreases order@.len() - at,
        {
            let entry = &self.type_counts[order[at]];
            let row = TableRow {
                label: lossy_text(entry.name.as_slice()),
                size: human_size(entry.bytes as u64),
            };
            rows.push(row);
            at += 1;
        }
        let total = human_size(self.total_size() as u64);
        let table = table_text(&rows, total.as_str());
        let aligned = align_columns(table.as_str().as_bytes());
        let text = lossy_text(aligned.as_slice());
        assert(renders(self.entries(), rows@, order@, total@, text@));
        text
    }

    /// The numbers of the summary and the names as text, for a document:
    /// the total, the bytes of each type in the order of `entries`, and the
    /// number of failures.
    pub fn to_json(&self) -> (snapshot: JsonSummary)
        requires
            self.wf(),
        ensures
            snapshot.total_size == self.total(),
            snapshot.total_errors == self.spec_errors().failures(),
            snapshot.type_size@.len() == self.entries().len(),
            forall|i: int|
                0 <= i < self.entries().len() ==> {
                    &&& (#[trigger] snapshot.type_size@[i]).0@ == utf8_lossy(self.entries()[i].name@)
                    &&& valid_utf8(self.entries()[i].name@) ==> snapshot.type_size@[i].0@
                        == decode_utf8(self.entries()[i].name@)
                    &&& snapshot.type_size@[i].1 == self.entries()[i].bytes
                },
    {
        let mut type_size: Vec<(String, usize)> = Vec::new();
        let mut at: usize = 0;
        while at < self.type_counts.len()
            invariant
                at <= self.type_counts@.len(),
                type_size@.len() == at,
                forall|i: int|
                    0 <= i < at ==> {
                        &&& (#[trigger] type_size@[i]).0@ == utf8_lossy(self.type_counts@[i].name@)
                        &&& valid_utf8(self.type_counts@[i].name@) ==> type_size@[i].0@
                            == decode_utf8(self.type_counts@[i].name@)
                        &&& type_size@[i].1 == self.type_counts@[i].bytes
                    },
            decreases self.type_counts@.len() - at,
        {
            let entry = &self.type_counts[at];
            type_size.push((lossy_text(entry.name.as_slice()), entry.bytes));
            at += 1;
        }
        JsonSummary {
            total_size: self.total_size(),
            type_size,
            total_errors: self.errors.total_errors(),
        }
    }

    /// Not quite [std::ops::Add]. This is an in-place merge with another [Summary]
    pub fn combine(&mut self, other: Self)
        requires
            old(self).wf(),
            other.wf(),
            old(self).total() + other.total() <= usize::MAX,
            old(self).spec_errors().failures() + other.spec_errors().failures() <= usize::MAX,
        ensures
            final(self).wf(),
            old(self).merged(&other, final(self)),
            final(self).counts() == merge_counts(old(self).counts(), other.counts()),
            old(self).spec_errors().combined(other.spec_errors(), final(self).spec_errors()),
            final(self).spec_errors().failures() == old(self).spec_errors().failures()
                + other.spec_errors().failures(),
    {
        let Summary { type_counts, errors } = other;
        proof {
            lemma_merge_empty(self.counts());
            lemma_counts_dom(self.type_counts@);
        }
        let ghost mine = self.counts();
        let mut at: usize = 0;
        while at < type_counts.len()
            invariant
                self.wf(),
                self.errors == old(self).errors,
                mine == old(self).counts(),
                mine.dom().finite(),
                distinct_names(type_counts@),
                total_of(mine) + total_of(counts_of(type_counts@)) <= usize::MAX,
                at <= type_counts@.len(),
                self.counts() == merge_counts(mine, counts_of(type_counts@.take(at as int))),
            decreases type_counts@.len() - at,
        {
            proof {
                lemma_counts_step(type_counts@, at as int);
                lemma_counts_prefix(type_counts@, at + 1);
                lemma_total_merge(mine, counts_of(type_counts@.take(at as int)));
                lemma_merge_add(
                    mine,
                    counts_of(type_counts@.take(at as int)),
                    type_counts@[at as int].name@,
                    type_counts@[at as int].bytes as nat,
                );
            }
            self.add(type_counts[at].name.as_slice(), type_counts[at].bytes);
            at += 1;
        }
        assert(type_counts@.take(at as int) =~= type_counts@);
        self.errors.combine(errors);
    }

    /// Counts the bytes of one parsed record for its type.
    pub fn accumulate(&mut self, metadata: &LogLineMetadata<'_>)
        requires
            old(self).wf(),
            old(self).total() + metadata.bytes <= usize::MAX,
        ensures
            final(self).wf(),
            final(self).counts() == add_count(
                old(self).counts(),
                metadata.name@,
                metadata.bytes as nat,
            ),
            final(self).spec_errors() == old(self).spec_errors(),
    {
        self.add(metadata.name, metadata.bytes);
    }
}

} // verus!
