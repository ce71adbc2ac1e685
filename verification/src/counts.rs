//! The sums of bytes per type name as a map, and what holds of adding to
//! such a map and of merging two of them.

use vstd::prelude::*;

verus! {

/// Type names with the bytes counted for each.
pub type Counts = Map<Seq<u8>, nat>;

/// The bytes counted for `name`: none where the name is not in the map.
pub open spec fn count_of(counts: Counts, name: Seq<u8>) -> nat {
    if counts.dom().contains(name) {
        counts[name]
    } else {
        0
    }
}

/// The map after `bytes` more were counted for `name`.
pub open spec fn add_count(counts: Counts, name: Seq<u8>, bytes: nat) -> Counts {
    counts.insert(name, count_of(counts, name) + bytes)
}

/// The key-wise sum of two maps.
pub open spec fn merge_counts(a: Counts, b: Counts) -> Counts {
    Map::new(
        |name: Seq<u8>| a.dom().contains(name) || b.dom().contains(name),
        |name: Seq<u8>| count_of(a, name) + count_of(b, name),
    )
}

/// The sum of all values of a finite map.
pub open spec fn total_of(counts: Counts) -> nat
    decreases counts.dom().len(),
    when counts.dom().finite()
{
    if counts.dom().len() == 0 {
        0
    } else {
        let name = counts.dom().choose();
        counts[name] + total_of(counts.remove(name))
    }
}

/// The total is the value of any one key plus the total of the others.
pub proof fn lemma_total_remove(counts: Counts, name: Seq<u8>)
    requires
        counts.dom().finite(),
        counts.dom().contains(name),
    ensures
        total_of(counts) == counts[name] + total_of(counts.remove(name)),
    decreases counts.dom().len(),
{
    let chosen = counts.dom().choose();
    if chosen != name {
        lemma_total_remove(counts.remove(chosen), name);
        lemma_total_remove(counts.remove(name), chosen);
        assert(counts.remove(chosen).remove(name) =~= counts.remove(name).remove(chosen));
    }
}

/// Setting the value of a key changes the total by the difference.
pub proof fn lemma_total_insert(counts: Counts, name: Seq<u8>, bytes: nat)
    requires
        counts.dom().finite(),
    ensures
        total_of(counts.insert(name, bytes)) + count_of(counts, name) == total_of(counts) + bytes,
{
    let after = counts.insert(name, bytes);
    lemma_total_remove(after, name);
    if counts.dom().contains(name) {
        lemma_total_remove(counts, name);
        assert(after.remove(name) =~= counts.remove(name));
    } else {
        assert(after.remove(name) =~= counts);
    }
}

/// Counting `bytes` more raises the total by `bytes`.
pub proof fn lemma_total_add(counts: Counts, name: Seq<u8>, bytes: nat)
    requires
        counts.dom().finite(),
    ensures
        add_count(counts, name, bytes).dom().finite(),
        total_of(add_count(counts, name, bytes)) == total_of(counts) + bytes,
{
    lemma_total_insert(counts, name, count_of(counts, name) + bytes);
}

/// No key counts for more than the total.
pub proof fn lemma_count_le_total(counts: Counts, name: Seq<u8>)
    requires
        counts.dom().finite(),
    ensures
        count_of(counts, name) <= total_of(counts),
{
    if counts.dom().contains(name) {
        lemma_total_remove(counts, name);
    }
}

/// Merging with the empty map changes nothing.
pub proof fn lemma_merge_empty(a: Counts)
    ensures
        merge_counts(a, Map::empty()) == a,
        merge_counts(Map::empty(), a) == a,
{
    assert(merge_counts(a, Map::empty()) =~= a);
    assert(merge_counts(Map::empty(), a) =~= a);
}

/// The order of the two maps does not matter to their merge.
pub proof fn lemma_merge_commutative(a: Counts, b: Counts)
    ensures
        merge_counts(a, b) == merge_counts(b, a),
{
    assert(merge_counts(a, b) =~= merge_counts(b, a));
}

/// Nor does it matter which two of three maps are merged first.
pub proof fn lemma_merge_associative(a: Counts, b: Counts, c: Counts)
    ensures
        merge_counts(merge_counts(a, b), c) == merge_counts(a, merge_counts(b, c)),
{
    assert(merge_counts(merge_counts(a, b), c) =~= merge_counts(a, merge_counts(b, c)));
}

/// Merging a map in which one more key was counted is counting that key
/// after the merge.
pub proof fn lemma_merge_add(a: Counts, b: Counts, name: Seq<u8>, bytes: nat)
    ensures
        merge_counts(a, add_count(b, name, bytes)) == add_count(merge_counts(a, b), name, bytes),
{
    assert(merge_counts(a, add_count(b, name, bytes)) =~= add_count(
        merge_counts(a, b),
        name,
        bytes,
    ));
}

/// The merge of two finite maps is finite, and its total is the sum of
/// their totals.
pub proof fn lemma_total_merge(a: Counts, b: Counts)
    requires
        a.dom().finite(),
        b.dom().finite(),
    ensures
        merge_counts(a, b).dom().finite(),
        total_of(merge_counts(a, b)) == total_of(a) + total_of(b),
    decreases b.dom().len(),
{
    if b.dom().len() == 0 {
        assert(b =~= Map::empty());
        lemma_merge_empty(a);
    } else {
        let name = b.dom().choose();
        let rest = b.remove(name);
        lemma_total_merge(a, rest);
        lemma_total_remove(b, name);
        assert(add_count(rest, name, b[name]) =~= b);
        lemma_merge_add(a, rest, name, b[name]);
        lemma_total_add(merge_counts(a, rest), name, b[name]);
    }
}

} // verus!
