//! What holds of the aggregator and the comparison together.

use vstd::prelude::*;
use vstd::relations::sorted_by;
use crate::compare::canonical;
use crate::compare::entry_leq;
use crate::compare::entry_order;
use crate::compare::is_first_difference;
use crate::compare::lemma_canonical;
use crate::compare::lemma_canonical_unique;
use crate::dataset::keys_in_range;
use crate::grouping::as_map;
use crate::grouping::distinct_keys;
use crate::grouping::index_of_key;
use crate::grouping::lemma_entry_in_map;
use crate::grouping::has_key;
use crate::grouping::is_grouping_of;
use crate::grouping::occurrences;

verus! {

/// Two groupings have the same canonical form, so that their comparison is
/// `Equal`, exactly when they hold the same entries, each as often,
/// whatever the order in which they hold them.
pub proof fn law_equal_iff_same_entries(a: Seq<(i32, u64)>, b: Seq<(i32, u64)>)
    ensures
        canonical(a) == canonical(b) <==> a.to_multiset() == b.to_multiset(),
{
    lemma_canonical(a);
    lemma_canonical(b);
    if a.to_multiset() == b.to_multiset() {
        lemma_canonical_unique(b, canonical(a));
    }
}

/// Entries with pairwise distinct keys are pairwise distinct.
pub proof fn lemma_distinct_keys_no_duplicates(entries: Seq<(i32, u64)>)
    requires
        distinct_keys(entries),
    ensures
        entries.no_duplicates(),
{
    assert forall|i: int, j: int|
        0 <= i < entries.len() && 0 <= j < entries.len() && i != j implies entries[i]
        != entries[j] by {
        if i < j {
            assert(entries[i].0 != entries[j].0);
        } else {
            assert(entries[j].0 != entries[i].0);
        }
    }
}

/// Two sequences without duplicates that contain the same entries hold each
/// entry as often as the other.
pub proof fn lemma_same_entries(a: Seq<(i32, u64)>, b: Seq<(i32, u64)>)
    requires
        a.no_duplicates(),
        b.no_duplicates(),
        forall|entry: (i32, u64)| a.contains(entry) <==> b.contains(entry),
    ensures
        a.to_multiset() == b.to_multiset(),
{
    broadcast use vstd::seq_lib::to_multiset_contains;

    a.lemma_multiset_has_no_duplicates();
    b.lemma_multiset_has_no_duplicates();
    assert forall|entry: (i32, u64)|
        a.to_multiset().count(entry) == b.to_multiset().count(entry) by {
        assert(a.contains(entry) <==> b.contains(entry));
    }
    assert(a.to_multiset() =~= b.to_multiset());
}

/// Among entries with distinct keys, every entry of `a` stands in `b` where
/// the two stand for the same mapping.
pub proof fn lemma_mapping_entries_shared(
    a: Seq<(i32, u64)>,
    b: Seq<(i32, u64)>,
    entry: (i32, u64),
)
    requires
        distinct_keys(a),
        distinct_keys(b),
        as_map(a) == as_map(b),
        a.contains(entry),
    ensures
        b.contains(entry),
{
    let i = choose|i: int| 0 <= i < a.len() && a[i] == entry;
    lemma_entry_in_map(a, i);
    assert(as_map(b).contains_key(entry.0));
    assert(has_key(b, entry.0));
    let j = index_of_key(b, entry.0);
    lemma_entry_in_map(b, j);
    assert(b[j] == entry);
}

/// Among entries with distinct keys, `a` and `b` stand for the same mapping
/// where they hold the same entries.
pub proof fn lemma_shared_entries_mapping(a: Seq<(i32, u64)>, b: Seq<(i32, u64)>)
    requires
        distinct_keys(a),
        distinct_keys(b),
        a.to_multiset() == b.to_multiset(),
    ensures
        as_map(a) == as_map(b),
{
    broadcast use vstd::seq_lib::to_multiset_contains;

    assert forall|key: i32| has_key(a, key) implies
        has_key(b, key) && as_map(a)[key] == as_map(b)[key] by {
        let i = index_of_key(a, key);
        lemma_entry_in_map(a, i);
        assert(a.contains(a[i]));
        assert(b.to_multiset().count(a[i]) > 0);
        let j = choose|j: int| 0 <= j < b.len() && b[j] == a[i];
        lemma_entry_in_map(b, j);
    }
    assert forall|key: i32| has_key(b, key) implies has_key(a, key) by {
        let j = index_of_key(b, key);
        assert(b.contains(b[j]));
        assert(a.to_multiset().count(b[j]) > 0);
        let i = choose|i: int| 0 <= i < a.len() && a[i] == b[j];
        assert(a[i].0 == key);
    }
    assert(as_map(a) =~= as_map(b));
}

/// Two groupings with distinct keys have the same canonical form, so that
/// their comparison is `Equal`, exactly when they stand for the same mapping:
/// the same keys, each with the same count.
pub proof fn law_equal_iff_same_mapping(a: Seq<(i32, u64)>, b: Seq<(i32, u64)>)
    requires
        distinct_keys(a),
        distinct_keys(b),
    ensures
        canonical(a) == canonical(b) <==> as_map(a) == as_map(b),
{
    law_equal_iff_same_entries(a, b);
    if a.to_multiset() == b.to_multiset() {
        lemma_shared_entries_mapping(a, b);
    }
    if as_map(a) == as_map(b) {
        lemma_distinct_keys_no_duplicates(a);
        lemma_distinct_keys_no_duplicates(b);
        assert forall|entry: (i32, u64)| a.contains(entry) <==> b.contains(entry) by {
            if a.contains(entry) {
                lemma_mapping_entries_shared(a, b, entry);
            }
            if b.contains(entry) {
                lemma_mapping_entries_shared(b, a, entry);
            }
        }
        lemma_same_entries(a, b);
    }
}

/// Changing the count of one entry of a grouping with distinct keys changes
/// its canonical form: the comparison with the unchanged grouping is a
/// `Mismatch`.
pub proof fn law_changed_count_is_mismatch(entries: Seq<(i32, u64)>, at: int, count: u64)
    requires
        distinct_keys(entries),
        0 <= at < entries.len(),
        count != entries[at].1,
    ensures
        canonical(entries.update(at, (entries[at].0, count))) != canonical(entries),
{
    let changed = entries.update(at, (entries[at].0, count));
    assert forall|i: int, j: int| 0 <= i < j < changed.len() implies
        (#[trigger] changed[i]).0 != (#[trigger] changed[j]).0 by {
        assert(entries[i].0 != entries[j].0);
    }
    lemma_entry_in_map(entries, at);
    lemma_entry_in_map(changed, at);
    law_equal_iff_same_mapping(changed, entries);
}

/// The canonical form of entries with distinct keys has distinct keys, in
/// strictly ascending order.
pub proof fn lemma_canonical_keys_ascend(entries: Seq<(i32, u64)>)
    requires
        distinct_keys(entries),
    ensures
        forall|i: int, j: int|
            0 <= i < j < entries.len()
                ==> (#[trigger] canonical(entries)[i]).0 < (#[trigger] canonical(entries)[j]).0,
{
    broadcast use vstd::seq_lib::to_multiset_contains;

    let sorted = canonical(entries);
    lemma_canonical(entries);
    lemma_distinct_keys_no_duplicates(entries);
    entries.lemma_multiset_has_no_duplicates();
    sorted.lemma_multiset_has_no_duplicates_conv();
    assert forall|i: int, j: int| 0 <= i < j < entries.len() implies
        (#[trigger] sorted[i]).0 < (#[trigger] sorted[j]).0 by {
        assert(entry_order()(sorted[i], sorted[j]));
        assert(entry_leq(sorted[i], sorted[j]));
        assert(sorted[i] != sorted[j]);
        assert(sorted.contains(sorted[i]));
        assert(sorted.contains(sorted[j]));
        assert(entries.to_multiset().count(sorted[i]) > 0);
        assert(entries.to_multiset().count(sorted[j]) > 0);
        let p = choose|p: int| 0 <= p < entries.len() && entries[p] == sorted[i];
        let q = choose|q: int| 0 <= q < entries.len() && entries[q] == sorted[j];
        if p < q {
            assert(entries[p].0 != entries[q].0);
        } else if q < p {
            assert(entries[q].0 != entries[p].0);
        }
    }
}

/// Where the count of one entry of a grouping with distinct keys is changed,
/// the comparison with the unchanged grouping reports the position of that
/// entry's key: the two canonical forms first differ where they hold the
/// changed entry and the entry as it was.
pub proof fn law_changed_count_found_at_key(
    entries: Seq<(i32, u64)>,
    at: int,
    count: u64,
    index: int,
)
    requires
        distinct_keys(entries),
        0 <= at < entries.len(),
        count != entries[at].1,
        is_first_difference(
            canonical(entries.update(at, (entries[at].0, count))),
            canonical(entries),
            index,
        ),
    ensures
        0 <= index < entries.len(),
        canonical(entries)[index] == entries[at],
        canonical(entries.update(at, (entries[at].0, count)))[index] == (entries[at].0, count),
{
    broadcast use vstd::seq_lib::to_multiset_contains;
    broadcast use vstd::seq_lib::to_multiset_update;

    let fresh: (i32, u64) = (entries[at].0, count);
    let changed = entries.update(at, fresh);
    let sorted = canonical(entries);
    lemma_canonical(entries);
    lemma_canonical_keys_ascend(entries);
    assert(entries.contains(entries[at]));
    assert(sorted.to_multiset().count(entries[at]) > 0);
    let place = choose|p: int| 0 <= p < sorted.len() && sorted[p] == entries[at];
    let moved = sorted.update(place, fresh);
    assert(sorted_by(moved, entry_order())) by {
        assert forall|i: int, j: int| 0 <= i < j < moved.len() implies
            #[trigger] entry_order()(moved[i], moved[j]) by {
            assert(sorted[i].0 < sorted[j].0);
            assert(entry_leq(moved[i], moved[j]));
        }
    }
    assert(moved.to_multiset() == changed.to_multiset());
    lemma_canonical_unique(changed, moved);
    assert(moved[place] != sorted[place]);
    if index < place {
        assert(moved[index] == sorted[index]);
    } else if index > place {
        assert(moved[place] == sorted[place]);
    }
}

/// Every entry of one grouping of `keys` stands in every other grouping of `keys`.
pub proof fn lemma_grouping_entries_shared(
    a: Seq<(i32, u64)>,
    b: Seq<(i32, u64)>,
    keys: Seq<i32>,
    entry: (i32, u64),
)
    requires
        is_grouping_of(a, keys),
        is_grouping_of(b, keys),
        a.contains(entry),
    ensures
        b.contains(entry),
{
    let i = choose|i: int| 0 <= i < a.len() && a[i] == entry;
    assert(keys.contains(a[i].0));
    let j = choose|j: int| 0 <= j < keys.len() && keys[j] == entry.0;
    assert(has_key(b, keys[j]));
    let k = choose|k: int| 0 <= k < b.len() && (#[trigger] b[k]).0 == entry.0;
    assert(b[k] == entry);
}

/// Any two groupings of one dataset have the same canonical form: their
/// comparison is `Equal`. This holds of two runs of the reference aggregator
/// on one dataset, and of the reference grouping and the output of an engine
/// that grouped the dataset correctly.
pub proof fn law_groupings_of_one_dataset_agree(
    a: Seq<(i32, u64)>,
    b: Seq<(i32, u64)>,
    keys: Seq<i32>,
)
    requires
        is_grouping_of(a, keys),
        is_grouping_of(b, keys),
    ensures
        canonical(a) == canonical(b),
{
    lemma_distinct_keys_no_duplicates(a);
    lemma_distinct_keys_no_duplicates(b);
    assert forall|entry: (i32, u64)| a.contains(entry) <==> b.contains(entry) by {
        if a.contains(entry) {
            lemma_grouping_entries_shared(a, b, keys, entry);
        }
        if b.contains(entry) {
            lemma_grouping_entries_shared(b, a, keys, entry);
        }
    }
    lemma_same_entries(a, b);
    law_equal_iff_same_entries(a, b);
}

/// The keys of the grouping of a dataset are exactly the keys that the
/// dataset holds; where the dataset was drawn from `[0, group_count)`, they
/// are the keys of that range that were drawn.
pub proof fn law_grouping_keys(entries: Seq<(i32, u64)>, keys: Seq<i32>, group_count: int)
    requires
        is_grouping_of(entries, keys),
        keys_in_range(keys, group_count),
    ensures
        forall|key: i32|
            has_key(entries, key) <==> 0 <= key < group_count && #[trigger] keys.contains(key),
{
    assert forall|key: i32|
        has_key(entries, key) <==> 0 <= key < group_count && #[trigger] keys.contains(key) by {
        if has_key(entries, key) {
            let i = choose|i: int| 0 <= i < entries.len() && (#[trigger] entries[i]).0 == key;
            assert(keys.contains(entries[i].0));
        }
        if keys.contains(key) {
            let j = choose|j: int| 0 <= j < keys.len() && keys[j] == key;
            assert(has_key(entries, keys[j]));
        }
    }
}

/// A sequence that holds one key only holds it as often as it is long.
pub proof fn lemma_occurrences_of_only_key(keys: Seq<i32>, key: i32)
    requires
        forall|i: int| 0 <= i < keys.len() ==> keys[i] == key,
    ensures
        occurrences(keys, key) == keys.len(),
    decreases keys.len(),
{
    if keys.len() > 0 {
        lemma_occurrences_of_only_key(keys.drop_last(), key);
    }
}

/// The grouping of a dataset that is not empty and was drawn from a single
/// group has exactly one entry: key zero, with the length of the dataset.
pub proof fn law_single_group(entries: Seq<(i32, u64)>, keys: Seq<i32>)
    requires
        is_grouping_of(entries, keys),
        keys_in_range(keys, 1),
        keys.len() > 0,
    ensures
        entries.len() == 1,
        entries[0].0 == 0,
        entries[0].1 == keys.len(),
{
    assert(has_key(entries, keys[0]));
    assert forall|i: int| 0 <= i < entries.len() implies (#[trigger] entries[i]).0 == 0 by {
        assert(keys.contains(entries[i].0));
    }
    if entries.len() > 1 {
        assert(entries[0].0 != entries[1].0);
    }
    lemma_occurrences_of_only_key(keys, 0);
}

/// The grouping of an empty dataset is empty.
pub proof fn law_empty_dataset_has_empty_grouping(entries: Seq<(i32, u64)>, keys: Seq<i32>)
    requires
        keys.len() == 0,
        is_grouping_of(entries, keys),
    ensures
        entries.len() == 0,
{
    if entries.len() > 0 {
        assert(keys.contains(entries[0].0));
    }
}

/// Two empty groupings have the same canonical form, which is empty: their
/// comparison is `Equal`.
pub proof fn law_empty_groupings_agree(a: Seq<(i32, u64)>, b: Seq<(i32, u64)>)
    requires
        a.len() == 0,
        b.len() == 0,
    ensures
        canonical(a) == canonical(b),
        canonical(a).len() == 0,
{
    assert(a =~= b);
    lemma_canonical(a);
}

} // verus!
