//! The grouping of a dataset and the sequential reference aggregator.

use vstd::prelude::*;
use fnv::FnvHashMap;

verus! {

/// `fnv::FnvHasher`, the hasher state behind the counting table. Opaque here.
#[verifier::external_type_specification]
#[verifier::external_body]
pub struct ExFnvHasher(fnv::FnvHasher);

/// `std::hash::BuildHasherDefault`, the hasher factory behind the counting
/// table. Opaque here.
#[verifier::external_type_specification]
#[verifier::external_body]
#[verifier::reject_recursive_types(H)]
pub struct ExBuildHasherDefault<H>(std::hash::BuildHasherDefault<H>);

/// A grouping: one `(key, count)` entry per group, in no particular order.
///
/// A grouping that describes a dataset has pairwise distinct keys
/// (`distinct_keys`); a grouping decoded from an engine's output is held as it
/// came, so that a faulty output still reaches the comparison.
#[derive(Clone, Debug)]
pub struct GroupingResult {
    pub entries: Vec<(i32, u64)>,
}

impl GroupingResult {
    /// The grouping as a mapping from key to count.
    pub open spec fn mapping(&self) -> Map<i32, u64> {
        as_map(self@)
    }
}

impl View for GroupingResult {
    type V = Seq<(i32, u64)>;

    open spec fn view(&self) -> Seq<(i32, u64)> {
        self.entries@
    }
}

/// How many elements of `keys` equal `key`.
pub open spec fn occurrences(keys: Seq<i32>, key: i32) -> nat
    decreases keys.len(),
{
    if keys.len() == 0 {
        0
    } else {
        occurrences(keys.drop_last(), key) + if keys.last() == key {
            1nat
        } else {
            0nat
        }
    }
}

/// The sum of the counts of `entries`.
pub open spec fn total_count(entries: Seq<(i32, u64)>) -> nat
    decreases entries.len(),
{
    if entries.len() == 0 {
        0
    } else {
        total_count(entries.drop_last()) + entries.last().1 as nat
    }
}

/// Whether no key stands in two entries.
pub open spec fn distinct_keys(entries: Seq<(i32, u64)>) -> bool {
    forall|i: int, j: int|
        0 <= i < j < entries.len() ==> (#[trigger] entries[i]).0 != (#[trigger] entries[j]).0
}

/// Whether some entry carries `key`.
pub open spec fn has_key(entries: Seq<(i32, u64)>, key: i32) -> bool {
    exists|i: int| 0 <= i < entries.len() && (#[trigger] entries[i]).0 == key
}

/// The position of an entry that carries `key`, where there is one.
pub open spec fn index_of_key(entries: Seq<(i32, u64)>, key: i32) -> int {
    choose|i: int| 0 <= i < entries.len() && (#[trigger] entries[i]).0 == key
}

/// The mapping that entries with distinct keys stand for: each key that has
/// an entry, to the count of that entry.
pub open spec fn as_map(entries: Seq<(i32, u64)>) -> Map<i32, u64> {
    Map::new(
        |key: i32| has_key(entries, key),
        |key: i32| entries[index_of_key(entries, key)].1,
    )
}

/// The grouping of `keys` as a mapping: each element of `keys` to the number
/// of its occurrences.
pub open spec fn grouping_map(keys: Seq<i32>) -> Map<i32, u64> {
    Map::new(|key: i32| keys.contains(key), |key: i32| occurrences(keys, key) as u64)
}

/// Whether each entry's count is the number of occurrences of its key in
/// `keys`, no key stands twice, and every element of `keys` has an entry.
pub open spec fn counts_match(entries: Seq<(i32, u64)>, keys: Seq<i32>) -> bool {
    &&& distinct_keys(entries)
    &&& forall|i: int|
        0 <= i < entries.len() ==> (#[trigger] entries[i]).1 == occurrences(keys, entries[i].0)
    &&& forall|j: int| 0 <= j < keys.len() ==> has_key(entries, #[trigger] keys[j])
}

/// Whether `entries` is the grouping of `keys`: exactly one entry for each
/// distinct element of `keys`, carrying the number of its occurrences.
pub open spec fn is_grouping_of(entries: Seq<(i32, u64)>, keys: Seq<i32>) -> bool {
    &&& counts_match(entries, keys)
    &&& forall|i: int| 0 <= i < entries.len() ==> keys.contains((#[trigger] entries[i]).0)
}

/// Among entries with distinct keys, each entry is what the mapping holds
/// under its key.
pub proof fn lemma_entry_in_map(entries: Seq<(i32, u64)>, at: int)
    requires
        distinct_keys(entries),
        0 <= at < entries.len(),
    ensures
        as_map(entries).contains_key(entries[at].0),
        as_map(entries)[entries[at].0] == entries[at].1,
        index_of_key(entries, entries[at].0) == at,
{
    let key = entries[at].0;
    assert(has_key(entries, key));
    let found = index_of_key(entries, key);
    if found < at {
        assert(entries[found].0 != entries[at].0);
    } else if at < found {
        assert(entries[at].0 != entries[found].0);
    }
}

/// A key occurs at most as often as the sequence is long, and at least once
/// exactly when the sequence contains it.
pub proof fn lemma_occurrences(keys: Seq<i32>, key: i32)
    ensures
        occurrences(keys, key) <= keys.len(),
        occurrences(keys, key) > 0 <==> keys.contains(key),
    decreases keys.len(),
{
    if keys.len() > 0 {
        let front = keys.drop_last();
        lemma_occurrences(front, key);
        if front.contains(key) {
            let i = choose|i: int| 0 <= i < front.len() && front[i] == key;
            assert(keys[i] == key);
        }
        if keys.contains(key) && keys.last() != key {
            let i = choose|i: int| 0 <= i < keys.len() && keys[i] == key;
            assert(front[i] == key);
        }
        if keys.last() == key {
            assert(keys[keys.len() - 1] == key);
        }
    }
}

/// Replacing one entry changes the total by the difference of the two counts.
pub proof fn lemma_total_count_update(entries: Seq<(i32, u64)>, at: int, entry: (i32, u64))
    requires
        0 <= at < entries.len(),
    ensures
        total_count(entries.update(at, entry)) + entries[at].1 == total_count(entries) + entry.1,
    decreases entries.len(),
{
    let changed = entries.update(at, entry);
    if at == entries.len() - 1 {
        assert(changed.drop_last() =~= entries.drop_last());
    } else {
        lemma_total_count_update(entries.drop_last(), at, entry);
        assert(changed.drop_last() =~= entries.drop_last().update(at, entry));
    }
}

/// Entries whose counts are all zero sum to zero.
pub proof fn lemma_total_count_zero(entries: Seq<(i32, u64)>)
    requires
        forall|i: int| 0 <= i < entries.len() ==> (#[trigger] entries[i]).1 == 0,
    ensures
        total_count(entries) == 0,
    decreases entries.len(),
{
    if entries.len() > 0 {
        lemma_total_count_zero(entries.drop_last());
    }
}

/// Counts that match a sequence of keys sum to the length of that sequence.
pub proof fn lemma_counts_sum_to_length(entries: Seq<(i32, u64)>, keys: Seq<i32>)
    requires
        counts_match(entries, keys),
    ensures
        total_count(entries) == keys.len(),
    decreases keys.len(),
{
    if keys.len() == 0 {
        lemma_total_count_zero(entries);
    } else {
        let front = keys.drop_last();
        let key = keys.last();
        assert(has_key(entries, keys[keys.len() - 1]));
        let at = choose|i: int| 0 <= i < entries.len() && (#[trigger] entries[i]).0 == key;
        let count = entries[at].1;
        assert(count == occurrences(front, key) + 1);
        let fewer: (i32, u64) = (key, (count - 1) as u64);
        let rest = entries.update(at, fewer);
        assert forall|j: int| 0 <= j < front.len() implies has_key(rest, #[trigger] front[j]) by {
            assert(has_key(entries, keys[j]));
            let i = choose|i: int| 0 <= i < entries.len() && (#[trigger] entries[i]).0 == keys[j];
            assert(rest[i].0 == front[j]);
        }
        assert forall|i: int| 0 <= i < rest.len() implies
            (#[trigger] rest[i]).1 == occurrences(front, rest[i].0) by {
            if i != at {
                assert(entries[i].0 != entries[at].0);
            }
        }
        assert forall|i: int, j: int| 0 <= i < j < rest.len() implies
            (#[trigger] rest[i]).0 != (#[trigger] rest[j]).0 by {
            assert(entries[i].0 != entries[j].0);
        }
        lemma_counts_sum_to_length(rest, front);
        lemma_total_count_update(entries, at, fewer);
    }
}

/// The grouping of a dataset stands for the mapping from each element of the
/// dataset to the number of its occurrences.
pub proof fn lemma_grouping_map(entries: Seq<(i32, u64)>, keys: Seq<i32>)
    requires
        is_grouping_of(entries, keys),
    ensures
        as_map(entries) == grouping_map(keys),
{
    assert forall|key: i32| has_key(entries, key) <==> keys.contains(key) by {
        if has_key(entries, key) {
            let i = index_of_key(entries, key);
            assert(keys.contains(entries[i].0));
        }
        if keys.contains(key) {
            let j = choose|j: int| 0 <= j < keys.len() && keys[j] == key;
            assert(has_key(entries, keys[j]));
        }
    }
    assert forall|key: i32| has_key(entries, key) implies
        #[trigger] as_map(entries)[key] == occurrences(keys, key) as u64 by {
        let i = index_of_key(entries, key);
        assert(entries[i].1 == occurrences(keys, entries[i].0));
    }
    assert(as_map(entries) =~= grouping_map(keys));
}

/// An empty counting table, made with `FnvHashMap::default()`.
#[verifier::external_body]
fn empty_table() -> (table: FnvHashMap<i32, u64>)
    ensures
        forall|key: i32| !(#[trigger] table@.contains_key(key)),
{
    FnvHashMap::default()
}

/// Reads the count stored under `key` with `HashMap::get`: the stored value
/// when the table holds the key, nothing otherwise.
#[verifier::external_body]
fn lookup(table: &FnvHashMap<i32, u64>, key: i32) -> (count: Option<u64>)
    ensures
        count == (if table@.contains_key(key) {
            Some(table@[key])
        } else {
            None::<u64>
        }),
{
    table.get(&key).copied()
}

/// Stores `count` under `key` with `HashMap::insert`: afterwards the table
/// maps `key` to `count` and every other key as before.
#[verifier::external_body]
fn store(table: &mut FnvHashMap<i32, u64>, key: i32, count: u64)
    ensures
        final(table)@ == old(table)@.insert(key, count),
{
    table.insert(key, count);
}

/// Hands out what the table holds by walking `HashMap::iter`: every key of
/// the table once, each with its value. The order of the walk is left open.
#[verifier::external_body]
fn table_entries(table: &FnvHashMap<i32, u64>) -> (entries: Vec<(i32, u64)>)
    ensures
        distinct_keys(entries@),
        forall|i: int|
            0 <= i < entries@.len() ==> table@.contains_key((#[trigger] entries@[i]).0)
                && table@[entries@[i].0] == entries@[i].1,
        forall|key: i32| #[trigger] table@.contains_key(key) ==> has_key(entries@, key),
{
    table.iter().map(|(key, count)| (*key, *count)).collect()
}

/// Groups `dataset` in one pass: for each element, the count under its key is
/// incremented, or set to one where the key is new.
///
/// The result is the grouping of the dataset: one entry for each distinct
/// element, with the number of its occurrences. The entries come in no
/// particular order. Their counts sum to the length of the dataset, and an
/// empty dataset has an empty grouping.
pub fn aggregate(dataset: &Vec<i32>) -> (result: GroupingResult)
    ensures
        is_grouping_of(result@, dataset@),
        result.mapping() == grouping_map(dataset@),
        total_count(result@) == dataset@.len(),
        dataset@.len() == 0 ==> result@.len() == 0,
{
    let mut table = empty_table();
    let mut done: usize = 0;
    while done < dataset.len()
        invariant
            done <= dataset.len(),
            forall|key: i32| #[trigger]
                table@.contains_key(key) <==> occurrences(dataset@.take(done as int), key) > 0,
            forall|key: i32| #[trigger]
                table@.contains_key(key) ==> table@[key] == occurrences(
                    dataset@.take(done as int),
                    key,
                ),
        decreases dataset.len() - done,
    {
        let key: i32 = dataset[done];
        let seen: u64 = match lookup(&table, key) {
            Some(count) => count,
            None => 0,
        };
        proof {
            lemma_occurrences(dataset@.take(done as int), key);
            assert(dataset@.take(done as int + 1).drop_last() =~= dataset@.take(done as int));
        }
        store(&mut table, key, seen + 1);
        done = done + 1;
    }
    let entries = table_entries(&table);
    proof {
        assert(dataset@.take(done as int) =~= dataset@);
        assert forall|i: int| 0 <= i < entries@.len() implies
            dataset@.contains((#[trigger] entries@[i]).0) by {
            lemma_occurrences(dataset@, entries@[i].0);
        }
        assert forall|j: int| 0 <= j < dataset@.len() implies
            has_key(entries@, #[trigger] dataset@[j]) by {
            lemma_occurrences(dataset@, dataset@[j]);
            assert(dataset@.contains(dataset@[j]));
            assert(table@.contains_key(dataset@[j]));
        }
        lemma_counts_sum_to_length(entries@, dataset@);
        lemma_grouping_map(entries@, dataset@);
        if dataset@.len() == 0 && entries@.len() > 0 {
            assert(dataset@.contains(entries@[0].0));
        }
    }
    GroupingResult { entries }
}

} // verus!
