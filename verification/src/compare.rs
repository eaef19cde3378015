//! The order-independent comparison of two groupings.

use vstd::prelude::*;
use vstd::relations::sorted_by;
use vstd::relations::total_ordering;
use vstd::seq_lib::lemma_sorted_unique;
use crate::grouping::GroupingResult;

verus! {

/// The order of entries: by key, then by count.
pub open spec fn entry_leq(a: (i32, u64), b: (i32, u64)) -> bool {
    a.0 < b.0 || (a.0 == b.0 && a.1 <= b.1)
}

/// `entry_leq` as a relation.
pub open spec fn entry_order() -> spec_fn((i32, u64), (i32, u64)) -> bool {
    |a: (i32, u64), b: (i32, u64)| entry_leq(a, b)
}

/// The canonical form of a grouping: its entries in ascending order.
pub open spec fn canonical(entries: Seq<(i32, u64)>) -> Seq<(i32, u64)> {
    entries.sort_by(entry_order())
}

/// Whether `index` is the first position at which `a` and `b` differ: they
/// agree before it, and at it they hold different entries or one of them ends.
pub open spec fn is_first_difference(a: Seq<(i32, u64)>, b: Seq<(i32, u64)>, index: int) -> bool {
    &&& 0 <= index <= a.len()
    &&& index <= b.len()
    &&& forall|i: int| 0 <= i < index ==> a[i] == b[i]
    &&& if index < a.len() && index < b.len() {
        a[index] != b[index]
    } else {
        a.len() != b.len()
    }
}

/// What a comparison found.
#[derive(Clone, Copy, Debug, PartialEq, Eq, Structural)]
pub enum ComparisonOutcome {
    /// The canonical forms are identical.
    Equal,
    /// The canonical forms differ, first at `index`.
    Mismatch { index: usize },
}

/// The order of entries is total.
pub proof fn lemma_entry_order_total()
    ensures
        total_ordering(entry_order()),
{
    let order = entry_order();
    assert forall|x: (i32, u64), y: (i32, u64)| #[trigger] order(x, y) && #[trigger] order(y, x) implies x == y by {
        assert(x.0 == y.0 && x.1 == y.1);
    }
}

/// The canonical form is sorted and holds the same entries, each as often.
pub proof fn lemma_canonical(entries: Seq<(i32, u64)>)
    ensures
        sorted_by(canonical(entries), entry_order()),
        canonical(entries).to_multiset() == entries.to_multiset(),
        canonical(entries).len() == entries.len(),
{
    lemma_entry_order_total();
    entries.lemma_sort_by_ensures(entry_order());
    entries.to_multiset_ensures();
    canonical(entries).to_multiset_ensures();
}

/// A sorted sequence with the entries of `entries` is its canonical form.
pub proof fn lemma_canonical_unique(entries: Seq<(i32, u64)>, sorted: Seq<(i32, u64)>)
    requires
        sorted_by(sorted, entry_order()),
        sorted.to_multiset() == entries.to_multiset(),
    ensures
        sorted == canonical(entries),
{
    lemma_entry_order_total();
    lemma_canonical(entries);
    lemma_sorted_unique(sorted, canonical(entries), entry_order());
}

/// Sorts the entries in place with the slice method `sort`, which orders
/// tuples by their first field and then by their second: afterwards the
/// vector is in ascending order and holds the same entries, each as often as
/// before.
#[verifier::external_body]
fn sort_entries(entries: &mut Vec<(i32, u64)>)
    ensures
        sorted_by(final(entries)@, entry_order()),
        final(entries)@.to_multiset() == old(entries)@.to_multiset(),
{
    entries.sort();
}

/// The entries of `grouping` in canonical form: sorted by key ascending.
pub fn canonicalize(grouping: &GroupingResult) -> (sorted: Vec<(i32, u64)>)
    ensures
        sorted@ == canonical(grouping@),
{
    let mut sorted: Vec<(i32, u64)> = Vec::with_capacity(grouping.entries.len());
    let mut at: usize = 0;
    while at < grouping.entries.len()
        invariant
            at <= grouping.entries.len(),
            sorted@ == grouping@.take(at as int),
        decreases grouping.entries.len() - at,
    {
        let entry: (i32, u64) = grouping.entries[at];
        sorted.push(entry);
        proof {
            assert(grouping@.take(at as int).push(entry) =~= grouping@.take(at as int + 1));
        }
        at = at + 1;
    }
    proof {
        assert(grouping@.take(at as int) =~= grouping@);
    }
    sort_entries(&mut sorted);
    proof {
        lemma_canonical_unique(grouping@, sorted@);
    }
    sorted
}

/// The first position at which two sequences of entries differ, if any.
pub fn first_difference(a: &Vec<(i32, u64)>, b: &Vec<(i32, u64)>) -> (found: Option<usize>)
    ensures
        found is None <==> a@ == b@,
        found is Some ==> is_first_difference(a@, b@, found->Some_0 as int),
{
    let mut at: usize = 0;
    while at < a.len() && at < b.len()
        invariant
            at <= a.len(),
            at <= b.len(),
            forall|i: int| 0 <= i < at ==> a@[i] == b@[i],
        decreases a.len() - at,
    {
        if a[at].0 != b[at].0 || a[at].1 != b[at].1 {
            return Some(at);
        }
        at = at + 1;
    }
    if a.len() != b.len() {
        Some(at)
    } else {
        assert(a@ =~= b@);
        None
    }
}

/// Compares two groupings in canonical form.
///
/// The outcome is `Equal` exactly when the two canonical forms are identical.
/// Otherwise it is `Mismatch` with the first position at which the canonical
/// forms differ.
pub fn compare(a: &GroupingResult, b: &GroupingResult) -> (outcome: ComparisonOutcome)
    ensures
        outcome is Equal <==> canonical(a@) == canonical(b@),
        outcome is Mismatch ==> is_first_difference(
            canonical(a@),
            canonical(b@),
            outcome->index as int,
        ),
{
    let left = canonicalize(a);
    let right = canonicalize(b);
    match first_difference(&left, &right) {
        None => ComparisonOutcome::Equal,
        Some(index) => ComparisonOutcome::Mismatch { index },
    }
}

} // verus!
