use grouping_check::compare::{canonicalize, compare, first_difference, ComparisonOutcome};
use grouping_check::engine::{extract, Pair, WeldVec};
use grouping_check::grouping::{aggregate, GroupingResult};

fn group(key: i32, elements: &[i32]) -> Pair<i32, WeldVec<'_, i32>> {
    Pair { e1: key, e2: WeldVec::new(elements, elements.len() as i64) }
}

fn sum_of_counts(grouping: &GroupingResult) -> u64 {
    grouping.entries.iter().map(|entry| entry.1).sum()
}

#[test]
fn reference_counts_sum_to_dataset_length() {
    let dataset = vec![4, 1, 4, 4, 0, 2, 1, 4, 3, 3, 0];
    let grouping = aggregate(&dataset);
    assert_eq!(sum_of_counts(&grouping), dataset.len() as u64);
}

#[test]
fn reference_keys_are_the_keys_drawn() {
    let dataset = vec![7, 2, 7, 5, 2, 7];
    let grouping = aggregate(&dataset);
    let mut keys: Vec<i32> = grouping.entries.iter().map(|entry| entry.0).collect();
    keys.sort();
    assert_eq!(keys, vec![2, 5, 7]);
}

#[test]
fn reference_grouping_of_six_elements() {
    let dataset = vec![0, 1, 0, 2, 1, 0];
    let grouping = aggregate(&dataset);
    assert_eq!(grouping.entries.len(), 3);
    assert_eq!(canonicalize(&grouping), vec![(0, 3), (1, 2), (2, 1)]);
}

#[test]
fn engine_output_canonicalizes_to_reference_form() {
    let dataset = vec![0, 1, 0, 2, 1, 0];
    let reference = aggregate(&dataset);
    let output = vec![group(2, &[2]), group(0, &[0, 0, 0]), group(1, &[1, 1])];
    let engine = extract(&output);
    assert_eq!(engine.entries, vec![(2, 1), (0, 3), (1, 2)]);
    assert_eq!(canonicalize(&engine), vec![(0, 3), (1, 2), (2, 1)]);
    assert_eq!(compare(&engine, &reference), ComparisonOutcome::Equal);
    assert_eq!(compare(&reference, &engine), ComparisonOutcome::Equal);
}

#[test]
fn empty_dataset_gives_empty_results_that_compare_equal() {
    let dataset: Vec<i32> = Vec::new();
    let reference = aggregate(&dataset);
    let engine = extract(&Vec::new());
    assert!(reference.entries.is_empty());
    assert!(engine.entries.is_empty());
    assert!(canonicalize(&reference).is_empty());
    assert_eq!(compare(&engine, &reference), ComparisonOutcome::Equal);
}

#[test]
fn aggregating_twice_compares_equal() {
    let dataset = vec![9, 9, 3, 1, 3, 9, 0, 0, 1, 9, 5];
    let first = aggregate(&dataset);
    let second = aggregate(&dataset);
    assert_eq!(compare(&first, &second), ComparisonOutcome::Equal);
    assert_eq!(canonicalize(&first), vec![(0, 2), (1, 2), (3, 2), (5, 1), (9, 4)]);
}

#[test]
fn corrupted_count_is_reported_at_its_key() {
    let dataset = vec![0, 1, 0, 2, 1, 0];
    let reference = aggregate(&dataset);
    let output = vec![group(2, &[2]), group(1, &[1, 1, 1, 1, 1]), group(0, &[0, 0, 0])];
    let engine = extract(&output);
    let outcome = compare(&engine, &reference);
    assert_eq!(outcome, ComparisonOutcome::Mismatch { index: 1 });
    assert_eq!(canonicalize(&engine)[1], (1, 5));
    assert_eq!(canonicalize(&reference)[1], (1, 2));
}

#[test]
fn missing_group_is_a_mismatch() {
    let reference = aggregate(&vec![0, 1, 0, 2, 1, 0]);
    let engine = extract(&vec![group(0, &[0, 0, 0]), group(1, &[1, 1])]);
    assert_eq!(compare(&engine, &reference), ComparisonOutcome::Mismatch { index: 2 });
    assert_eq!(compare(&reference, &engine), ComparisonOutcome::Mismatch { index: 2 });
}

#[test]
fn different_key_is_a_mismatch_at_the_first_difference() {
    let a = GroupingResult { entries: vec![(3, 1), (1, 1), (2, 1)] };
    let b = GroupingResult { entries: vec![(4, 1), (2, 1), (1, 1)] };
    assert_eq!(compare(&a, &b), ComparisonOutcome::Mismatch { index: 2 });
}

#[test]
fn canonical_form_orders_by_key_then_count() {
    let grouping = GroupingResult { entries: vec![(5, 1), (-3, 9), (5, 0), (0, 2), (-3, 4)] };
    assert_eq!(canonicalize(&grouping), vec![(-3, 4), (-3, 9), (0, 2), (5, 0), (5, 1)]);
    assert_eq!(grouping.entries, vec![(5, 1), (-3, 9), (5, 0), (0, 2), (-3, 4)]);
}

#[test]
fn first_difference_finds_position_or_nothing() {
    let a = vec![(0, 3u64), (1, 2), (2, 1)];
    assert_eq!(first_difference(&a, &a.clone()), None);
    assert_eq!(first_difference(&a, &vec![(0, 3), (1, 2), (2, 7)]), Some(2));
    assert_eq!(first_difference(&a, &vec![(1, 3), (1, 2), (2, 1)]), Some(0));
    assert_eq!(first_difference(&a, &vec![(0, 3), (1, 2)]), Some(2));
    assert_eq!(first_difference(&vec![], &a), Some(0));
    assert_eq!(first_difference(&Vec::new(), &Vec::new()), None);
}

#[test]
fn extract_takes_inner_lengths_as_counts() {
    let many = vec![8; 70_000];
    let output = vec![group(-1, &[]), group(8, &many)];
    let grouping = extract(&output);
    assert_eq!(grouping.entries, vec![(-1, 0), (8, 70_000)]);
}

#[test]
fn single_repeated_key_counts_every_element() {
    let dataset = vec![6; 1000];
    let grouping = aggregate(&dataset);
    assert_eq!(grouping.entries, vec![(6, 1000)]);
}

#[test]
fn borrowed_view_records_elements_and_size() {
    let elements = [5, 6, 7];
    let view = WeldVec::new(&elements, 3);
    assert_eq!(view.data, &[5, 6, 7]);
    assert_eq!(view.size, 3);
    let dataset = vec![1, 2, 3, 4];
    let lent = WeldVec::lend(&dataset);
    assert_eq!(lent.data, &[1, 2, 3, 4]);
    assert_eq!(lent.size, 4);
    let nothing: Vec<i32> = Vec::new();
    assert_eq!(WeldVec::lend(&nothing).size, 0);
}

#[test]
fn counts_beyond_32_bits_are_kept() {
    let a = GroupingResult { entries: vec![(1, 5_000_000_000), (0, u64::MAX)] };
    let b = GroupingResult { entries: vec![(0, u64::MAX), (1, 5_000_000_000)] };
    assert_eq!(canonicalize(&a), vec![(0, u64::MAX), (1, 5_000_000_000)]);
    assert_eq!(compare(&a, &b), ComparisonOutcome::Equal);
    let c = GroupingResult { entries: vec![(0, u64::MAX), (1, 705_032_704)] };
    assert_eq!(compare(&a, &c), ComparisonOutcome::Mismatch { index: 1 });
}

#[test]
fn reference_equals_engine_on_generated_shape() {
    let dataset = vec![3, 0, 3, 3, 1, 0, 2, 2, 3, 1];
    let reference = aggregate(&dataset);
    let zeros = [0, 0];
    let ones = [1, 1];
    let twos = [2, 2];
    let threes = [3, 3, 3, 3];
    let output = vec![group(3, &threes), group(1, &ones), group(0, &zeros), group(2, &twos)];
    let engine = extract(&output);
    assert_eq!(compare(&engine, &reference), ComparisonOutcome::Equal);
    assert_eq!(sum_of_counts(&engine), sum_of_counts(&reference));
}
