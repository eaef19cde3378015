use grouping_check::compare::{compare, ComparisonOutcome};
use grouping_check::dataset::{element_count, generate, ELEMENT_BYTES};
use grouping_check::engine::{AdapterState, ExecutionConfig};
use grouping_check::error::HarnessError;
use grouping_check::grouping::aggregate;
use rand::rngs::SmallRng;
use rand::SeedableRng;

fn seeded(byte: u8) -> SmallRng {
    SmallRng::from_seed([byte; 16])
}

#[test]
fn element_count_divides_by_element_size() {
    assert_eq!(ELEMENT_BYTES, 4);
    assert_eq!(element_count(0), 0);
    assert_eq!(element_count(3), 0);
    assert_eq!(element_count(4), 1);
    assert_eq!(element_count(4003), 1000);
    assert_eq!(element_count(2_000_000_000), 500_000_000);
}

#[test]
fn generate_gives_keys_in_range() {
    let mut rng = seeded(7);
    let dataset = generate(4000, 10, &mut rng).unwrap();
    assert_eq!(dataset.len(), 1000);
    assert!(dataset.iter().all(|key| 0 <= *key && *key < 10));
    assert!(dataset.iter().any(|key| *key != dataset[0]));
}

#[test]
fn generate_is_determined_by_the_seed() {
    let first = generate(400, 10, &mut seeded(3)).unwrap();
    let second = generate(400, 10, &mut seeded(3)).unwrap();
    assert_eq!(first, second);
}

#[test]
fn generate_rejects_empty_key_range() {
    let mut rng = seeded(1);
    assert_eq!(generate(4000, 0, &mut rng), Err(HarnessError::InvalidConfiguration));
    assert_eq!(generate(4000, -5, &mut rng), Err(HarnessError::InvalidConfiguration));
    assert_eq!(generate(0, i32::MIN, &mut rng), Err(HarnessError::InvalidConfiguration));
}

#[test]
fn generate_with_too_few_bytes_gives_empty_dataset() {
    let mut rng = seeded(1);
    assert_eq!(generate(3, 5, &mut rng), Ok(Vec::new()));
    assert_eq!(generate(0, 5, &mut rng), Ok(Vec::new()));
}

#[test]
fn single_group_has_one_key_with_full_count() {
    let mut rng = seeded(9);
    let dataset = generate(4 * 257, 1, &mut rng).unwrap();
    assert_eq!(dataset, vec![0; 257]);
    let grouping = aggregate(&dataset);
    assert_eq!(grouping.entries, vec![(0, 257)]);
}

#[test]
fn generated_dataset_groups_within_range_and_sums_to_length() {
    let mut rng = seeded(42);
    let dataset = generate(40_000, 10, &mut rng).unwrap();
    let grouping = aggregate(&dataset);
    assert!(grouping.entries.len() <= 10);
    assert!(grouping.entries.iter().all(|entry| 0 <= entry.0 && entry.0 < 10));
    let total: u64 = grouping.entries.iter().map(|entry| entry.1).sum();
    assert_eq!(total, 10_000);
    for entry in grouping.entries.iter() {
        let expected = dataset.iter().filter(|key| **key == entry.0).count() as u64;
        assert_eq!(entry.1, expected);
    }
    assert_eq!(compare(&grouping, &aggregate(&dataset)), ComparisonOutcome::Equal);
}

#[test]
fn adapter_phases_move_forward() {
    let start = AdapterState::new();
    assert_eq!(start, AdapterState::Uncompiled);
    let compiled = start.after_compile(true).unwrap();
    assert_eq!(compiled, AdapterState::Compiled);
    let executed = compiled.after_execute(true).unwrap();
    assert_eq!(executed, AdapterState::Executed);
    assert_eq!(executed.after_extract(), AdapterState::Extracted);
}

#[test]
fn adapter_failures_name_their_phase() {
    assert_eq!(AdapterState::Uncompiled.after_compile(false), Err(HarnessError::CompileError));
    assert_eq!(AdapterState::Compiled.after_execute(false), Err(HarnessError::RuntimeError));
}

#[test]
fn execution_config_holds_memory_limit() {
    let mut config = ExecutionConfig::new();
    assert_eq!(config.memory_limit, None);
    config.set_memory_limit(8_000_000_000);
    assert_eq!(config.memory_limit, Some(8_000_000_000));
}
