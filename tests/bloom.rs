use dnsseed::bloom::{RollingBloomFilter, ROLL_COUNT};
use std::time::Duration;

#[test]
fn test_bloom() {
	let mut filter = RollingBloomFilter::with_generation_bits(2);
	for i in 0..1000 {
		filter.insert(&i, Duration::from_secs(60 * 60 * 24));
	}
	for i in 0..1000 {
		assert!(filter.contains(&i));
	}
	for i in 1000..2000 {
		assert!(!filter.contains(&i));
	}
	assert_eq!(filter.get_element_count(), [0, 0, 1000]);
	filter.set_inserted_since_last_roll(ROLL_COUNT + 1);
	filter.insert(&1000, Duration::from_secs(60 * 60 * 24));
	assert_eq!(filter.get_element_count(), [0, ROLL_COUNT + 1, 1]);
	for i in 0..1001 {
		assert!(filter.contains(&i));
	}
	filter.set_inserted_since_last_roll(ROLL_COUNT + 1);
	for i in 1001..2000 {
		filter.insert(&i, Duration::from_secs(60 * 60 * 24));
	}
	assert_eq!(filter.get_element_count(), [ROLL_COUNT + 1, ROLL_COUNT + 1, 999]);
	for i in 0..2000 {
		assert!(filter.contains(&i));
	}
	filter.set_inserted_since_last_roll(ROLL_COUNT + 1);
	filter.insert(&2000, Duration::from_secs(60 * 60 * 24));
	assert_eq!(filter.get_element_count(), [ROLL_COUNT + 1, ROLL_COUNT + 1, 1]);
	for i in 0..1000 {
		assert!(!filter.contains(&i));
	}
	for i in 1000..2001 {
		assert!(filter.contains(&i));
	}
}

#[test]
fn bloom_aging_three_generations() {
	let day = Duration::from_secs(60 * 60 * 24);
	let mut filter = RollingBloomFilter::with_generation_bits(2);
	for i in 0..1000 {
		filter.insert(&i, day);
	}
	filter.set_inserted_since_last_roll(ROLL_COUNT + 1);
	filter.insert(&1000, day);
	assert!(filter.contains(&0));
	filter.set_inserted_since_last_roll(ROLL_COUNT + 1);
	filter.insert(&5000, day);
	assert!(filter.contains(&0));
	filter.set_inserted_since_last_roll(ROLL_COUNT + 1);
	filter.insert(&5001, day);
	assert!(!filter.contains(&0));
	assert!(filter.contains(&1000));
	assert!(filter.contains(&5000));
	assert!(filter.contains(&5001));
}

#[test]
fn bloom_roll_after_count_cap() {
	let day = Duration::from_secs(60 * 60 * 24);
	let mut filter = RollingBloomFilter::with_generation_bits(2);
	filter.set_inserted_since_last_roll(ROLL_COUNT);
	filter.insert(&7, day);
	assert_eq!(filter.get_element_count(), [0, 0, ROLL_COUNT + 1]);
	filter.insert(&8, day);
	assert_eq!(filter.get_element_count(), [0, ROLL_COUNT + 1, 1]);
	assert!(filter.contains(&7));
	assert!(filter.contains(&8));
}

#[test]
fn bloom_empty_filter_holds_nothing() {
	let filter: RollingBloomFilter<u64> = RollingBloomFilter::with_generation_bits(2);
	for i in 0..100u64 {
		assert!(!filter.contains(&i));
	}
	assert_eq!(filter.get_element_count(), [0, 0, 0]);
}

#[test]
fn bloom_production_shape() {
	let mut filter: RollingBloomFilter<u32> = RollingBloomFilter::new();
	assert_eq!(filter.get_element_count().len(), 15);
	filter.insert(&42, Duration::from_secs(3600));
	assert!(filter.contains(&42));
	assert!(!filter.contains(&43));
	assert_eq!(filter.get_element_count()[14], 1);
}

#[test]
fn bloom_roll_due_splits_window() {
	let filter: RollingBloomFilter<i32> = RollingBloomFilter::with_generation_bits(2);
	assert!(filter.roll_due(1001, 3000));
	assert!(!filter.roll_due(1000, 3000));
	assert!(!filter.roll_due(0, 0));
	assert!(filter.roll_due(1, 0));
}

#[test]
fn bloom_time_roll_moves_generation() {
	let mut filter = RollingBloomFilter::with_generation_bits(2);
	filter.insert_rolling(&1, false);
	filter.insert_rolling(&2, true);
	assert_eq!(filter.get_element_count(), [0, 1, 1]);
	filter.insert(&3, Duration::from_secs(0));
	assert_eq!(filter.get_element_count(), [1, 1, 1]);
	assert!(filter.contains(&1));
	filter.insert_rolling(&4, true);
	assert!(!filter.contains(&1));
	assert!(filter.contains(&2));
}
