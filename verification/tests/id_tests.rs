use blockfs::clock::nanos_to_millis;
use blockfs::id::{IdGenerator, SEQUENCE_LIMIT, TIMESTAMP_LIMIT};

#[test]
fn first_id_of_a_millisecond_is_the_shifted_timestamp() {
    let mut generator = IdGenerator::new();
    assert_eq!(generator.last_id(), 0);
    assert_eq!(generator.next_id(5), Some(5 * 1024));
    assert_eq!(generator.last_id(), 5120);
}

#[test]
fn ids_within_a_millisecond_count_up() {
    let mut generator = IdGenerator::new();
    assert_eq!(generator.next_id(7), Some(7168));
    assert_eq!(generator.next_id(7), Some(7169));
    assert_eq!(generator.next_id(7), Some(7170));
    assert_eq!(generator.next_id(8), Some(8192));
}

#[test]
fn time_zero_counts_from_one() {
    let mut generator = IdGenerator::new();
    assert_eq!(generator.next_id(0), Some(1));
    assert_eq!(generator.next_id(0), Some(2));
}

#[test]
fn a_used_up_millisecond_makes_the_caller_wait() {
    let mut generator = IdGenerator::new();
    let mut last = 0;
    for sequence in 0..SEQUENCE_LIMIT {
        let id = generator.next_id(3).unwrap();
        assert_eq!(id, 3 * 1024 + sequence);
        assert!(id > last || sequence == 0);
        last = id;
    }
    assert_eq!(generator.next_id(3), None);
    assert_eq!(generator.last_id(), 3 * 1024 + 999);
    assert_eq!(generator.next_id(4), Some(4096));
}

#[test]
fn a_clock_that_went_backwards_makes_the_caller_wait() {
    let mut generator = IdGenerator::new();
    assert_eq!(generator.next_id(10), Some(10240));
    assert_eq!(generator.next_id(9), None);
    assert_eq!(generator.last_id(), 10240);
    assert_eq!(generator.next_id(10), Some(10241));
}

#[test]
fn a_timestamp_past_the_limit_is_refused() {
    let mut generator = IdGenerator::new();
    assert_eq!(generator.next_id(TIMESTAMP_LIMIT), None);
    assert_eq!(generator.next_id(u64::MAX), None);
    assert_eq!(
        generator.next_id(TIMESTAMP_LIMIT - 1),
        Some((TIMESTAMP_LIMIT - 1) << 10)
    );
}

#[test]
fn allocated_ids_increase() {
    let mut generator = IdGenerator::new();
    let mut last = 0;
    for _ in 0..3000 {
        let id = generator.allocate_id().unwrap();
        assert!(id > last);
        last = id;
    }
    assert_eq!(generator.last_id(), last);
    assert!(last >> 10 > 1_577_836_800_000);
}

#[test]
fn milliseconds_are_nanoseconds_by_a_million() {
    assert_eq!(nanos_to_millis(0), 0);
    assert_eq!(nanos_to_millis(999_999), 0);
    assert_eq!(nanos_to_millis(1_000_000), 1);
    assert_eq!(nanos_to_millis(1_700_000_000_123_456_789), 1_700_000_000_123);
    assert_eq!(nanos_to_millis(u128::MAX), u64::MAX);
    assert_eq!(
        nanos_to_millis(u64::MAX as u128 * 1_000_000 + 999_999),
        u64::MAX
    );
}
