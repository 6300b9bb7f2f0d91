use chainbills::{next_count, ChainbillsError, CounterKey, CounterRegistry};

fn key(scope: u8, chain_id: u16) -> CounterKey {
    CounterKey { scope: [scope; 32], chain_id }
}

#[test]
fn next_count_starts_at_one_and_has_no_gaps() {
    assert_eq!(next_count(0), Ok(1));
    assert_eq!(next_count(1), Ok(2));
    assert_eq!(next_count(41), Ok(42));
    assert_eq!(next_count(u64::MAX - 1), Ok(u64::MAX));
}

#[test]
fn next_count_fails_closed_at_the_end_of_the_range() {
    assert_eq!(next_count(u64::MAX), Err(ChainbillsError::CounterOverflow));
}

#[test]
fn registry_counts_each_key_on_its_own() {
    let mut registry = CounterRegistry::new();
    assert_eq!(registry.current(&key(1, 1)), 0);
    assert_eq!(registry.next(key(1, 1)), Ok(1));
    assert_eq!(registry.next(key(1, 1)), Ok(2));
    assert_eq!(registry.next(key(1, 2)), Ok(1));
    assert_eq!(registry.next(key(2, 1)), Ok(1));
    assert_eq!(registry.next(key(1, 1)), Ok(3));
    assert_eq!(registry.current(&key(1, 1)), 3);
    assert_eq!(registry.current(&key(1, 2)), 1);
    assert_eq!(registry.current(&key(2, 1)), 1);
    assert_eq!(registry.current(&key(2, 2)), 0);
}

#[test]
fn registry_never_gives_a_number_twice() {
    let mut registry = CounterRegistry::new();
    let mut last = 0;
    for _ in 0..100 {
        let next = registry.next(key(5, 7)).unwrap();
        assert_eq!(next, last + 1);
        last = next;
    }
}

#[test]
fn registry_refuses_to_wrap_and_stays_as_it_was() {
    let mut registry = CounterRegistry::new();
    registry.next(key(3, 3)).unwrap();
    registry.entries[0].value = u64::MAX;
    assert_eq!(registry.next(key(3, 3)), Err(ChainbillsError::CounterOverflow));
    assert_eq!(registry.current(&key(3, 3)), u64::MAX);
    assert_eq!(registry.entries.len(), 1);
}
