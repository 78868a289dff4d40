use soroban_ledger::Increment;

#[test]
fn test_increment() {
    let mut counter = Increment::new();
    assert_eq!(counter.increment(), 1);
    assert_eq!(counter.increment(), 2);
}

#[test]
fn test_decrement() {
    let mut counter = Increment::new();
    assert_eq!(counter.decrement(), 0);
    assert_eq!(counter.increment(), 1);
    assert_eq!(counter.decrement(), 0);
}

#[test]
fn test_reset() {
    let mut counter = Increment::new();
    counter.increment();
    counter.increment();
    counter.reset();
}

#[test]
fn reset_brings_count_to_zero() {
    let mut counter = Increment::new();
    counter.increment();
    counter.increment();
    counter.reset();
    assert_eq!(counter.get_count(), 0);
    assert_eq!(counter.increment(), 1);
}

#[test]
fn get_count_reads_without_changing() {
    let mut counter = Increment::new();
    assert_eq!(counter.get_count(), 0);
    counter.increment();
    counter.increment();
    counter.increment();
    assert_eq!(counter.decrement(), 2);
    assert_eq!(counter.get_count(), 2);
    assert_eq!(counter.get_count(), 2);
}

#[test]
fn counter_resumes_from_stored_count() {
    let mut counter = Increment::with_count(41);
    assert_eq!(counter.get_count(), 41);
    assert_eq!(counter.increment(), 42);
    assert_eq!(counter.decrement(), 41);
}
