//! The inventory table and its two transactional adjustments.

use db_web::errors::DataError;
use db_web::inventory::InventoryStore;

#[test]
fn add_creates_lazily_then_increments() {
    let mut store = InventoryStore::new();
    assert_eq!(store.lookup(1, 1), None);
    assert_eq!(store.add(1, 1, 5).unwrap(), 1);
    assert_eq!(store.lookup(1, 1), Some(5));
    assert_eq!(store.add(1, 1, 3).unwrap(), 1);
    assert_eq!(store.lookup(1, 1), Some(8));
}

#[test]
fn add_five_then_three_equals_add_eight() {
    let mut twice = InventoryStore::new();
    twice.add(1, 1, 5).unwrap();
    twice.add(1, 1, 3).unwrap();
    let mut once = InventoryStore::new();
    once.add(1, 1, 8).unwrap();
    assert_eq!(twice.lookup(1, 1), Some(8));
    assert_eq!(once.lookup(1, 1), Some(8));
}

#[test]
fn add_order_of_calls_does_not_matter() {
    let mut ab = InventoryStore::new();
    ab.add(2, 3, 5).unwrap();
    ab.add(2, 3, 3).unwrap();
    let mut ba = InventoryStore::new();
    ba.add(2, 3, 3).unwrap();
    ba.add(2, 3, 5).unwrap();
    assert_eq!(ab.lookup(2, 3), ba.lookup(2, 3));
}

#[test]
fn keys_are_independent() {
    let mut store = InventoryStore::new();
    store.add(1, 1, 5).unwrap();
    store.add(1, 2, 7).unwrap();
    store.add(2, 1, 9).unwrap();
    assert_eq!(store.lookup(1, 1), Some(5));
    assert_eq!(store.lookup(1, 2), Some(7));
    assert_eq!(store.lookup(2, 1), Some(9));
    assert_eq!(store.records().len(), 3);
}

#[test]
fn reduce_below_available_fails_and_changes_nothing() {
    let mut store = InventoryStore::new();
    store.add(1, 1, 5).unwrap();
    assert_eq!(store.reduce(1, 1, 10).unwrap_err(), DataError::InsufficientStock);
    assert_eq!(store.lookup(1, 1), Some(5));
}

#[test]
fn reduce_within_available_decrements() {
    let mut store = InventoryStore::new();
    store.add(1, 1, 5).unwrap();
    assert_eq!(store.reduce(1, 1, 2).unwrap(), 1);
    assert_eq!(store.lookup(1, 1), Some(3));
    assert_eq!(store.reduce(1, 1, 3).unwrap(), 1);
    assert_eq!(store.lookup(1, 1), Some(0));
}

#[test]
fn reduce_missing_record_fails() {
    let mut store = InventoryStore::new();
    assert_eq!(store.reduce(9, 9, 1).unwrap_err(), DataError::RecordNotFound);
}

#[test]
fn serialized_overdraws_cannot_both_succeed() {
    // Two reductions of 6 against 10 units: under either serial order the
    // first commits and the second fails, leaving 4.
    let mut store = InventoryStore::new();
    store.add(1, 1, 10).unwrap();
    assert!(store.reduce(1, 1, 6).is_ok());
    assert_eq!(store.reduce(1, 1, 6).unwrap_err(), DataError::InsufficientStock);
    assert_eq!(store.lookup(1, 1), Some(4));
}

#[test]
fn add_overflow_is_a_constraint_violation() {
    let mut store = InventoryStore::new();
    store.add(1, 1, u32::MAX - 1).unwrap();
    assert_eq!(store.add(1, 1, 2).unwrap_err(), DataError::ConstraintViolation);
    assert_eq!(store.lookup(1, 1), Some(u32::MAX - 1));
    assert_eq!(store.add(1, 1, 1).unwrap(), 1);
    assert_eq!(store.lookup(1, 1), Some(u32::MAX));
}
