//! The boundary operations end to end: insertion and growth, clone
//! independence, refcounted removal, and the double-width result encoding.

use wasmlink_runtime::{
    can_clone, can_insert, handle_live, remove_entry, resource_clone, resource_get,
    resource_insert, resource_remove, Registry, RemoveOutcome,
};

const STILL_REFERENCED: u64 = 1u64 << 32;

#[test]
fn insert_then_get_returns_value() {
    let mut reg = Registry::new();
    let h = resource_insert(&mut reg, 0, 42);
    assert_eq!(resource_get(&reg, 0, h), 42);
    // a module id beyond the current registry size triggers growth
    let h2 = resource_insert(&mut reg, 7, 13);
    assert_eq!(resource_get(&reg, 7, h2), 13);
}

#[test]
fn scenario_clone_and_remove() {
    let mut reg = Registry::new();
    assert_eq!(resource_insert(&mut reg, 0, 42), 0);
    assert_eq!(resource_clone(&mut reg, 0, 0), 1);
    assert_eq!(resource_get(&reg, 0, 1), 42);
    assert_eq!(resource_remove(&mut reg, 0, 0), STILL_REFERENCED);
    assert_eq!(resource_remove(&mut reg, 0, 1), 42);
}

#[test]
fn growth_covers_intermediate_ids() {
    let mut reg = Registry::new();
    assert_eq!(reg.module_count(), 0);
    assert_eq!(resource_insert(&mut reg, 5, 7), 0);
    assert_eq!(reg.module_count(), 6);
    assert_eq!(resource_get(&reg, 5, 0), 7);
    // growth to an already covered id is a no-op
    resource_insert(&mut reg, 2, 9);
    assert_eq!(reg.module_count(), 6);
}

#[test]
fn still_referenced_until_last_removal() {
    let mut reg = Registry::new();
    let h0 = resource_insert(&mut reg, 2, 77);
    let h1 = resource_clone(&mut reg, 2, h0);
    let h2 = resource_clone(&mut reg, 2, h1);
    assert_eq!(remove_entry(&mut reg, 2, h0), RemoveOutcome::StillReferenced);
    assert_eq!(remove_entry(&mut reg, 2, h1), RemoveOutcome::StillReferenced);
    assert_eq!(remove_entry(&mut reg, 2, h2), RemoveOutcome::Released(77));
}

#[test]
fn cloned_handles_are_independent() {
    let mut reg = Registry::new();
    let h0 = resource_insert(&mut reg, 0, 5);
    let h1 = resource_clone(&mut reg, 0, h0);
    assert_ne!(h0, h1);
    // removing the clone first leaves the original resolving
    assert_eq!(resource_remove(&mut reg, 0, h1), STILL_REFERENCED);
    assert_eq!(resource_get(&reg, 0, h0), 5);
    assert_eq!(resource_remove(&mut reg, 0, h0), 5);
}

#[test]
fn removal_encoding_uses_high_half_as_flag() {
    let mut reg = Registry::new();
    let h = resource_insert(&mut reg, 0, 9);
    let released = resource_remove(&mut reg, 0, h);
    assert_eq!(released >> 32, 0);
    assert_eq!(released & 0xFFFF_FFFF, 9);
    let h = resource_insert(&mut reg, 0, 9);
    let h2 = resource_clone(&mut reg, 0, h);
    let still = resource_remove(&mut reg, 0, h);
    assert_eq!(still >> 32, 1);
    assert_eq!(resource_remove(&mut reg, 0, h2), 9);
}

#[test]
fn freed_handle_numbers_are_reused() {
    let mut reg = Registry::new();
    assert_eq!(resource_insert(&mut reg, 0, 1), 0);
    assert_eq!(resource_insert(&mut reg, 0, 2), 1);
    resource_remove(&mut reg, 0, 0);
    // the freed handle number is handed out again only after its removal
    assert_eq!(resource_insert(&mut reg, 0, 3), 0);
    assert_eq!(resource_get(&reg, 0, 1), 2);
    assert_eq!(resource_get(&reg, 0, 0), 3);
}

#[test]
fn liveness_and_capacity_guards() {
    let mut reg = Registry::new();
    assert!(!handle_live(&reg, 0, 0));
    assert!(can_insert(&reg, 0));
    let h = resource_insert(&mut reg, 0, 4);
    assert!(handle_live(&reg, 0, h));
    assert!(can_clone(&reg, 0, h));
    assert!(!handle_live(&reg, 1, 0));
    resource_remove(&mut reg, 0, h);
    assert!(!handle_live(&reg, 0, h));
    assert!(!can_clone(&reg, 0, h));
}
