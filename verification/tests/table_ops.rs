//! The per-module tables on their own: refcount lifecycle in the resource
//! store and round trips through the handle indirection table.

use wasmlink_runtime::{IndexSlab, ResourceIndex, ResourceSlab};

#[test]
fn resource_starts_with_one_reference() {
    let mut t: ResourceSlab = Default::default();
    let idx = t.insert(99);
    assert_eq!(t.get(idx), 99);
    assert_eq!(t.references(idx), 1);
    assert_eq!(t.len(), 1);
}

#[test]
fn clone_increments_and_drop_decrements() {
    let mut t: ResourceSlab = Default::default();
    let idx = t.insert(99);
    t.clone(idx);
    assert_eq!(t.references(idx), 2);
    // first drop: a reference remains, nothing to finalize
    assert_eq!(t.drop(idx), None);
    assert_eq!(t.references(idx), 1);
    // last drop: the slot is reclaimed and the value handed back
    assert_eq!(t.drop(idx), Some(99));
}

#[test]
fn reclaimed_resource_slot_is_reused() {
    let mut t: ResourceSlab = Default::default();
    let a = t.insert(1);
    let b = t.insert(2);
    assert_eq!(t.drop(a), Some(1));
    let c = t.insert(3);
    assert_eq!(c.0, a.0);
    assert_eq!(t.get(b), 2);
    assert_eq!(t.get(c), 3);
}

#[test]
fn index_slab_round_trip() {
    let mut h: IndexSlab = Default::default();
    assert_eq!(h.insert(ResourceIndex(7)), 0);
    assert_eq!(h.insert(ResourceIndex(9)), 1);
    assert_eq!(h.get(0).map(|r| r.0), Some(7));
    assert_eq!(h.get(1).map(|r| r.0), Some(9));
    assert_eq!(h.get(2).map(|r| r.0), None);
    assert_eq!(h.remove(0).map(|r| r.0), Some(7));
    assert_eq!(h.get(0).map(|r| r.0), None);
    assert_eq!(h.remove(0).map(|r| r.0), None);
}
