//! The slot allocator on its own: dense index assignment, reuse of freed
//! indices, and the absent cases.

use wasmlink_runtime::Slab;

#[test]
fn insert_assigns_dense_indices() {
    let mut s: Slab<u32> = Default::default();
    assert_eq!(s.insert(10), 0);
    assert_eq!(s.insert(20), 1);
    assert_eq!(s.insert(30), 2);
    assert_eq!(s.len(), 3);
}

#[test]
fn get_returns_stored_items() {
    let mut s: Slab<u32> = Default::default();
    s.insert(10);
    s.insert(20);
    assert_eq!(s.get(0), Some(&10));
    assert_eq!(s.get(1), Some(&20));
    assert_eq!(s.get(2), None);
    assert_eq!(s.get(99), None);
}

#[test]
fn freed_indices_are_reused_most_recent_first() {
    let mut s: Slab<u32> = Default::default();
    s.insert(10);
    s.insert(20);
    s.insert(30);
    assert_eq!(s.remove(1), Some(20));
    assert_eq!(s.remove(0), Some(10));
    // index 0 was freed last, so it is handed out first
    assert_eq!(s.insert(40), 0);
    assert_eq!(s.insert(50), 1);
    // no freed slot remains: storage grows
    assert_eq!(s.insert(60), 3);
    assert_eq!(s.get(2), Some(&30));
}

#[test]
fn removed_slot_reads_as_absent() {
    let mut s: Slab<u32> = Default::default();
    s.insert(10);
    assert_eq!(s.remove(0), Some(10));
    assert_eq!(s.get(0), None);
    assert_eq!(s.remove(0), None);
    assert_eq!(s.remove(7), None);
}

#[test]
fn get_mut_updates_in_place() {
    let mut s: Slab<u32> = Default::default();
    s.insert(10);
    match s.get_mut(0) {
        Some(v) => *v = 11,
        None => panic!("slot 0 should be live"),
    }
    assert_eq!(s.get(0), Some(&11));
    assert!(s.get_mut(1).is_none());
}
