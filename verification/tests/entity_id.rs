use cecs::entity_id::{EntityId, EntityIndex, Location};

#[test]
fn entity_id_keeps_its_parts() {
    let id = EntityId::new(3, 9);
    assert_eq!(id.index(), 3);
    assert_eq!(id.generation(), 9);
    assert_eq!(id, EntityId { index: 3, gen: 9 });
    assert_ne!(id, EntityId { index: 3, gen: 10 });
}

#[test]
fn index_allocates_fresh_slots_in_order() {
    let mut index = EntityIndex::new();
    assert!(index.has_capacity());
    let a = index.allocate(Location { archetype: 0, row: 0 });
    let b = index.allocate(Location { archetype: 0, row: 1 });
    assert_eq!(a, EntityId { index: 0, gen: 0 });
    assert_eq!(b, EntityId { index: 1, gen: 0 });
    assert_eq!(index.get(a), Some(Location { archetype: 0, row: 0 }));
    assert_eq!(index.get(b), Some(Location { archetype: 0, row: 1 }));
}

#[test]
fn index_update_moves_a_live_handle() {
    let mut index = EntityIndex::new();
    let a = index.allocate(Location { archetype: 0, row: 0 });
    index.update(a, Location { archetype: 4, row: 17 });
    assert_eq!(index.get(a), Some(Location { archetype: 4, row: 17 }));
}

#[test]
fn freed_handle_is_stale_and_its_slot_is_reused_under_the_next_generation() {
    let mut index = EntityIndex::new();
    let a = index.allocate(Location { archetype: 0, row: 0 });
    assert!(!index.is_stale(a));
    index.free(a);
    assert_eq!(index.get(a), None);
    assert!(index.is_stale(a));
    let b = index.allocate(Location { archetype: 0, row: 1 });
    assert_eq!(b, EntityId { index: 0, gen: 1 });
    assert_eq!(index.get(b), Some(Location { archetype: 0, row: 1 }));
    assert_eq!(index.get(a), None);
    assert!(index.is_stale(a));
    assert!(!index.is_stale(b));
}

#[test]
fn handle_that_was_never_issued_is_neither_live_nor_stale() {
    let mut index = EntityIndex::new();
    let a = index.allocate(Location { archetype: 0, row: 0 });
    let later = EntityId { index: a.index, gen: 5 };
    let elsewhere = EntityId { index: 40, gen: 0 };
    assert_eq!(index.get(later), None);
    assert!(!index.is_stale(later));
    assert_eq!(index.get(elsewhere), None);
    assert!(!index.is_stale(elsewhere));
}
