use cecs::db::{ArchetypeStorage, ComponentQuery, ErasedPageTable, Queryable, Read, Write};
use cecs::entity_id::EntityId;
use cecs::page_table::PageTable;
use cecs::{hash_ty, TypeKey, UNIT_TYPE};

const POS: TypeKey = 1;
const VEL: TypeKey = 2;
const TAG: TypeKey = 3;

fn id(index: u32) -> EntityId {
    EntityId { index, gen: 0 }
}

fn pos_vel() -> ArchetypeStorage<i32> {
    ArchetypeStorage::<i32>::empty().extend_with_column(POS).extend_with_column(VEL)
}

#[test]
fn hash_of_a_type_is_the_splitmix_finalizer_of_its_key() {
    assert_eq!(hash_ty(0), 0xe220a8397b1dcdaf);
    assert_eq!(hash_ty(1), 0x910a2dec89025cc1);
    assert_eq!(hash_ty(2), 0x975835de1c9756ce);
    assert_eq!(hash_ty(0x61c8864680b583eb), 0);
}

#[test]
fn empty_archetype_carries_the_unit_column_alone() {
    let archetype: ArchetypeStorage<i32> = ArchetypeStorage::empty();
    assert_eq!(archetype.ty(), hash_ty(UNIT_TYPE));
    assert_eq!(archetype.len(), 0);
    assert!(archetype.is_empty());
    assert!(archetype.contains_column(UNIT_TYPE));
    assert!(!archetype.contains_column(POS));
    assert_eq!(archetype.type_keys(), vec![UNIT_TYPE]);
    assert!(archetype.rows().is_empty());
}

#[test]
fn extended_hash_is_the_xor_with_the_hash_of_the_type() {
    let archetype: ArchetypeStorage<i32> = ArchetypeStorage::empty();
    assert_eq!(archetype.extended_hash(POS), hash_ty(UNIT_TYPE) ^ hash_ty(POS));
    assert_eq!(archetype.extended_hash(POS), 0x732a85d5f21f916e);
}

#[test]
fn extend_with_column_adds_the_column_and_updates_the_hash() {
    let archetype = pos_vel();
    assert!(archetype.contains_column(POS));
    assert!(archetype.contains_column(VEL));
    assert!(archetype.contains_column(UNIT_TYPE));
    assert_eq!(archetype.column_count(), 3);
    assert_eq!(archetype.ty(), hash_ty(UNIT_TYPE) ^ hash_ty(POS) ^ hash_ty(VEL));
    assert_eq!(archetype.ty(), 0xe472b00bee88c7a0);
    assert!(archetype.is_empty());
}

#[test]
fn hash_does_not_depend_on_the_order_of_extension() {
    let one = ArchetypeStorage::<i32>::empty().extend_with_column(POS).extend_with_column(VEL);
    let other = ArchetypeStorage::<i32>::empty().extend_with_column(VEL).extend_with_column(POS);
    assert_eq!(one.ty(), other.ty());
    assert!(one.extends(&ArchetypeStorage::<i32>::empty().extend_with_column(VEL), POS));
}

#[test]
fn reduce_with_column_takes_the_column_out_and_restores_the_hash() {
    let archetype = pos_vel();
    let reduced = archetype.reduce_with_column(VEL);
    assert!(reduced.contains_column(POS));
    assert!(!reduced.contains_column(VEL));
    assert_eq!(reduced.ty(), hash_ty(UNIT_TYPE) ^ hash_ty(POS));
    assert_eq!(reduced.ty(), ArchetypeStorage::<i32>::empty().extend_with_column(POS).ty());
    assert_eq!(reduced.column_count(), 2);
}

#[test]
fn clone_empty_keeps_columns_and_drops_rows() {
    let mut archetype = pos_vel();
    let row = archetype.insert_entity(id(0));
    archetype.set_component(POS, id(0), row, 1);
    archetype.set_component(VEL, id(0), row, 2);
    let cleared = archetype.clone_empty();
    assert_eq!(cleared.ty(), archetype.ty());
    assert_eq!(cleared.len(), 0);
    assert!(cleared.contains_column(POS) && cleared.contains_column(VEL));
    assert_eq!(cleared.get_component(POS, row), None);
    assert_eq!(archetype.get_component(POS, row), Some(&1));
}

#[test]
fn insert_entity_hands_out_rows_in_ascending_order() {
    let mut archetype = pos_vel();
    assert_eq!(archetype.insert_entity(id(7)), 0);
    assert_eq!(archetype.insert_entity(id(8)), 1);
    assert_eq!(archetype.insert_entity(id(9)), 2);
    assert_eq!(archetype.len(), 3);
    assert_eq!(archetype.entity_at(1), Some(id(8)));
    assert_eq!(archetype.entity_at(3), None);
    assert_eq!(archetype.get_component(POS, 1), None);
}

#[test]
fn removed_row_is_not_handed_out_again() {
    let mut archetype = pos_vel();
    let first = archetype.insert_entity(id(0));
    let second = archetype.insert_entity(id(1));
    archetype.set_component(POS, id(1), second, 5);
    archetype.remove(first);
    assert_eq!(archetype.len(), 1);
    let third = archetype.insert_entity(id(2));
    assert_eq!(third, 2);
    assert_eq!(archetype.entity_at(second), Some(id(1)));
    assert_eq!(archetype.get_component(POS, second), Some(&5));
    assert_eq!(archetype.rows(), vec![1, 2]);
    assert_eq!(archetype.entity_rows(), vec![(id(1), 1), (id(2), 2)]);
}

#[test]
fn set_component_writes_the_value_and_the_owner() {
    let mut archetype = pos_vel();
    let row = archetype.insert_entity(id(0));
    archetype.set_component(POS, id(0), row, 11);
    archetype.set_component(VEL, id(0), row, 22);
    assert_eq!(archetype.get_component(POS, row), Some(&11));
    assert_eq!(archetype.get_component(VEL, row), Some(&22));
    assert_eq!(archetype.get_component(TAG, row), None);
    archetype.set_component(POS, id(0), row, 12);
    assert_eq!(archetype.get_component(POS, row), Some(&12));
    assert_eq!(archetype.len(), 1);
}

#[test]
fn remove_drops_the_row_from_every_column() {
    let mut archetype = pos_vel();
    let a = archetype.insert_entity(id(0));
    let b = archetype.insert_entity(id(1));
    archetype.set_component(POS, id(0), a, 1);
    archetype.set_component(VEL, id(0), a, 2);
    archetype.set_component(POS, id(1), b, 3);
    archetype.set_component(VEL, id(1), b, 4);
    archetype.remove(a);
    assert_eq!(archetype.len(), 1);
    assert_eq!(archetype.entity_at(a), None);
    assert_eq!(archetype.get_component(POS, a), None);
    assert_eq!(archetype.get_component(VEL, a), None);
    assert_eq!(archetype.get_component(POS, b), Some(&3));
    assert_eq!(archetype.get_component(VEL, b), Some(&4));
}

#[test]
fn move_entity_carries_shared_columns_to_the_new_row() {
    let mut source = ArchetypeStorage::<i32>::empty().extend_with_column(POS);
    let mut target = source.extend_with_column(VEL);
    let filler = target.insert_entity(id(9));
    target.set_component(POS, id(9), filler, 90);
    target.set_component(VEL, id(9), filler, 91);
    let skipped = source.insert_entity(id(0));
    let row = source.insert_entity(id(1));
    source.set_component(POS, id(0), skipped, 70);
    source.set_component(POS, id(1), row, 71);
    let new_row = source.move_entity(&mut target, row);
    assert_eq!(new_row, 1);
    assert_eq!(target.entity_at(new_row), Some(id(1)));
    assert_eq!(target.get_component(POS, new_row), Some(&71));
    assert_eq!(target.get_component(VEL, new_row), None);
    assert_eq!(target.get_component(POS, filler), Some(&90));
    assert_eq!(source.entity_at(row), None);
    assert_eq!(source.get_component(POS, row), None);
    assert_eq!(source.get_component(POS, skipped), Some(&70));
    assert_eq!(source.len(), 1);
    assert_eq!(target.len(), 2);
}

#[test]
fn move_entity_drops_columns_that_the_target_lacks() {
    let mut source = pos_vel();
    let mut target = source.reduce_with_column(VEL);
    let row = source.insert_entity(id(0));
    source.set_component(POS, id(0), row, 1);
    source.set_component(VEL, id(0), row, 2);
    let new_row = source.move_entity(&mut target, row);
    assert_eq!(target.get_component(POS, new_row), Some(&1));
    assert_eq!(target.get_component(VEL, new_row), None);
    assert_eq!(source.get_component(VEL, row), None);
    assert_eq!(source.get_component(POS, row), None);
    assert!(source.is_empty());
}

#[test]
fn archetype_get_component_mut_writes_in_place() {
    let mut archetype = pos_vel();
    let row = archetype.insert_entity(id(0));
    archetype.set_component(POS, id(0), row, 1);
    match archetype.get_component_mut(POS, row) {
        Some(value) => *value += 41,
        None => panic!("the row has a position"),
    }
    assert_eq!(archetype.get_component(POS, row), Some(&42));
    assert!(archetype.get_component_mut(TAG, row).is_none());
    assert!(archetype.get_component_mut(VEL, row).is_none());
}

#[test]
fn column_cursor_yields_values_in_ascending_row_order() {
    let mut archetype = pos_vel();
    for k in 0..4 {
        let row = archetype.insert_entity(id(k));
        archetype.set_component(POS, id(k), row, 10 * (k as i32));
        archetype.set_component(VEL, id(k), row, -(k as i32));
    }
    archetype.remove(1);
    let mut cursor = archetype.iter(POS);
    let mut seen = Vec::new();
    while let Some(value) = cursor.next() {
        seen.push(*value.as_ref());
    }
    assert_eq!(seen, vec![0, 20, 30]);
    let mut none = archetype.iter(TAG);
    assert!(none.next().is_none());
    let mut read = ComponentQuery::new(Read(VEL)).iter(&archetype);
    assert_eq!(read.next().map(|value| *value.deref()), Some(0));
    assert_eq!(read.next().map(|value| *value.deref()), Some(-2));
}

#[test]
fn writing_cursor_changes_the_column() {
    let mut archetype = pos_vel();
    for k in 0..3 {
        let row = archetype.insert_entity(id(k));
        archetype.set_component(POS, id(k), row, k as i32);
        archetype.set_component(VEL, id(k), row, 1);
    }
    {
        let mut cursor = ComponentQuery::new(Write(POS)).iter_mut(&mut archetype);
        while let Some(mut value) = cursor.next() {
            *value.deref_mut() += 100;
        }
    }
    assert_eq!(archetype.get_component(POS, 0), Some(&100));
    assert_eq!(archetype.get_component(POS, 1), Some(&101));
    assert_eq!(archetype.get_component(POS, 2), Some(&102));
    assert_eq!(archetype.get_component(VEL, 2), Some(&1));
    let mut absent = archetype.iter_mut(TAG);
    assert!(absent.next().is_none());
}

#[test]
fn pair_query_zips_the_two_columns() {
    let mut archetype = pos_vel();
    for k in 0..3 {
        let row = archetype.insert_entity(id(k));
        archetype.set_component(POS, id(k), row, k as i32);
        archetype.set_component(VEL, id(k), row, 10 + k as i32);
    }
    let pairs: Vec<(i32, i32)> = ComponentQuery::new((Read(POS), Read(VEL)))
        .iter(&archetype)
        .into_iter()
        .map(|(pos, vel)| (*pos.as_ref(), *vel.as_ref()))
        .collect();
    assert_eq!(pairs, vec![(0, 10), (1, 11), (2, 12)]);
    assert!(ComponentQuery::new((Read(POS), Read(TAG))).iter(&archetype).is_empty());
}

#[test]
fn archetype_clone_is_deep() {
    let mut archetype = pos_vel();
    let row = archetype.insert_entity(id(0));
    archetype.set_component(POS, id(0), row, 1);
    archetype.set_component(VEL, id(0), row, 2);
    let mut copy = archetype.clone();
    copy.set_component(POS, id(0), row, 50);
    copy.remove(row);
    assert_eq!(archetype.get_component(POS, row), Some(&1));
    assert_eq!(archetype.len(), 1);
    assert_eq!(copy.len(), 0);
    assert_eq!(copy.ty(), archetype.ty());
}

#[test]
fn erased_column_moves_a_row_between_columns_of_one_type() {
    let mut source: ErasedPageTable<i32> = ErasedPageTable::new(POS, PageTable::new(0));
    let mut same = source.clone_empty();
    let mut other: ErasedPageTable<i32> = ErasedPageTable::new(VEL, PageTable::new(0));
    source.as_inner_mut().insert(3, 30);
    source.as_inner_mut().insert(4, 40);
    source.move_row(&mut same, 3, 0);
    assert_eq!(source.as_inner().get(3), None);
    assert_eq!(same.as_inner().get(0), Some(&30));
    assert_eq!(same.ty(), POS);
    source.move_row(&mut other, 4, 0);
    assert_eq!(source.as_inner().get(4), None);
    assert_eq!(other.as_inner().get(0), None);
    source.move_row(&mut same, 9, 1);
    assert_eq!(same.as_inner().get(1), None);
    let mut copy = same.clone();
    copy.remove(0);
    assert_eq!(same.as_inner().get(0), Some(&30));
    assert_eq!(copy.as_inner().get(0), None);
}

#[test]
fn default_column_is_the_empty_unit_column() {
    let column: ErasedPageTable<i32> = ErasedPageTable::default();
    assert_eq!(column.ty(), UNIT_TYPE);
    assert!(column.as_inner().rows().is_empty());
}

#[test]
fn archetype_tells_whether_a_row_is_left() {
    let mut archetype = pos_vel();
    assert!(archetype.has_room());
    archetype.insert_entity(id(0));
    assert!(archetype.has_room());
    assert!(!archetype.extends(&ArchetypeStorage::<i32>::empty(), POS));
    assert!(archetype.extends(&ArchetypeStorage::<i32>::empty().extend_with_column(POS), VEL));
}
