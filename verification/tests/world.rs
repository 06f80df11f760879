use cecs::commands::{Bundle, Command, Commands};
use cecs::entity_id::{EntityId, Location};
use cecs::world::World;
use cecs::{hash_ty, TypeKey, UNIT_TYPE};

const POS: TypeKey = 1;
const VEL: TypeKey = 2;
const HEALTH: TypeKey = 3;
const ZERO_HASH: TypeKey = 0x61c8864680b583eb;

fn give(world: &mut World<i32>, id: EntityId, ty: TypeKey, value: i32) {
    assert!(world.can_insert_component(id, ty));
    world.insert_component(id, ty, value);
}

fn take(world: &mut World<i32>, id: EntityId, ty: TypeKey) {
    assert!(world.can_remove_component(id, ty));
    world.remove_component(id, ty);
}

fn spawn(world: &mut World<i32>) -> EntityId {
    assert!(world.can_spawn());
    world.spawn()
}

#[test]
fn new_world_holds_the_empty_archetype() {
    let world: World<i32> = World::new();
    assert_eq!(world.archetype_count(), 1);
    assert!(world.can_spawn());
    assert_eq!(world.archetype(0).ty(), hash_ty(UNIT_TYPE));
    assert_eq!(world.find_archetype(hash_ty(UNIT_TYPE)), Some(0));
    assert_eq!(world.find_archetype(hash_ty(POS)), None);
    assert_eq!(world.get_resource(POS), None);
}

#[test]
fn spawn_places_the_entity_in_the_empty_archetype() {
    let mut world: World<i32> = World::new();
    let a = spawn(&mut world);
    let b = spawn(&mut world);
    assert_ne!(a, b);
    assert!(world.is_alive(a) && world.is_alive(b));
    assert_eq!(world.location(a), Some(Location { archetype: 0, row: 0 }));
    assert_eq!(world.location(b), Some(Location { archetype: 0, row: 1 }));
    assert_eq!(world.archetype(0).len(), 2);
    assert_eq!(world.get_component(a, POS), None);
}

#[test]
fn despawn_of_a_handle_that_is_not_live_changes_nothing() {
    let mut world: World<i32> = World::new();
    let a = spawn(&mut world);
    give(&mut world, a, POS, 1);
    let stranger = EntityId { index: 10, gen: 0 };
    world.despawn(stranger);
    assert!(!world.is_alive(stranger));
    assert!(!world.is_stale(stranger));
    world.despawn(a);
    world.despawn(a);
    assert!(world.is_stale(a));
    let b = spawn(&mut world);
    assert_eq!(b.index, a.index);
    assert_ne!(b.gen, a.gen);
    world.despawn(a);
    assert!(world.is_alive(b));
}

#[test]
fn insert_component_creates_the_archetype_once() {
    let mut world: World<i32> = World::new();
    let a = spawn(&mut world);
    let b = spawn(&mut world);
    give(&mut world, a, POS, 1);
    assert_eq!(world.archetype_count(), 2);
    give(&mut world, b, POS, 2);
    assert_eq!(world.archetype_count(), 2);
    assert_eq!(world.location(a), Some(Location { archetype: 1, row: 0 }));
    assert_eq!(world.location(b), Some(Location { archetype: 1, row: 1 }));
    assert_eq!(world.archetype(1).ty(), hash_ty(UNIT_TYPE) ^ hash_ty(POS));
    assert_eq!(world.find_archetype(hash_ty(UNIT_TYPE) ^ hash_ty(POS)), Some(1));
    assert_eq!(world.archetype(0).len(), 0);
    assert_eq!(world.get_component(a, POS), Some(&1));
    assert_eq!(world.get_component(b, POS), Some(&2));
}

#[test]
fn insert_component_keeps_what_the_entity_had() {
    let mut world: World<i32> = World::new();
    let a = spawn(&mut world);
    let other = spawn(&mut world);
    give(&mut world, a, POS, 7);
    give(&mut world, other, POS, 8);
    give(&mut world, a, VEL, 9);
    give(&mut world, a, HEALTH, 10);
    assert_eq!(world.get_component(a, POS), Some(&7));
    assert_eq!(world.get_component(a, VEL), Some(&9));
    assert_eq!(world.get_component(a, HEALTH), Some(&10));
    assert_eq!(world.get_component(other, POS), Some(&8));
    assert_eq!(world.get_component(other, VEL), None);
}

#[test]
fn insert_then_remove_gives_the_entity_its_earlier_components() {
    let mut world: World<i32> = World::new();
    let a = spawn(&mut world);
    let b = spawn(&mut world);
    give(&mut world, a, POS, 7);
    give(&mut world, b, POS, 70);
    give(&mut world, a, VEL, 9);
    take(&mut world, a, VEL);
    assert_eq!(world.get_component(a, POS), Some(&7));
    assert_eq!(world.get_component(a, VEL), None);
    assert_eq!(world.get_component(b, POS), Some(&70));
    assert_eq!(world.location(a).map(|loc| loc.archetype), world.location(b).map(|loc| loc.archetype));
    assert_ne!(world.location(a).map(|loc| loc.row), world.location(b).map(|loc| loc.row));
}

#[test]
fn remove_of_the_last_component_returns_to_the_empty_archetype() {
    let mut world: World<i32> = World::new();
    let a = spawn(&mut world);
    give(&mut world, a, POS, 7);
    take(&mut world, a, POS);
    assert_eq!(world.location(a).map(|loc| loc.archetype), Some(0));
    assert_eq!(world.get_component(a, POS), None);
    assert!(world.is_alive(a));
}

#[test]
fn readiness_checks_tell_what_cannot_be_done() {
    let mut world: World<i32> = World::new();
    let a = spawn(&mut world);
    give(&mut world, a, POS, 1);
    assert!(!world.can_insert_component(a, POS));
    assert!(!world.can_insert_component(a, UNIT_TYPE));
    assert!(!world.can_remove_component(a, VEL));
    assert!(!world.can_remove_component(a, UNIT_TYPE));
    assert!(world.can_remove_component(a, POS));
    let stranger = EntityId { index: 5, gen: 0 };
    assert!(!world.can_insert_component(stranger, POS));
    assert!(!world.can_remove_component(stranger, POS));
}

#[test]
fn type_whose_hash_is_zero_collides_and_is_refused() {
    assert_eq!(hash_ty(ZERO_HASH), 0);
    let mut world: World<i32> = World::new();
    let a = spawn(&mut world);
    assert!(!world.can_insert_component(a, ZERO_HASH));
    assert!(!world.set_component(a, ZERO_HASH, 1));
    assert_eq!(world.get_component(a, ZERO_HASH), None);
    assert_eq!(world.archetype_count(), 1);
}

#[test]
fn world_get_component_mut_writes_in_place() {
    let mut world: World<i32> = World::new();
    let a = spawn(&mut world);
    let b = spawn(&mut world);
    give(&mut world, a, POS, 1);
    give(&mut world, b, POS, 2);
    match world.get_component_mut(a, POS) {
        Some(value) => *value = 100,
        None => panic!("the entity has a position"),
    }
    assert_eq!(world.get_component(a, POS), Some(&100));
    assert_eq!(world.get_component(b, POS), Some(&2));
    assert!(world.get_component_mut(a, VEL).is_none());
    world.despawn(a);
    assert!(world.get_component_mut(a, POS).is_none());
}

#[test]
fn resources_are_stored_by_type() {
    let mut world: World<i32> = World::new();
    world.insert_resource(POS, 5);
    world.insert_resource(VEL, 6);
    assert_eq!(world.get_resource(POS), Some(&5));
    world.insert_resource(POS, 7);
    assert_eq!(world.get_resource(POS), Some(&7));
    match world.get_resource_mut(VEL) {
        Some(value) => *value += 1,
        None => panic!("the resource is there"),
    }
    assert_eq!(world.get_resource(VEL), Some(&7));
    assert!(world.get_resource_mut(HEALTH).is_none());
    assert_eq!(world.remove_resource(POS), Some(7));
    assert_eq!(world.remove_resource(POS), None);
    assert_eq!(world.get_resource(POS), None);
    assert_eq!(world.get_resource(VEL), Some(&7));
}

#[test]
fn set_component_adds_or_replaces() {
    let mut world: World<i32> = World::new();
    let a = spawn(&mut world);
    assert!(world.set_component(a, POS, 1));
    assert_eq!(world.get_component(a, POS), Some(&1));
    assert!(world.set_component(a, POS, 2));
    assert_eq!(world.get_component(a, POS), Some(&2));
    assert_eq!(world.archetype_count(), 2);
    world.despawn(a);
    assert!(!world.set_component(a, POS, 3));
    assert!(!world.set_component(a, UNIT_TYPE, 3));
}

#[test]
fn bundle_gives_all_its_components() {
    let mut world: World<i32> = World::new();
    let a = spawn(&mut world);
    let bundle = Bundle::new().with(POS, 1).with(VEL, 2).with(POS, 3);
    world.insert_bundle(a, bundle);
    assert_eq!(world.get_component(a, POS), Some(&3));
    assert_eq!(world.get_component(a, VEL), Some(&2));
    assert_eq!(world.get_component(a, HEALTH), None);
}

#[test]
fn commands_are_applied_first_in_first_out() {
    let mut world: World<i32> = World::new();
    let a = spawn(&mut world);
    let mut commands: Commands<i32> = Commands::new();
    assert!(commands.is_empty());
    commands.insert(a, POS, 1);
    commands.insert(a, POS, 2);
    commands.insert(a, VEL, 3);
    commands.remove(a, VEL);
    commands.insert_resource(HEALTH, 10);
    commands.insert_resource(HEALTH, 11);
    commands.remove_resource(POS);
    commands.push(Command::Insert(a, HEALTH, 4));
    assert_eq!(commands.len(), 8);
    world.apply_commands(commands);
    assert_eq!(world.get_component(a, POS), Some(&2));
    assert_eq!(world.get_component(a, VEL), None);
    assert_eq!(world.get_component(a, HEALTH), Some(&4));
    assert_eq!(world.get_resource(HEALTH), Some(&11));
}

#[test]
fn commands_for_entities_that_are_gone_are_dropped() {
    let mut world: World<i32> = World::new();
    let a = spawn(&mut world);
    let b = spawn(&mut world);
    give(&mut world, b, POS, 5);
    let mut commands: Commands<i32> = Commands::new();
    commands.despawn(a);
    commands.insert(a, POS, 1);
    commands.remove(a, POS);
    commands.despawn(a);
    commands.remove(b, VEL);
    world.apply_commands(commands);
    assert!(!world.is_alive(a));
    assert!(world.is_stale(a));
    assert_eq!(world.get_component(a, POS), None);
    assert_eq!(world.get_component(b, POS), Some(&5));
}

#[test]
fn spawn_bundle_command_spawns_with_components() {
    let mut world: World<i32> = World::new();
    let mut commands: Commands<i32> = Commands::new();
    commands.spawn_bundle(Bundle::new().with(POS, 1).with(VEL, 2));
    commands.spawn_bundle(Bundle::new());
    world.apply_command(Command::SpawnBundle(Bundle::new().with(POS, 9)));
    world.apply_commands(commands);
    let first = EntityId { index: 0, gen: 0 };
    let second = EntityId { index: 1, gen: 0 };
    let third = EntityId { index: 2, gen: 0 };
    assert_eq!(world.get_component(first, POS), Some(&9));
    assert_eq!(world.get_component(second, POS), Some(&1));
    assert_eq!(world.get_component(second, VEL), Some(&2));
    assert!(world.is_alive(third));
    assert_eq!(world.get_component(third, POS), None);
}

#[test]
fn every_column_has_a_value_at_every_live_row() {
    let mut world: World<i32> = World::new();
    let mut ids = Vec::new();
    for k in 0..6 {
        let id = spawn(&mut world);
        give(&mut world, id, POS, k);
        if k % 2 == 0 {
            give(&mut world, id, VEL, 10 * k);
        }
        if k % 3 == 0 {
            give(&mut world, id, HEALTH, 100 * k);
        }
        ids.push(id);
    }
    world.despawn(ids[2]);
    take(&mut world, ids[4], POS);
    for handle in 0..world.archetype_count() {
        let archetype = world.archetype(handle);
        let rows = archetype.rows();
        assert_eq!(rows.len(), archetype.len());
        for ty in archetype.type_keys() {
            if ty == UNIT_TYPE {
                continue;
            }
            for row in 0..20u32 {
                assert_eq!(archetype.get_component(ty, row).is_some(), rows.contains(&row));
            }
        }
    }
}

#[test]
fn archetype_hash_is_the_xor_of_its_column_hashes() {
    let mut world: World<i32> = World::new();
    let a = spawn(&mut world);
    give(&mut world, a, POS, 1);
    give(&mut world, a, VEL, 2);
    give(&mut world, a, HEALTH, 3);
    take(&mut world, a, POS);
    for handle in 0..world.archetype_count() {
        let archetype = world.archetype(handle);
        let mut hash = 0;
        for ty in archetype.type_keys() {
            hash ^= hash_ty(ty);
        }
        assert_eq!(archetype.ty(), hash);
        assert_eq!(world.find_archetype(hash), Some(handle));
    }
    assert_eq!(world.archetype_count(), 5);
}

#[test]
fn index_entry_names_the_row_of_the_entity() {
    let mut world: World<i32> = World::new();
    let mut ids = Vec::new();
    for k in 0..5 {
        let id = spawn(&mut world);
        if k > 0 {
            give(&mut world, id, POS, k);
        }
        if k > 2 {
            give(&mut world, id, VEL, k);
        }
        ids.push(id);
    }
    world.despawn(ids[1]);
    take(&mut world, ids[3], POS);
    for id in ids {
        match world.location(id) {
            Some(loc) => assert_eq!(world.archetype(loc.archetype).entity_at(loc.row), Some(id)),
            None => assert!(world.is_stale(id)),
        }
    }
    let mut live = 0;
    for handle in 0..world.archetype_count() {
        let archetype = world.archetype(handle);
        for row in archetype.rows() {
            let id = archetype.entity_at(row).unwrap();
            assert_eq!(world.location(id), Some(Location { archetype: handle, row }));
            live += 1;
        }
    }
    assert_eq!(live, 4);
}

#[test]
fn command_queue_keeps_the_order_of_its_commands() {
    let mut commands: Commands<i32> = Commands::new();
    commands.despawn(EntityId { index: 1, gen: 0 });
    commands.insert_resource(POS, 4);
    commands.remove_resource(VEL);
    let queue = commands.into_queue();
    assert_eq!(queue.len(), 3);
    assert!(matches!(queue[0], Command::Despawn(EntityId { index: 1, gen: 0 })));
    assert!(matches!(queue[1], Command::InsertResource(POS, 4)));
    assert!(matches!(queue[2], Command::RemoveResource(VEL)));
}
