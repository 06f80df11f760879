use std::collections::HashSet;

use cecs::entity_id::EntityId;
use cecs::query::{ArchQuery, Fetch, Filter, Query};
use cecs::world::World;
use cecs::TypeKey;

const POS: TypeKey = 1;
const VEL: TypeKey = 2;
const HEALTH: TypeKey = 3;

fn spawn_with(world: &mut World<i32>, components: &[(TypeKey, i32)]) -> EntityId {
    assert!(world.can_spawn());
    let id = world.spawn();
    for (ty, value) in components {
        assert!(world.can_insert_component(id, *ty));
        world.insert_component(id, *ty, *value);
    }
    id
}

fn values(query: &Query<i32>) -> Vec<Vec<Option<i32>>> {
    query
        .iter()
        .into_iter()
        .map(|item| item.values.iter().map(|value| value.map(|r| *r.as_ref())).collect())
        .collect()
}

fn sample() -> (World<i32>, Vec<EntityId>) {
    let mut world: World<i32> = World::new();
    let ids = vec![
        spawn_with(&mut world, &[(POS, 1)]),
        spawn_with(&mut world, &[(POS, 2), (VEL, 20)]),
        spawn_with(&mut world, &[]),
        spawn_with(&mut world, &[(VEL, 30)]),
        spawn_with(&mut world, &[(POS, 4), (VEL, 40), (HEALTH, 400)]),
        spawn_with(&mut world, &[(POS, 5)]),
    ];
    (world, ids)
}

#[test]
fn query_matches_archetypes_that_carry_all_requested_types() {
    let (world, ids) = sample();
    let fetch = ArchQuery::new(vec![Fetch::Entity, Fetch::Read(POS)]);
    let filter = Filter::Any;
    let query = Query::new(&world, &fetch, &filter);
    let found: Vec<EntityId> = query.iter().into_iter().map(|item| item.id).collect();
    assert_eq!(found, vec![ids[0], ids[5], ids[1], ids[4]]);
    assert_eq!(query.count(), 4);
    assert_eq!(
        values(&query),
        vec![vec![None, Some(1)], vec![None, Some(5)], vec![None, Some(2)], vec![None, Some(4)]]
    );
}

#[test]
fn query_lists_matching_archetypes_in_ascending_handle_order() {
    let (world, _) = sample();
    let fetch = ArchQuery::new(vec![Fetch::Read(VEL)]);
    let filter = Filter::Any;
    let query = Query::new(&world, &fetch, &filter);
    let handles = query.archetypes().clone();
    assert!(handles.windows(2).all(|pair| pair[0] < pair[1]));
    for handle in 0..world.archetype_count() {
        assert_eq!(handles.contains(&handle), world.archetype(handle).contains_column(VEL));
    }
}

#[test]
fn query_for_the_id_alone_matches_every_entity() {
    let (world, ids) = sample();
    let fetch = ArchQuery::new(vec![Fetch::Entity]);
    let filter = Filter::Any;
    let query = Query::new(&world, &fetch, &filter);
    let found: HashSet<EntityId> = query.iter().into_iter().map(|item| item.id).collect();
    assert_eq!(found, ids.into_iter().collect::<HashSet<EntityId>>());
}

#[test]
fn filters_narrow_the_matching_archetypes() {
    let (world, ids) = sample();
    let fetch = ArchQuery::new(vec![Fetch::Read(POS)]);
    let with = Filter::With(VEL);
    let without = Filter::Without(VEL);
    let both = Filter::And(Box::new(Filter::With(VEL)), Box::new(Filter::Without(HEALTH)));
    let either = Filter::Or(Box::new(Filter::With(HEALTH)), Box::new(Filter::Without(VEL)));
    let ids_of = |filter: &Filter| -> Vec<EntityId> {
        Query::new(&world, &fetch, filter).iter().into_iter().map(|item| item.id).collect()
    };
    assert_eq!(ids_of(&with), vec![ids[1], ids[4]]);
    assert_eq!(ids_of(&without), vec![ids[0], ids[5]]);
    assert_eq!(ids_of(&both), vec![ids[1]]);
    assert_eq!(ids_of(&either), vec![ids[0], ids[5], ids[4]]);
}

#[test]
fn query_items_name_the_location_of_the_entity() {
    let (world, _) = sample();
    let fetch = ArchQuery::new(vec![Fetch::Write(POS), Fetch::Read(VEL)]);
    let filter = Filter::Any;
    let query = Query::new(&world, &fetch, &filter);
    for item in query.iter() {
        let loc = world.location(item.id).unwrap();
        assert_eq!((loc.archetype, loc.row), (item.archetype, item.row));
        assert_eq!(item.values[0].map(|r| *r.as_ref()), world.get_component(item.id, POS).copied());
        assert_eq!(item.values[1].map(|r| *r.as_ref()), world.get_component(item.id, VEL).copied());
    }
}

#[test]
fn query_skips_rows_of_despawned_entities() {
    let (mut world, ids) = sample();
    world.despawn(ids[0]);
    let fetch = ArchQuery::new(vec![Fetch::Read(POS)]);
    let filter = Filter::Any;
    let query = Query::new(&world, &fetch, &filter);
    let found: Vec<EntityId> = query.iter().into_iter().map(|item| item.id).collect();
    assert_eq!(found, vec![ids[5], ids[1], ids[4]]);
}

#[test]
fn access_sets_list_reads_and_writes() {
    let fetch = ArchQuery::new(vec![Fetch::Read(POS), Fetch::Write(VEL), Fetch::Entity, Fetch::Read(HEALTH)]);
    let mut reads = HashSet::new();
    let mut writes = HashSet::new();
    fetch.types_const(&mut reads);
    assert!(fetch.can_types_mut(&writes));
    fetch.types_mut(&mut writes);
    assert_eq!(reads, HashSet::from([POS, HEALTH]));
    assert_eq!(writes, HashSet::from([VEL]));
    assert!(!fetch.can_types_mut(&writes));
    assert!(fetch.asks_for(POS) && fetch.asks_for(VEL) && !fetch.asks_for(77));
    assert!(fetch.is_sound());
}

#[test]
fn writing_one_type_twice_is_refused() {
    let twice = ArchQuery::new(vec![Fetch::Write(POS), Fetch::Read(VEL), Fetch::Write(POS)]);
    assert!(!twice.can_types_mut(&HashSet::new()));
    assert!(!twice.is_sound());
    let read_and_write = ArchQuery::new(vec![Fetch::Read(POS), Fetch::Write(POS)]);
    assert!(read_and_write.can_types_mut(&HashSet::new()));
    assert!(!read_and_write.is_sound());
    let reads = ArchQuery::new(vec![Fetch::Read(POS), Fetch::Read(POS)]);
    assert!(reads.is_sound());
}
