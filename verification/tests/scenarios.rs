use std::cell::RefCell;
use std::rc::Rc;

use cecs::commands::{Bundle, Commands};
use cecs::entity_id::EntityId;
use cecs::query::{ArchQuery, Fetch, Filter, Query, QueryDesc};
use cecs::systems::{build, is_admissible, ErasedSystem, Param, SystemStage, WorldQuery};
use cecs::world::World;
use cecs::{hash_ty, TypeKey, UNIT_TYPE};

const POS: TypeKey = 1;
const VEL: TypeKey = 2;
const HEALTH: TypeKey = 3;
const A: TypeKey = 4;
const B: TypeKey = 5;

type Run = Box<dyn for<'a> Fn(Vec<WorldQuery<'a, i32>>) -> Commands<i32>>;

fn spawn_with(world: &mut World<i32>, components: &[(TypeKey, i32)]) -> EntityId {
    assert!(world.can_spawn());
    let id = world.spawn();
    for (ty, value) in components {
        assert!(world.can_insert_component(id, *ty));
        world.insert_component(id, *ty, *value);
    }
    id
}

fn read(world: &World<i32>, types: &[TypeKey]) -> Vec<Vec<i32>> {
    let fetch = ArchQuery::new(types.iter().map(|ty| Fetch::Read(*ty)).collect());
    let filter = Filter::Any;
    Query::new(world, &fetch, &filter)
        .iter()
        .into_iter()
        .map(|item| item.values.iter().map(|value| *value.unwrap().as_ref()).collect())
        .collect()
}

#[test]
fn spawn_then_despawn() {
    let mut world: World<i32> = World::new();
    assert!(world.can_spawn());
    let e = world.spawn();
    for ty in [UNIT_TYPE, POS, VEL, HEALTH, 1000, u64::MAX] {
        assert_eq!(world.get_component(e, ty), None);
    }
    assert!(world.is_alive(e));
    assert!(!world.is_stale(e));
    world.despawn(e);
    for ty in [UNIT_TYPE, POS, VEL, HEALTH, 1000, u64::MAX] {
        assert_eq!(world.get_component(e, ty), None);
    }
    assert!(!world.is_alive(e));
    assert_eq!(world.location(e), None);
    assert!(world.is_stale(e));
}

#[test]
fn single_archetype_iteration() {
    let mut world: World<i32> = World::new();
    spawn_with(&mut world, &[(POS, 1), (VEL, 2)]);
    spawn_with(&mut world, &[(POS, 3), (VEL, 4)]);
    assert_eq!(read(&world, &[POS, VEL]), vec![vec![1, 2], vec![3, 4]]);
}

#[test]
fn archetype_migration() {
    let mut world: World<i32> = World::new();
    let e = spawn_with(&mut world, &[(POS, 7)]);
    assert_eq!(read(&world, &[POS]), vec![vec![7]]);
    assert!(world.can_insert_component(e, VEL));
    world.insert_component(e, VEL, 9);
    assert_eq!(read(&world, &[POS]), vec![vec![7]]);
    assert_eq!(read(&world, &[POS, VEL]), vec![vec![7, 9]]);
}

#[test]
fn hash_equality_of_archetype_sets() {
    let mut world: World<i32> = World::new();
    let first = spawn_with(&mut world, &[(A, 1), (B, 2)]);
    let second = spawn_with(&mut world, &[(B, 20), (A, 10)]);
    let one = world.location(first).unwrap();
    let other = world.location(second).unwrap();
    assert_eq!(one.archetype, other.archetype);
    assert_ne!(one.row, other.row);
    let hash = hash_ty(UNIT_TYPE) ^ hash_ty(A) ^ hash_ty(B);
    assert_eq!(world.archetype(one.archetype).ty(), hash);
    assert_eq!(world.find_archetype(hash), Some(one.archetype));
    assert_eq!(world.get_component(first, A), Some(&1));
    assert_eq!(world.get_component(second, A), Some(&10));
    assert_eq!(world.archetype_count(), 4);
}

#[test]
fn query_set_overlap() {
    let write = || QueryDesc { fetch: ArchQuery::new(vec![Fetch::Entity, Fetch::Write(HEALTH)]), filter: Filter::Any };
    let shared = || QueryDesc { fetch: ArchQuery::new(vec![Fetch::Entity, Fetch::Read(HEALTH)]), filter: Filter::Any };
    let in_set = vec![Param::QuerySet(vec![write(), shared()])];
    let plain = vec![Param::Query(write()), Param::Query(shared())];
    assert!(!is_admissible(&plain));
    assert!(is_admissible(&in_set));
    let run: Run = Box::new(|_args| Commands::new());
    let system = ErasedSystem::new(in_set, run);
    assert!(system.writes_component(HEALTH));
    assert!(system.reads_component(HEALTH));
    let stage = SystemStage::new().with_system(system);
    assert_eq!(stage.len(), 1);

    let mut world: World<i32> = World::new();
    let a = spawn_with(&mut world, &[(HEALTH, 10)]);
    spawn_with(&mut world, &[(POS, 1)]);
    let b = spawn_with(&mut world, &[(HEALTH, 20), (POS, 2)]);
    let args = build(stage.systems[0].parameters(), &world);
    match &args[0] {
        WorldQuery::QuerySet(set) => {
            let through_first: Vec<EntityId> = set.q0().iter().into_iter().map(|item| item.id).collect();
            let through_second: Vec<EntityId> = set.q1().iter().into_iter().map(|item| item.id).collect();
            assert_eq!(through_first, vec![a, b]);
            assert_eq!(through_second, through_first);
        },
        _ => panic!("a query set was asked for"),
    }
}

#[test]
fn command_determinism() {
    let seen: Rc<RefCell<Vec<(EntityId, i32)>>> = Rc::new(RefCell::new(Vec::new()));
    let spawner: Run = Box::new(|_args| {
        let mut commands = Commands::new();
        commands.spawn_bundle(Bundle::new().with(POS, 10));
        commands.spawn_bundle(Bundle::new().with(POS, 20));
        commands.spawn_bundle(Bundle::new().with(POS, 30));
        commands
    });
    let sink = seen.clone();
    let reader: Run = Box::new(move |args| {
        match &args[0] {
            WorldQuery::Query(query) => {
                for item in query.iter() {
                    sink.borrow_mut().push((item.id, *item.values[1].unwrap().as_ref()));
                }
            },
            _ => panic!("a query was asked for"),
        }
        Commands::new()
    });
    let reads = vec![Param::Query(QueryDesc {
        fetch: ArchQuery::new(vec![Fetch::Entity, Fetch::Read(POS)]),
        filter: Filter::Any,
    })];
    assert!(is_admissible(&reads));
    let stage = SystemStage::new()
        .with_system(ErasedSystem::new(vec![Param::Commands], spawner))
        .with_system(ErasedSystem::new(reads, reader));
    let mut world: World<i32> = World::new();
    world.run_stage(&stage);
    let first = EntityId { index: 0, gen: 0 };
    let second = EntityId { index: 1, gen: 0 };
    let third = EntityId { index: 2, gen: 0 };
    assert_eq!(*seen.borrow(), vec![(first, 10), (second, 20), (third, 30)]);
    assert!(world.is_alive(first) && world.is_alive(second) && world.is_alive(third));
    assert_eq!(world.get_component(third, POS), Some(&30));
}

#[test]
fn stage_applies_commands_of_each_system_before_the_next_runs() {
    let log: Rc<RefCell<Vec<usize>>> = Rc::new(RefCell::new(Vec::new()));
    let count = |log: Rc<RefCell<Vec<usize>>>| -> Run {
        Box::new(move |args| {
            let found = match &args[0] {
                WorldQuery::Query(query) => query.iter(),
                _ => panic!("a query was asked for"),
            };
            log.borrow_mut().push(found.len());
            let mut commands = Commands::new();
            for item in &found {
                commands.insert(item.id, VEL, 1);
                commands.remove(item.id, POS);
            }
            commands.spawn_bundle(Bundle::new().with(POS, 0));
            commands
        })
    };
    let params = || {
        vec![
            Param::Query(QueryDesc {
                fetch: ArchQuery::new(vec![Fetch::Entity]),
                filter: Filter::With(POS),
            }),
            Param::Commands,
        ]
    };
    let stage = SystemStage::new()
        .with_system(ErasedSystem::new(params(), count(log.clone())))
        .with_system(ErasedSystem::new(params(), count(log.clone())))
        .with_system(ErasedSystem::new(params(), count(log.clone())));
    let mut world: World<i32> = World::new();
    spawn_with(&mut world, &[(POS, 1)]);
    spawn_with(&mut world, &[(POS, 2)]);
    world.run_stage(&stage);
    assert_eq!(*log.borrow(), vec![2, 1, 1]);
    assert_eq!(read(&world, &[VEL]).len(), 4);
    assert_eq!(read(&world, &[POS]), vec![vec![0]]);
}
