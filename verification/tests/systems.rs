use std::collections::HashSet;

use cecs::commands::Commands;
use cecs::query::{ArchQuery, Fetch, Filter, QueryDesc};
use cecs::query_set::QuerySet;
use cecs::systems::{build, is_admissible, ErasedSystem, IntoSystem, Param, SystemStage, WorldQuery};
use cecs::world::World;
use cecs::TypeKey;

const POS: TypeKey = 1;
const VEL: TypeKey = 2;
const HEALTH: TypeKey = 3;
const TIME: TypeKey = 10;

type Run = fn(Vec<WorldQuery<i32>>) -> Commands<i32>;

fn idle(_args: Vec<WorldQuery<i32>>) -> Commands<i32> {
    Commands::new()
}

fn desc(fetches: Vec<Fetch>) -> QueryDesc {
    QueryDesc { fetch: ArchQuery::new(fetches), filter: Filter::Any }
}

fn system(params: Vec<Param>) -> ErasedSystem<Run> {
    assert!(is_admissible(&params));
    ErasedSystem::new(params, idle as Run)
}

#[test]
fn system_sets_are_the_unions_over_its_parameters() {
    let s = system(vec![
        Param::Query(desc(vec![Fetch::Write(POS), Fetch::Read(VEL)])),
        Param::Query(desc(vec![Fetch::Read(VEL), Fetch::Read(HEALTH)])),
        Param::Res(TIME),
        Param::ResMut(11),
        Param::Commands,
    ]);
    assert!(s.writes_component(POS) && !s.writes_component(VEL) && !s.writes_component(HEALTH));
    assert!(s.reads_component(VEL) && s.reads_component(HEALTH) && !s.reads_component(POS));
    assert!(s.reads_resource(TIME) && !s.reads_resource(11));
    assert!(s.writes_resource(11) && !s.writes_resource(TIME));
    assert_eq!(s.parameters().len(), 5);
}

#[test]
fn parameters_that_alias_are_not_admissible() {
    let write_write = vec![
        Param::Query(desc(vec![Fetch::Write(POS)])),
        Param::Query(desc(vec![Fetch::Write(POS)])),
    ];
    let read_write = vec![
        Param::Query(desc(vec![Fetch::Read(POS)])),
        Param::Query(desc(vec![Fetch::Write(POS)])),
    ];
    let within_one = vec![Param::Query(desc(vec![Fetch::Write(POS), Fetch::Write(POS)]))];
    let resources = vec![Param::ResMut(TIME), Param::Res(TIME)];
    let twice_mut = vec![Param::ResMut(TIME), Param::ResMut(TIME)];
    let set_and_query = vec![
        Param::QuerySet(vec![desc(vec![Fetch::Write(POS)]), desc(vec![Fetch::Read(POS)])]),
        Param::Query(desc(vec![Fetch::Read(POS)])),
    ];
    assert!(!is_admissible(&write_write));
    assert!(!is_admissible(&read_write));
    assert!(!is_admissible(&within_one));
    assert!(!is_admissible(&resources));
    assert!(!is_admissible(&twice_mut));
    assert!(!is_admissible(&set_and_query));
}

#[test]
fn parameters_that_share_reads_are_admissible() {
    let params = vec![
        Param::Query(desc(vec![Fetch::Read(POS), Fetch::Write(VEL)])),
        Param::Query(desc(vec![Fetch::Read(POS), Fetch::Write(HEALTH)])),
        Param::Res(TIME),
        Param::Res(TIME),
        Param::Commands,
        Param::Commands,
    ];
    assert!(is_admissible(&params));
    assert!(is_admissible(&Vec::new()));
    assert!(params[0].is_sound());
    assert!(!params[0].clashes_with(&params[1]));
    assert!(params[0].asks_for(POS) && !params[0].asks_for(HEALTH));
}

#[test]
fn parameter_access_functions_add_their_types() {
    let param = Param::QuerySet(vec![
        desc(vec![Fetch::Write(POS), Fetch::Read(VEL)]),
        desc(vec![Fetch::Write(POS), Fetch::Read(HEALTH)]),
    ]);
    let mut writes = HashSet::from([VEL]);
    let mut reads = HashSet::new();
    assert!(param.can_components_mut(&writes));
    param.components_mut(&mut writes);
    param.components_const(&mut reads);
    assert_eq!(writes, HashSet::from([VEL, POS]));
    assert_eq!(reads, HashSet::from([VEL, HEALTH]));
    assert!(!param.can_components_mut(&writes));
    let mut res_reads = HashSet::new();
    let mut res_writes = HashSet::new();
    Param::Res(TIME).resources_const(&mut res_reads);
    Param::Res(TIME).resources_mut(&mut res_writes);
    Param::ResMut(11).resources_mut(&mut res_writes);
    param.resources_const(&mut res_reads);
    assert_eq!(res_reads, HashSet::from([TIME]));
    assert_eq!(res_writes, HashSet::from([11]));
}

#[test]
fn query_set_access_is_the_union_of_its_queries() {
    let descs = vec![
        desc(vec![Fetch::Write(HEALTH)]),
        desc(vec![Fetch::Read(HEALTH), Fetch::Read(POS)]),
        desc(vec![Fetch::Write(HEALTH), Fetch::Write(VEL)]),
    ];
    let mut writes = HashSet::new();
    let mut reads = HashSet::new();
    assert!(QuerySet::<i32>::can_components_mut(&descs, &writes));
    QuerySet::<i32>::components_mut(&descs, &mut writes);
    QuerySet::<i32>::components_const(&descs, &mut reads);
    assert_eq!(writes, HashSet::from([HEALTH, VEL]));
    assert_eq!(reads, HashSet::from([HEALTH, POS]));
    let mut resources = HashSet::from([TIME]);
    QuerySet::<i32>::resources_mut(&descs, &mut resources);
    QuerySet::<i32>::resources_const(&descs, &mut resources);
    assert_eq!(resources, HashSet::from([TIME]));
    assert!(!QuerySet::<i32>::can_components_mut(&descs, &HashSet::from([VEL])));
    let twice = vec![desc(vec![Fetch::Write(POS), Fetch::Write(POS)])];
    assert!(!QuerySet::<i32>::can_components_mut(&twice, &HashSet::new()));
}

#[test]
fn systems_conflict_when_one_writes_what_the_other_touches() {
    let writes_pos = system(vec![Param::Query(desc(vec![Fetch::Write(POS)]))]);
    let reads_pos = system(vec![Param::Query(desc(vec![Fetch::Read(POS)]))]);
    let reads_pos_too = system(vec![Param::Query(desc(vec![Fetch::Read(POS), Fetch::Read(VEL)]))]);
    let writes_vel = system(vec![Param::Query(desc(vec![Fetch::Write(VEL)]))]);
    let writes_time = system(vec![Param::ResMut(TIME)]);
    let reads_time = system(vec![Param::Res(TIME)]);
    assert!(writes_pos.conflicts_with(&reads_pos));
    assert!(reads_pos.conflicts_with(&writes_pos));
    assert!(writes_pos.conflicts_with(&writes_pos));
    assert!(!reads_pos.conflicts_with(&reads_pos_too));
    assert!(!writes_pos.conflicts_with(&writes_vel));
    assert!(writes_vel.conflicts_with(&reads_pos_too));
    assert!(writes_time.conflicts_with(&reads_time));
    assert!(reads_time.conflicts_with(&writes_time));
    assert!(!reads_time.conflicts_with(&reads_time));
    assert!(!writes_time.conflicts_with(&writes_pos));
}

#[test]
fn conflicting_systems_never_share_a_batch() {
    let stage = SystemStage::new()
        .with_system(system(vec![Param::Query(desc(vec![Fetch::Write(POS)]))]))
        .with_system(system(vec![Param::Query(desc(vec![Fetch::Write(VEL)]))]))
        .with_system(system(vec![Param::Query(desc(vec![Fetch::Read(POS), Fetch::Read(VEL)]))]))
        .with_system(system(vec![Param::Query(desc(vec![Fetch::Read(POS)]))]))
        .with_system(system(vec![Param::Query(desc(vec![Fetch::Write(POS)]))]))
        .with_system(system(vec![Param::Query(desc(vec![Fetch::Read(HEALTH)]))]));
    let batches = stage.batches();
    assert_eq!(batches, vec![0, 0, 1, 1, 2, 0]);
    for i in 0..stage.len() {
        for j in 0..stage.len() {
            if i != j && stage.systems[i].conflicts_with(&stage.systems[j]) {
                assert_ne!(batches[i], batches[j]);
                assert_eq!(batches[i] < batches[j], i < j);
            }
        }
    }
}

#[test]
fn stage_keeps_systems_in_the_order_they_were_added() {
    let stage: SystemStage<Run> = SystemStage::new();
    assert_eq!(stage.len(), 0);
    assert!(stage.batches().is_empty());
    let params = vec![Param::Query(desc(vec![Fetch::Write(POS)]))];
    assert!(is_admissible(&params));
    let stage = stage
        .with_system((params, idle as Run))
        .with_system(system(vec![Param::Res(TIME)]));
    assert_eq!(stage.len(), 2);
    assert!(stage.systems[0].writes_component(POS));
    assert!(stage.systems[1].reads_resource(TIME));
    let made = (vec![Param::ResMut(TIME)], idle as Run).system();
    assert!(made.writes_resource(TIME));
}

#[test]
fn system_clone_keeps_parameters_and_sets() {
    let original = system(vec![
        Param::Query(desc(vec![Fetch::Write(POS), Fetch::Read(VEL)])),
        Param::QuerySet(vec![desc(vec![Fetch::Read(HEALTH)])]),
        Param::ResMut(TIME),
    ]);
    let copy = original.clone();
    assert_eq!(copy.parameters().len(), 3);
    assert!(copy.writes_component(POS) && copy.reads_component(VEL) && copy.reads_component(HEALTH));
    assert!(copy.writes_resource(TIME) && !copy.reads_resource(TIME));
    assert!(!copy.writes_component(VEL));
    assert!(copy.conflicts_with(&original));
    assert!(is_admissible(copy.parameters()));
}

#[test]
fn build_gives_one_argument_for_each_parameter() {
    let mut world: World<i32> = World::new();
    world.insert_resource(TIME, 99);
    let id = world.spawn();
    world.insert_component(id, POS, 5);
    let params = vec![
        Param::Query(desc(vec![Fetch::Read(POS)])),
        Param::QuerySet(vec![desc(vec![Fetch::Write(POS)]), desc(vec![Fetch::Entity])]),
        Param::Res(TIME),
        Param::ResMut(HEALTH),
        Param::Commands,
    ];
    let args = build(&params, &world);
    assert_eq!(args.len(), 5);
    match &args[0] {
        WorldQuery::Query(query) => assert_eq!(query.count(), 1),
        _ => panic!("a query was asked for"),
    }
    match &args[1] {
        WorldQuery::QuerySet(set) => {
            assert_eq!(set.len(), 2);
            assert_eq!(set.q0().count(), 1);
            assert_eq!(set.q1().count(), 1);
            assert_eq!(set.q(1).iter()[0].id, id);
        },
        _ => panic!("a query set was asked for"),
    }
    match &args[2] {
        WorldQuery::Res(res) => assert_eq!(res.value, Some(&99)),
        _ => panic!("a resource was asked for"),
    }
    match &args[3] {
        WorldQuery::ResMut(res) => assert_eq!(res.value, None),
        _ => panic!("a resource was asked for"),
    }
    assert!(matches!(args[4], WorldQuery::Commands));
}

#[test]
fn default_stage_is_empty_and_clone_keeps_the_systems() {
    let empty: SystemStage<Run> = SystemStage::default();
    assert_eq!(empty.len(), 0);
    let stage = SystemStage::new()
        .with_system(system(vec![Param::Query(desc(vec![Fetch::Write(POS)]))]))
        .with_system(system(vec![Param::Query(desc(vec![Fetch::Read(POS)]))]));
    let copy = stage.clone();
    assert_eq!(copy.len(), 2);
    assert!(copy.systems[0].writes_component(POS));
    assert!(copy.systems[1].reads_component(POS));
    assert_eq!(copy.batches(), stage.batches());
    assert_eq!(copy.batches(), vec![0, 1]);
}

#[test]
fn invoke_hands_the_built_parameters_to_the_callable() {
    fn count(args: Vec<WorldQuery<i32>>) -> Commands<i32> {
        let mut commands = Commands::new();
        match &args[0] {
            WorldQuery::Query(query) => commands.insert_resource(TIME, query.count() as i32),
            _ => panic!("a query was asked for"),
        }
        commands
    }
    let params = vec![Param::Query(desc(vec![Fetch::Read(POS)]))];
    assert!(is_admissible(&params));
    let counter = ErasedSystem::new(params, count as Run);
    let mut world: World<i32> = World::new();
    for value in 0..3 {
        let id = world.spawn();
        world.insert_component(id, POS, value);
    }
    let commands = counter.invoke(&world);
    assert_eq!(commands.len(), 1);
    world.apply_commands(commands);
    assert_eq!(world.get_resource(TIME), Some(&3));
}

#[test]
fn query_set_hands_out_one_query_at_a_time() {
    let mut world: World<i32> = World::new();
    let id = world.spawn();
    world.insert_component(id, HEALTH, 5);
    let descs = vec![desc(vec![Fetch::Write(HEALTH)]), desc(vec![Fetch::Read(HEALTH)])];
    let mut set = QuerySet::new(&world, &descs);
    assert_eq!(set.len(), 2);
    assert_eq!(set.q0_mut().count(), 1);
    assert_eq!(set.q1_mut().count(), 1);
    let first = set.q_mut(0).archetypes().clone();
    assert_eq!(&first, set.q(1).archetypes());
    let empty = desc(vec![Fetch::Read(POS)]);
    let none = cecs::query::Query::new(&world, &empty.fetch, &empty.filter);
    *set.q_mut(1) = none;
    assert_eq!(set.q1().count(), 0);
    assert_eq!(set.q0().count(), 1);
}
