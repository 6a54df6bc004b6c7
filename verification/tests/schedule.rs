use flax::fetch::{Copied, EntityAccess, EntityIds};
use flax::archetype::EntityLocation;
use flax::entity::{ComponentKey, Entity};
use flax::query::QueryOne;
use flax::schedule::access::{Access, AccessKind};
use flax::schedule::query_access::SystemQuery;
use flax::schedule::{BoxedSystem, Schedule};
use flax::world::{ComponentDesc, World};

fn system(name: &str, resource: u64, mutable: bool) -> BoxedSystem {
    BoxedSystem::new(name.to_string(), vec![Access { kind: AccessKind::External(resource), mutable }])
}

#[test]
fn execute_seq_runs_systems_in_order() {
    let schedule = Schedule::new()
        .with_system(system("a", 1, true))
        .with_system(system("b", 2, false))
        .with_system(system("c", 1, false));

    let log = schedule.execute_seq(Vec::new(), |s: &BoxedSystem, mut log: Vec<String>, _: &()| {
        log.push(s.name().to_string());
        Ok::<Vec<String>, String>(log)
    });
    assert_eq!(log, Ok(vec!["a".to_string(), "b".to_string(), "c".to_string()]));
}

#[test]
fn execute_seq_stops_at_first_error() {
    let schedule = Schedule::new()
        .with_system(system("a", 1, true))
        .with_system(system("fail", 2, false))
        .with_system(system("c", 1, false));

    let limit = 10usize;
    let r = schedule.execute_seq_with(0usize, &limit, |s: &BoxedSystem, count: usize, limit: &usize| {
        if s.name() == "fail" {
            Err(format!("failed after {count} of at most {limit}"))
        } else {
            Ok(count + 1)
        }
    });
    assert_eq!(r, Err("failed after 1 of at most 10".to_string()));
}

#[test]
fn query_one_fetches_entity() {
    let mut world: World<i32> = World::new();
    let a = ComponentDesc::new(ComponentKey::new(Entity::from_id(1000), None), "a".to_string());
    let b = ComponentDesc::new(ComponentKey::new(Entity::from_id(1001), None), "b".to_string());
    let id = world.spawn();
    world.set(id, &a, 5).unwrap();

    let loc: EntityLocation = world.location(id).unwrap();
    let arch = world.archetype(loc.arch_id);
    let mut one = QueryOne::new(&a, &world, arch, loc);
    assert_eq!(one.get(), Some(&5));
    assert_eq!(one.get(), Some(&5));

    let mut missing = QueryOne::new(&b, &world, arch, loc);
    assert_eq!(missing.get(), None);
}

#[test]
fn entity_access_reads_entity() {
    let mut world: World<i32> = World::new();
    let a = ComponentDesc::new(ComponentKey::new(Entity::from_id(1000), None), "a".to_string());
    let b = ComponentDesc::new(ComponentKey::new(Entity::from_id(1001), None), "b".to_string());
    let id = world.spawn();
    world.set(id, &a, 7).unwrap();

    assert_eq!(a.get(&world, id), Some(&7));
    assert_eq!(b.get(&world, id), None);
    assert_eq!(EntityIds.get(&world, id), Some(id));
    assert_eq!(Copied(a.clone()).get(&world, id), Some(7));
}

#[test]
fn batch_info_describes_systems() {
    let mut schedule = Schedule::new()
        .with_system(system("a", 1, true))
        .with_system(system("b", 2, true))
        .with_system(system("c", 1, false));

    let world: World<i32> = World::new();
    let info = schedule.batch_info(&world);
    assert_eq!(info.to_names(), vec![vec!["a".to_string(), "b".to_string()], vec!["c".to_string()]]);
    assert_eq!(info.0[0].0[0].desc(), "a [write external 1]");
    assert_eq!(info.0[1].0[0].desc(), "c [read external 1]");
    let s = BoxedSystem::new(
        "q".to_string(),
        vec![
            Access { kind: AccessKind::Archetype { id: 3, component: ComponentKey::new(Entity::from_id(7), Some(Entity::from_id(9))) }, mutable: false },
            Access { kind: AccessKind::World, mutable: true },
        ],
    );
    assert_eq!(s.describe(), "q [read archetype 3 7:9, write world]");
}

#[test]
fn add_system_after_append_runs_last() {
    let mut schedule = Schedule::from_systems(vec![system("a", 1, true)]);
    schedule.append(Schedule::from_systems(vec![system("b", 2, true)]));
    schedule.add_system(system("s", 3, true));
    let order: Vec<String> = schedule.execution_order().iter().map(|s| s.name().to_string()).collect();
    assert_eq!(order, ["a", "b", "s"]);
    assert_eq!(schedule.systems.len(), 2);
}

#[test]
fn refresh_rebuilds_on_new_generation() {
    let mut schedule = Schedule::new()
        .with_system(system("a", 1, true))
        .with_system(system("b", 2, true))
        .with_system(system("c", 1, false));
    let mut world: World<i32> = World::new();
    let a = ComponentDesc::new(ComponentKey::new(Entity::from_id(1000), None), "a".to_string());
    let id = world.spawn();
    world.set(id, &a, 1).unwrap();
    let gen = world.archetype_gen();
    assert!(gen > 0);

    assert!(schedule.refresh(&world));
    assert_eq!(schedule.systems.len(), 2);
    assert_eq!(schedule.archetype_gen, gen);
    assert!(!schedule.refresh(&world));
    assert!(schedule.continue_parallel(gen));
    assert!(!schedule.continue_parallel(gen + 1));
}

#[test]
fn query_accesses_follow_the_archetypes_of_the_world() {
    let a = ComponentDesc::new(ComponentKey::new(Entity::from_id(1000), None), "a".to_string());
    let writer = BoxedSystem::new("writer".to_string(), vec![])
        .with_query(SystemQuery { required: vec![a.key], components: vec![(a.key, true)] });
    let reader = BoxedSystem::new("reader".to_string(), vec![])
        .with_query(SystemQuery { required: vec![a.key], components: vec![(a.key, false)] });
    let mut schedule = Schedule::new().with_system(writer.clone()).with_system(reader.clone());

    let mut world: World<i32> = World::new();
    assert!(writer.access_in(&world).is_empty());
    assert!(!schedule.refresh(&world));
    schedule.batch_info(&world);
    assert_eq!(schedule.systems.len(), 1);

    let id = world.spawn();
    world.set(id, &a, 1).unwrap();
    let loc = world.location(id).unwrap();
    assert_eq!(
        writer.access_in(&world),
        vec![Access { kind: AccessKind::Archetype { id: loc.arch_id, component: a.key }, mutable: true }]
    );
    assert!(schedule.refresh(&world));
    let order: Vec<Vec<String>> = schedule.batch_info(&world).to_names();
    assert_eq!(order, vec![vec!["writer".to_string()], vec!["reader".to_string()]]);
}
