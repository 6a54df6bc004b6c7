use flax::changes::ChangeKind;
use flax::entity::{ComponentKey, Entity};
use flax::metadata::name_key;
use flax::fetch::{Mutable, Opt, Satisfied};
use flax::filter::{ChangeFilter, Or};
use flax::query::Query;
use flax::world::{ComponentDesc, Error, World, ComponentValue};

#[derive(Debug, Clone, PartialEq)]
enum Val {
    Str(String),
    Int(i32),
    Float(f32),
    Bool(bool),
    Vec3(f32, f32, f32),
}

impl ComponentValue for Val {
    fn name_value(name: &String) -> Val {
        Val::Str(name.clone())
    }

    fn info_value(desc: &ComponentDesc) -> Val {
        Val::Str(desc.name.clone())
    }
}

fn component(id: usize, name: &str) -> ComponentDesc {
    ComponentDesc::new(ComponentKey::new(Entity::from_id(id), None), name.to_string())
}

#[test]
fn entity_entity_query2() {
    let mut world: World<Val> = World::new();
    let name = component(1000, "name");
    let a = component(1001, "a");

    let id = world.spawn();
    world.set(id, &name, Val::Str("Foo".into())).unwrap();
    world.set(id, &a, Val::Int(5)).unwrap();

    let mut query = Query::new((name.clone(), Opt::new(a.clone()))).entity(id);
    {
        let mut borrow = query.borrow(&mut world);
        assert_eq!(borrow.get(), Ok((&Val::Str("Foo".into()), Some(&Val::Int(5)))));
        assert_eq!(borrow.get(), Ok((&Val::Str("Foo".into()), Some(&Val::Int(5)))));
    }

    world.remove(id, &a).unwrap();

    assert_eq!(query.borrow(&mut world).get(), Ok((&Val::Str("Foo".into()), None)));

    world.remove(id, &name).unwrap();
    assert_eq!(query.borrow(&mut world).get(), Err(Error::MissingComponent(id, name.clone())));
    world.set(id, &name, Val::Str("Bar".into())).unwrap();
    {
        let mut borrow = query.borrow(&mut world);
        assert_eq!(borrow.get(), Ok((&Val::Str("Bar".into()), None)));
        assert_eq!(borrow.get(), Ok((&Val::Str("Bar".into()), None)));
    }
    world.despawn(id).unwrap();
    assert_eq!(query.borrow(&mut world).get(), Err(Error::NoSuchEntity(id)));
}

#[test]
fn entity_changes() {
    let window_width = component(1000, "window_width");
    let window_height = component(1001, "window_height");
    let allow_vsync = component(1002, "allow_vsync");

    let mut world: World<Val> = World::new();

    let resources = world.spawn();
    world.set(resources, &window_width, Val::Float(800.0)).unwrap();
    world.set(resources, &window_height, Val::Float(600.0)).unwrap();
    world.set(resources, &allow_vsync, Val::Bool(false)).unwrap();

    let mut query = Query::new((window_width.clone(), window_height.clone(), allow_vsync.clone()))
        .filter(Or((
            ChangeFilter::new(window_width.clone(), ChangeKind::Modified),
            ChangeFilter::new(window_height.clone(), ChangeKind::Modified),
            ChangeFilter::new(allow_vsync.clone(), ChangeKind::Modified),
        )))
        .entity(resources);

    assert_eq!(
        query.borrow(&mut world).get(),
        Ok((&Val::Float(800.0), &Val::Float(600.0), &Val::Bool(false)))
    );
    world.set(resources, &allow_vsync, Val::Bool(true)).unwrap();

    assert_eq!(
        query.borrow(&mut world).get(),
        Ok((&Val::Float(800.0), &Val::Float(600.0), &Val::Bool(true)))
    );
    assert!(query.borrow(&mut world).get().is_err());
}

fn spawn_named(world: &mut World<Val>, name: &ComponentDesc, v: &str) -> Entity {
    let id = world.spawn();
    world.set(id, name, Val::Str(v.into())).unwrap();
    id
}

#[test]
fn satisfied() {

    let mut world: World<Val> = World::new();
    let name = component(1000, "name");
    let a = component(1001, "a");

    for v in ["a", "b", "c"] {
        spawn_named(&mut world, &name, v);
    }
    for v in ["d", "e", "f"] {
        let id = spawn_named(&mut world, &name, v);
        world.set(id, &a, Val::Int(5)).unwrap();
    }

    let mut query = Query::new((name.clone(), Satisfied::new(a.clone())));
    let s = |v: &str| Val::Str(v.into());
    assert_eq!(
        query.collect_vec(&mut world),
        [
            (&s("a"), false),
            (&s("b"), false),
            (&s("c"), false),
            (&s("d"), true),
            (&s("e"), true),
            (&s("f"), true),
        ]
    );
}

#[test]
fn satisfied_modified() {

    let mut world: World<Val> = World::new();
    let name = component(1000, "name");
    let a = component(1001, "a");

    for v in ["a", "b", "c"] {
        spawn_named(&mut world, &name, v);
    }
    let mut ids = Vec::new();
    for v in ["d", "e", "f"] {
        let id = spawn_named(&mut world, &name, v);
        world.set(id, &a, Val::Int(5)).unwrap();
        ids.push(id);
    }

    let mut query = Query::new((
        name.clone(),
        Satisfied::new(ChangeFilter::new(a.clone(), ChangeKind::Modified)),
    ));
    let s = |v: &str| Val::Str(v.into());

    assert_eq!(
        query.collect_vec(&mut world),
        [
            (&s("a"), false),
            (&s("b"), false),
            (&s("c"), false),
            (&s("d"), true),
            (&s("e"), true),
            (&s("f"), true),
        ]
    );

    assert_eq!(
        query.collect_vec(&mut world),
        [
            (&s("a"), false),
            (&s("b"), false),
            (&s("c"), false),
            (&s("d"), false),
            (&s("e"), false),
            (&s("f"), false),
        ]
    );

    world.set(ids[1], &a, Val::Int(5)).unwrap();

    assert_eq!(
        query.collect_vec(&mut world),
        [
            (&s("a"), false),
            (&s("b"), false),
            (&s("c"), false),
            (&s("d"), false),
            (&s("e"), true),
            (&s("f"), false),
        ]
    );
}

#[test]
fn query_reads_component_values() {
    let mut world: World<Val> = World::new();
    let name = component(1000, "name");
    let id = spawn_named(&mut world, &name, "x");
    let other = spawn_named(&mut world, &name, "y");

    let mut query = Query::new(name.clone()).entity(other);
    assert_eq!(query.borrow(&mut world).get(), Ok(&Val::Str("y".into())));

    let mut query = Query::new(name.clone()).entity(id);
    assert_eq!(query.borrow(&mut world).get(), Ok(&Val::Str("x".into())));

    let missing = component(1002, "missing");
    let mut query = Query::new(missing.clone()).entity(id);
    assert_eq!(query.borrow(&mut world).get(), Err(Error::DoesNotMatch(id)));
}

#[test]
fn mod_changes() {
    let window_width = component(1000, "window_width");
    let window_height = component(1001, "window_height");
    let allow_vsync = component(1002, "allow_vsync");

    let mut world: World<Val> = World::new();

    let resources = world.spawn();
    world.set(resources, &window_width, Val::Float(800.0)).unwrap();
    world.set(resources, &window_height, Val::Float(600.0)).unwrap();
    world.set(resources, &allow_vsync, Val::Bool(false)).unwrap();

    let mut query = Query::new((window_width.clone(), window_height.clone(), allow_vsync.clone())).filter(Or((
        ChangeFilter::new(window_width.clone(), ChangeKind::Modified),
        ChangeFilter::new(window_height.clone(), ChangeKind::Modified),
        ChangeFilter::new(allow_vsync.clone(), ChangeKind::Modified),
    )));

    assert_eq!(
        query.borrow(&mut world).get(resources),
        Ok((&Val::Float(800.0), &Val::Float(600.0), &Val::Bool(false)))
    );
    world.set(resources, &allow_vsync, Val::Bool(true)).unwrap();

    assert_eq!(
        query.borrow(&mut world).get(resources),
        Ok((&Val::Float(800.0), &Val::Float(600.0), &Val::Bool(true)))
    );
    assert!(query.borrow(&mut world).get(resources).is_err());
}

#[test]
fn get_disjoint() {
    let a = component(1000, "a");
    let b = component(1001, "b");
    let c = component(1002, "c");

    let mut world: World<Val> = World::new();

    let id = world.spawn();
    world.set(id, &a, Val::Int(5)).unwrap();
    world.set(id, &b, Val::Int(5)).unwrap();

    let id2 = world.spawn();
    world.set(id2, &a, Val::Int(3)).unwrap();
    world.set(id2, &b, Val::Int(3)).unwrap();
    world.set(id2, &c, Val::Int(1)).unwrap();

    let id3 = world.spawn();
    world.set(id3, &a, Val::Int(7)).unwrap();
    world.set(id3, &b, Val::Int(5)).unwrap();

    let id4 = world.spawn();
    world.set(id4, &a, Val::Int(7)).unwrap();

    let mut query = Query::new((ChangeFilter::new(a.clone(), ChangeKind::Modified), b.clone(), Opt::new(c.clone())));

    let borrow = query.borrow(&mut world);
    drop(borrow);

    let mut borrow = query.borrow(&mut world);
    assert_eq!(borrow.get(id4), Err(Error::MissingComponent(id4, b.clone())));
}

#[test]
fn mod_test_planar() {
    let mut world: World<Val> = World::new();
    let name = ComponentDesc::new(name_key(), "name".to_string());
    let a = component(1001, "a");

    let id = spawn_named(&mut world, &name, "id");
    world.set(id, &a, Val::Int(5)).unwrap();
    let id2 = spawn_named(&mut world, &name, "id2");
    world.set(id2, &a, Val::Int(7)).unwrap();

    let mut query = Query::new(name.clone());

    assert_eq!(query.borrow(&mut world).get(id), Ok(&Val::Str("id".into())));
    assert_eq!(query.borrow(&mut world).get(id2), Ok(&Val::Str("id2".into())));
    assert_eq!(query.borrow(&mut world).get(a.key.id), Err(Error::DoesNotMatch(a.key.id)));

    let mut query = query.with_components();
    assert_eq!(query.borrow(&mut world).get(a.key.id), Ok(&Val::Str("a".into())));
}

#[test]
fn entity_query3() {
    let name = component(1000, "name");
    let position = component(1001, "position");

    let mut world: World<Val> = World::new();

    let id = spawn_named(&mut world, &name, "Foo");
    world.set(id, &position, Val::Vec3(1.4, 6.4, 1.7)).unwrap();
    let id2 = spawn_named(&mut world, &name, "Bar");
    spawn_named(&mut world, &name, "Baz");

    let mut query = Query::new((name.clone(), Mutable(position.clone())));
    assert!(query.borrow(&mut world).get(id2).is_err());
    {
        let mut borrow = query.borrow(&mut world);
        let (n, guard) = borrow.get(id).unwrap();
        assert_eq!((n, guard.read()), (&Val::Str("Foo".into()), &Val::Vec3(1.4, 6.4, 1.7)));
    }

    world.set(id2, &position, Val::Vec3(4.8, 4.2, 9.1)).unwrap();

    let written = {
        let mut borrow = query.borrow(&mut world);
        let (n, guard) = borrow.get(id2).unwrap();
        assert_eq!((n, guard.read()), (&Val::Str("Bar".into()), &Val::Vec3(4.8, 4.2, 9.1)));
        guard.id
    };
    world.set(written, &position, Val::Vec3(1.0, 0.0, 0.0)).unwrap();

    assert_eq!(world.get(id2, position.key), Ok(&Val::Vec3(1.0, 0.0, 0.0)));

    let mut system_query = Query::new(name.clone()).entity(id2);
    assert_eq!(system_query.borrow(&mut world).get(), Ok(&Val::Str("Bar".into())));
}

#[test]
fn entity_entity_query() {
    let name = component(1000, "name");
    let position = component(1001, "position");

    let mut world: World<Val> = World::new();

    let foo = spawn_named(&mut world, &name, "Foo");
    world.set(foo, &position, Val::Vec3(1.4, 6.4, 1.7)).unwrap();
    let id = spawn_named(&mut world, &name, "Bar");
    spawn_named(&mut world, &name, "Baz");

    let mut query = Query::new((name.clone(), Mutable(position.clone()))).entity(id);
    assert!(query.borrow(&mut world).get().is_err());

    world.set(id, &position, Val::Vec3(4.8, 4.2, 9.1)).unwrap();

    let written = {
        let mut borrow = query.borrow(&mut world);
        let (n, guard) = borrow.get().unwrap();
        assert_eq!((n, guard.read()), (&Val::Str("Bar".into()), &Val::Vec3(4.8, 4.2, 9.1)));
        guard.id
    };
    world.set(written, &position, Val::Vec3(1.0, 0.0, 0.0)).unwrap();

    assert_eq!(world.get(id, position.key), Ok(&Val::Vec3(1.0, 0.0, 0.0)));

    let mut system_query = Query::new(name.clone()).entity(id);
    assert_eq!(system_query.borrow(&mut world).get(), Ok(&Val::Str("Bar".into())));
}

#[test]
fn mutable_query_advances_change_tick() {
    let position = component(1001, "position");
    let mut world: World<Val> = World::new();
    let id = world.spawn();
    world.set(id, &position, Val::Int(1)).unwrap();

    let before = world.change_tick();
    {
        let mut query = Query::new(position.clone());
        let _ = query.borrow(&mut world);
    }
    assert_eq!(world.change_tick(), before);

    let mut query = Query::new(Mutable(position.clone()));
    let _ = query.borrow(&mut world);
    assert_eq!(world.change_tick(), before + 1);
    let _ = query.borrow(&mut world);
    assert_eq!(world.change_tick(), before + 2);
}

#[test]
fn writes_of_a_mutable_query_are_seen_by_change_filters() {
    let a = component(1001, "a");
    let mut world: World<Val> = World::new();
    let id = world.spawn();
    world.set(id, &a, Val::Int(1)).unwrap();

    let mut changed = Query::new(a.clone()).filter(ChangeFilter::new(a.clone(), ChangeKind::Modified));
    assert_eq!(changed.collect_vec(&mut world), vec![&Val::Int(1)]);
    assert!(changed.collect_vec(&mut world).is_empty());

    let mut writer = Query::new(Mutable(a.clone()));
    let (gid, tick) = {
        let guards = writer.collect_vec(&mut world);
        assert_eq!(guards.len(), 1);
        (guards[0].id, guards[0].new_tick)
    };
    let seen = Val::Int(1);
    let guard = flax::fetch::MutGuard { slot: 0, id: gid, desc: &a, value: &seen, new_tick: tick };
    assert_eq!(guard.write(&mut world, Val::Int(2)), Ok(Val::Int(1)));

    assert_eq!(changed.collect_vec(&mut world), vec![&Val::Int(2)]);
    assert!(changed.collect_vec(&mut world).is_empty());
}
