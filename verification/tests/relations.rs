use flax::entity::{ComponentKey, Entity};
use flax::fetch::{nth_relation, relations_like, relations_like_mut, EntityIds, FetchExt, MaybeMut, RelationGuard, Source};
use flax::query::Query;
use flax::world::{ComponentDesc, World, ComponentValue};

#[derive(Debug, Clone, PartialEq)]
enum Val {
    Str(String),
    Int(i32),
    Unit,
}

impl ComponentValue for Val {
    fn name_value(name: &String) -> Val {
        Val::Str(name.clone())
    }

    fn info_value(desc: &ComponentDesc) -> Val {
        Val::Str(desc.name.clone())
    }
}

fn component(id: usize, name: &str) -> ComponentDesc {
    ComponentDesc::new(ComponentKey::new(Entity::from_id(id), None), name.to_string())
}

const RELATION: usize = 3000;

fn relation(target: Entity) -> ComponentDesc {
    ComponentDesc::new(ComponentKey::new(Entity::from_id(RELATION), Some(target)), "relation".to_string())
}

fn spawn(world: &mut World<Val>, name: &ComponentDesc, n: &str) -> Entity {
    let id = world.spawn();
    world.set(id, name, Val::Str(n.to_string())).unwrap();
    id
}

fn text(v: &Val) -> String {
    match v {
        Val::Str(s) => s.clone(),
        other => panic!("not a string: {other:?}"),
    }
}

fn as_int(v: &Val) -> i32 {
    match v {
        Val::Int(i) => *i,
        other => panic!("not an int: {other:?}"),
    }
}

#[test]
fn traverse() {
    let mut world: World<Val> = World::new();
    let name = component(1000, "name");
    let a = component(1001, "a");

    let root = spawn(&mut world, &name, "root");
    world.set(root, &a, Val::Int(5)).unwrap();
    let root3 = spawn(&mut world, &name, "root");
    let root2 = spawn(&mut world, &name, "root2");
    world.set(root2, &a, Val::Int(7)).unwrap();

    let child_1 = spawn(&mut world, &name, "child_1");
    world.set(child_1, &relation(root), Val::Unit).unwrap();
    let child_3 = spawn(&mut world, &name, "child_3");
    world.set(child_3, &relation(root2), Val::Unit).unwrap();
    let child_4 = spawn(&mut world, &name, "child_4");
    world.set(child_4, &relation(root3), Val::Unit).unwrap();
    let child_5 = spawn(&mut world, &name, "child_5");
    world.set(child_5, &relation(root3), Val::Unit).unwrap();
    world.set(child_5, &relation(root2), Val::Unit).unwrap();
    let child_2 = spawn(&mut world, &name, "child_2");
    world.set(child_2, &relation(root), Val::Unit).unwrap();
    let child_1_1 = spawn(&mut world, &name, "child_1_1");
    world.set(child_1_1, &relation(child_1), Val::Unit).unwrap();

    let mut query = Query::new((name.clone(), (name.clone(), a.clone()).traverse(Entity::from_id(RELATION))));
    let mut items: Vec<(String, (String, i32))> = query
        .collect_vec(&mut world)
        .into_iter()
        .map(|(n, (pn, pa))| (text(n), (text(pn), as_int(pa))))
        .collect();
    items.sort();

    let expected: Vec<(String, (String, i32))> = [
        ("child_1", ("root", 5)),
        ("child_1_1", ("root", 5)),
        ("child_2", ("root", 5)),
        ("child_3", ("root2", 7)),
        ("child_5", ("root2", 7)),
        ("root", ("root", 5)),
        ("root2", ("root2", 7)),
    ]
    .iter()
    .map(|(n, (p, v))| (n.to_string(), (p.to_string(), *v)))
    .collect();
    assert_eq!(items, expected);
}

#[test]
fn id_source() {
    let mut world: World<Val> = World::new();
    let name = component(1000, "name");
    let a = component(1001, "a");

    let _id1 = spawn(&mut world, &name, "id1");
    let _id2 = spawn(&mut world, &name, "id2");
    let id3 = spawn(&mut world, &name, "id3");
    world.set(id3, &a, Val::Int(5)).unwrap();

    let mut query = Query::new((name.clone(), Source::new((EntityIds, a.clone()), id3)));
    let items: Vec<(String, (Entity, i32))> = query
        .collect_vec(&mut world)
        .into_iter()
        .map(|(n, (id, v))| (text(n), (id, as_int(v))))
        .collect();
    assert_eq!(
        items,
        [("id1".to_string(), (id3, 5)), ("id2".to_string(), (id3, 5)), ("id3".to_string(), (id3, 5))]
    );

    let mut query2 = Query::new((name.clone(), Source::new(MaybeMut(a.clone()), id3)));
    let guards: Vec<(String, _)> = query2
        .collect_vec(&mut world)
        .into_iter()
        .map(|(n, guard)| (text(n), (guard.id, guard.desc.clone(), guard.new_tick)))
        .collect();
    for (n, (id, desc, _tick)) in guards {
        let cur = as_int(world.get(id, desc.key).unwrap());
        world.set(id, &desc, Val::Int(cur + n.len() as i32)).unwrap();
    }

    let items: Vec<(String, (Entity, i32))> = query
        .collect_vec(&mut world)
        .into_iter()
        .map(|(n, (id, v))| (text(n), (id, as_int(v))))
        .collect();
    assert_eq!(
        items,
        [("id1".to_string(), (id3, 14)), ("id2".to_string(), (id3, 14)), ("id3".to_string(), (id3, 14))]
    );
}

#[test]
fn maybe_mut_writes_through_guard() {
    let mut world: World<Val> = World::new();
    let name = component(1000, "name");
    let a = component(1001, "a");
    let id = spawn(&mut world, &name, "x");
    world.set(id, &a, Val::Int(1)).unwrap();

    let mut query = Query::new(MaybeMut(a.clone()));
    let (slot, gid, desc, tick) = {
        let guards = query.collect_vec(&mut world);
        assert_eq!(guards.len(), 1);
        assert_eq!(guards[0].read(), &Val::Int(1));
        (guards[0].slot, guards[0].id, guards[0].desc.clone(), guards[0].new_tick)
    };
    let old_value = Val::Int(1);
    let guard = flax::fetch::MutGuard { slot, id: gid, desc: &desc, value: &old_value, new_tick: tick };
    assert_eq!(guard.write(&mut world, Val::Int(7)), Ok(Val::Int(1)));
    assert_eq!(world.get(id, a.key), Ok(&Val::Int(7)));
}

#[test]
fn relations_of_each_entity() {
    let mut world: World<Val> = World::new();
    let name = component(1000, "name");

    let p1 = spawn(&mut world, &name, "p1");
    let p2 = spawn(&mut world, &name, "p2");
    let child = spawn(&mut world, &name, "child");
    world.set(child, &relation(p1), Val::Int(1)).unwrap();
    world.set(child, &relation(p2), Val::Int(2)).unwrap();

    let mut query = Query::new((EntityIds, relations_like(Entity::from_id(RELATION), "relation".to_string())));
    let mut found = Vec::new();
    for (id, mut rels) in query.collect_vec(&mut world) {
        while let Some((target, v)) = rels.next() {
            found.push((id, target, as_int(v)));
        }
    }
    assert_eq!(found, [(child, p1, 1), (child, p2, 2)]);

    let mut query = Query::new((EntityIds, nth_relation(Entity::from_id(RELATION), "relation".to_string(), 1)));
    let items: Vec<(Entity, Entity, i32)> = query.collect_vec(&mut world).into_iter().map(|(id, (t, v))| (id, t, as_int(v))).collect();
    assert_eq!(items, [(child, p2, 2)]);

    let mut query = Query::new((EntityIds, nth_relation(Entity::from_id(RELATION), "relation".to_string(), 2)));
    assert!(query.collect_vec(&mut world).is_empty());
}

#[test]
fn relations_mut_writes_through_guards() {
    let mut world: World<Val> = World::new();
    let name = component(1000, "name");
    let parent = spawn(&mut world, &name, "parent");
    let child = spawn(&mut world, &name, "child");
    world.set(child, &relation(parent), Val::Int(1)).unwrap();
    let before = world.change_tick();

    let mut query = Query::new(relations_like_mut(Entity::from_id(RELATION), "relation".to_string()));
    let pending: Vec<(Entity, ComponentKey, u32)> = {
        let mut out = Vec::new();
        for mut rels in query.collect_vec(&mut world) {
            while let Some((target, guard)) = rels.next() {
                assert_eq!(target, parent);
                assert_eq!(guard.read(), &Val::Int(1));
                out.push((guard.id, guard.key, guard.new_tick));
            }
        }
        out
    };
    assert_eq!(world.change_tick(), before + 1);
    assert_eq!(pending, [(child, relation(parent).key, before + 1)]);

    let (id, key, tick) = pending[0];
    let rel_name = "relation".to_string();
    let seen = Val::Int(1);
    let guard = RelationGuard { id, key, name: &rel_name, value: &seen, new_tick: tick };
    assert_eq!(guard.write(&mut world, Val::Int(9)), Ok(Val::Int(1)));
    assert_eq!(world.get(child, relation(parent).key), Ok(&Val::Int(9)));
}
