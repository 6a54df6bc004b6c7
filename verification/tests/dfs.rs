use std::collections::{BTreeMap, BTreeSet};

use flax::entity::{ComponentKey, Entity};
use flax::fetch::{EntityIds, FetchExt};
use flax::query::{Dfs, Query};
use flax::world::{ComponentDesc, Error, World, ComponentValue};

#[derive(Debug, Clone, PartialEq, PartialOrd)]
enum Val {
    Str(String),
    Int(i32),
    Unit,
}

impl ComponentValue for Val {
    fn name_value(name: &String) -> Val {
        Val::Str(name.clone())
    }

    fn info_value(desc: &ComponentDesc) -> Val {
        Val::Str(desc.name.clone())
    }
}

const CHILD_OF: usize = 2000;

fn component(id: usize, name: &str) -> ComponentDesc {
    ComponentDesc::new(ComponentKey::new(Entity::from_id(id), None), name.to_string())
}

fn child_of(parent: Entity) -> ComponentDesc {
    ComponentDesc::new(ComponentKey::new(Entity::from_id(CHILD_OF), Some(parent)), "child_of".to_string())
}

fn relation() -> Entity {
    Entity::from_id(CHILD_OF)
}

fn text(v: &Val) -> String {
    match v {
        Val::Str(s) => s.clone(),
        other => panic!("not a name: {other:?}"),
    }
}

fn as_int(v: &Val) -> i32 {
    match v {
        Val::Int(i) => *i,
        other => panic!("not an integer: {other:?}"),
    }
}

/// Makes each child a child of its parent, replacing any parent it had: the relation is
/// exclusive.
fn from_edges<'a>(world: &mut World<Val>, iter: impl IntoIterator<Item = (&'a Entity, &'a Entity)>) -> Result<(), Error> {
    for (&child, &parent) in iter {
        set_parent(world, child, parent)?;
    }
    Ok(())
}

fn set_parent(world: &mut World<Val>, child: Entity, parent: Entity) -> Result<(), Error> {
    let loc = world.location(child)?;
    let keys: Vec<ComponentKey> = world.archetype(loc.arch_id).components().to_vec();
    for key in keys {
        if key.id == relation() {
            if let Some(p) = key.target {
                world.remove(child, &child_of(p))?;
            }
        }
    }
    world.set(child, &child_of(parent), Val::Unit)?;
    Ok(())
}

fn assert_dfs<T>(iter: impl Iterator<Item = (Entity, T)>, edges: &BTreeMap<Entity, Entity>, all: &BTreeSet<Entity>) {
    let mut visited = BTreeSet::new();

    for (id, _) in iter {
        if let Some(parent) = edges.get(&id) {
            assert!(visited.contains(parent), "Child {id:?} visited before parent");
        }

        assert!(visited.insert(id));
    }

    assert_eq!(&visited, all, "Not all visited");
}

/// The items of a traversal, in order.
struct Items<T>(flax::hierarchy::DfsIter<T>);

impl<T> Iterator for Items<T> {
    type Item = T;

    fn next(&mut self) -> Option<T> {
        self.0.next()
    }
}

#[test]
fn dfs_cycle() {
    let name = component(1000, "name");
    let tree = component(1001, "tree");

    let mut world: World<Val> = World::new();

    let ids: Vec<Entity> = ['a', 'b', 'c']
        .iter()
        .map(|i| {
            let id = world.spawn();
            world.set(id, &name, Val::Str(i.to_string())).unwrap();
            world.set(id, &tree, Val::Unit).unwrap();
            id
        })
        .collect();
    let (a, b, c) = (ids[0], ids[1], ids[2]);

    world.set(b, &child_of(a), Val::Unit).unwrap();
    world.set(c, &child_of(b), Val::Unit).unwrap();

    let mut query = Query::new(EntityIds).with_strategy(Dfs::new(relation()));
    assert_eq!(Items(query.borrow(&mut world).unwrap().iter()).collect::<Vec<_>>(), [a, b, c]);

    world.set(a, &child_of(c), Val::Unit).unwrap();
    assert_eq!(Items(query.borrow(&mut world).unwrap().iter()).collect::<Vec<_>>(), []);
}

#[test]
fn dfs_dfs() {
    let name = component(1000, "name");
    let tree = component(1001, "tree");
    let other = component(1002, "other");

    let mut world: World<Val> = World::new();
    let mut all = BTreeSet::new();

    let ids: Vec<Entity> = ('a'..='l')
        .map(|i| {
            let id = world.spawn();
            world.set(id, &name, Val::Str(i.to_string())).unwrap();
            world.set(id, &tree, Val::Unit).unwrap();
            all.insert(id);
            id
        })
        .collect();
    let [a, b, c, d, e, f, g, h, i, j, k, _l] = ids[..] else { unreachable!() };

    world.set(i, &other, Val::Unit).unwrap();

    //       c              i         l
    //       |              |
    // *-----*-----*    *---*---*
    // |     |     |    |   |   |
    // b     d     e    h   k   j
    // |
    // *-----*
    // |     |
    // a     g
    // |
    // f

    let mut edges = BTreeMap::from([
        (b, c),
        (d, c),
        (e, c),
        //
        (a, b),
        (g, b),
        //
        (f, a),
        //
        (h, i),
        (k, i),
        (j, i),
    ]);

    from_edges(&mut world, &edges).unwrap();

    let mut query = Query::new((EntityIds, name.clone())).with_strategy(Dfs::new(relation()));

    assert_dfs(Items(query.borrow(&mut world).unwrap().iter()), &edges, &all);

    set_parent(&mut world, b, h).unwrap();

    edges.insert(b, h);

    assert_dfs(Items(query.borrow(&mut world).unwrap().iter()), &edges, &all);

    assert_dfs(Items(query.borrow(&mut world).unwrap().iter_from(c)), &edges, &[c, d, e].into_iter().collect());
}

#[test]
fn dfs_traverse_dfs() {
    let name = component(1000, "name");
    let a = component(1001, "a");
    let path = component(1002, "path");

    let mut world: World<Val> = World::new();

    let ids: Vec<Entity> = ('a'..='e')
        .zip(0..)
        .map(|(v, i)| {
            let id = world.spawn();
            world.set(id, &name, Val::Str(v.to_string())).unwrap();
            world.set(id, &a, Val::Int(i)).unwrap();
            id
        })
        .collect();

    let all = ids.iter().cloned().collect::<BTreeSet<Entity>>();

    let pairs = |items: Vec<(&Val, &Val)>| -> Vec<(String, i32)> { items.into_iter().map(|(n, v)| (text(n), as_int(v))).collect() };

    let items = pairs(Query::new((name.clone(), a.clone().modified())).collect_vec(&mut world));

    assert_eq!(
        items,
        [("a".to_string(), 0), ("b".to_string(), 1), ("c".to_string(), 2), ("d".to_string(), 3), ("e".to_string(), 4),]
    );

    let edges = BTreeMap::from([(ids[1], ids[0]), (ids[2], ids[1]), (ids[3], ids[0]), (ids[4], ids[0])]);

    from_edges(&mut world, &edges).unwrap();

    let mut items = pairs(Query::new((name.clone(), a.clone().modified())).collect_vec(&mut world));
    items.sort_by(|x, y| x.partial_cmp(y).unwrap());

    assert_eq!(
        items,
        [("a".to_string(), 0), ("b".to_string(), 1), ("c".to_string(), 2), ("d".to_string(), 3), ("e".to_string(), 4),]
    );

    let mut query = Query::new((EntityIds, a.clone())).with_strategy(Dfs::new(relation()));

    assert_dfs(Items(query.borrow(&mut world).unwrap().iter()), &edges, &all);

    let writes = Query::new((EntityIds, name.clone())).with_strategy(Dfs::new(relation())).borrow(&mut world).unwrap().traverse(
        &(None, Vec::new()),
        |(id, name): (Entity, &Val), prefix: &(Option<Entity>, Vec<String>)| {
            let mut p = prefix.1.clone();
            p.push(text(name));
            (Some(id), p)
        },
    );
    for (id, p) in writes {
        world.set(id.unwrap(), &path, Val::Str(p.join("::"))).unwrap();
    }

    assert_dfs(Items(query.borrow(&mut world).unwrap().iter()), &edges, &all);

    let mut paths: Vec<String> = Query::new(path.clone()).collect_vec(&mut world).into_iter().map(text).collect();
    paths.sort();

    assert_eq!(paths, ["a", "a::b", "a::b::c", "a::d", "a::e",]);

    // Change detection

    let mut query = Query::new((name.clone(), a.clone().modified())).with_strategy(Dfs::new(relation()));

    let mut items = pairs(Items(query.borrow(&mut world).unwrap().iter()).collect());
    items.sort_by(|x, y| x.partial_cmp(y).unwrap());

    assert_eq!(
        items,
        [("a".to_string(), 0), ("b".to_string(), 1), ("c".to_string(), 2), ("d".to_string(), 3), ("e".to_string(), 4),]
    );

    let items = pairs(Items(query.borrow(&mut world).unwrap().iter()).collect());

    assert_eq!(items, []);
    let cur = as_int(world.get(ids[0], a.key).unwrap());
    world.set(ids[0], &a, Val::Int(cur - 1)).unwrap();
    let items = pairs(Items(query.borrow(&mut world).unwrap().iter()).collect());

    assert_eq!(items, [("a".to_string(), -1)]);

    let children: Vec<Entity> = Query::new((EntityIds, child_of(ids[0]), a.clone())).collect_vec(&mut world).into_iter().map(|(id, _, _)| id).collect();
    for id in children {
        let cur = as_int(world.get(id, a.key).unwrap());
        world.set(id, &a, Val::Int(cur * -1)).unwrap();
    }

    // No changes, since the root is not modified
    let items = pairs(Items(query.borrow(&mut world).unwrap().iter()).collect());

    assert_eq!(items, []);

    let named: Vec<(Entity, Val)> = Query::new((EntityIds, name.clone(), a.clone()))
        .collect_vec(&mut world)
        .into_iter()
        .map(|(id, n, _)| (id, n.clone()))
        .collect();
    let selected: Vec<Entity> = named
        .into_iter()
        .filter(|(id, n)| world.get(*id, child_of(ids[0]).key).is_ok() || *n == Val::Str("a".to_string()))
        .map(|(id, _)| id)
        .collect();
    for id in selected {
        let cur = as_int(world.get(id, a.key).unwrap());
        world.set(id, &a, Val::Int(cur * -10)).unwrap();
    }

    let mut items = pairs(Items(query.borrow(&mut world).unwrap().iter()).collect());
    items.sort_by(|x, y| x.partial_cmp(y).unwrap());
    assert_eq!(
        items,
        [
            ("a".to_string(), 10),
            ("b".to_string(), 10),
            ("d".to_string(), 30),
            // c is a too deep
            ("e".to_string(), 40),
        ]
    );
}
