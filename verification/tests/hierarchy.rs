use flax::entity::{ComponentKey, Entity};
use flax::fetch::EntityIds;
use flax::hierarchy::Dfs;
use flax::hierarchy::dfs::DfsError;
use flax::query::Query;
use flax::world::{ComponentDesc, World};

fn component(id: usize, name: &str) -> ComponentDesc {
    ComponentDesc::new(ComponentKey::new(Entity::from_id(id), None), name.to_string())
}

fn child_of(parent: Entity) -> ComponentDesc {
    ComponentDesc::new(ComponentKey::new(Entity::from_id(2000), Some(parent)), "child_of".to_string())
}

fn spawn_named(world: &mut World<String>, name: &ComponentDesc, v: &str) -> Entity {
    let id = world.spawn();
    world.set(id, name, v.to_string()).unwrap();
    id
}

/// a has children b, d and e; b has the child c.
fn tree(world: &mut World<String>, name: &ComponentDesc) -> Vec<Entity> {
    let ids: Vec<Entity> = ["a", "b", "c", "d", "e"].iter().map(|n| spawn_named(world, name, n)).collect();
    for (child, parent) in [(1, 0), (2, 1), (3, 0), (4, 0)] {
        world.set(ids[child], &child_of(ids[parent]), String::new()).unwrap();
    }
    ids
}

#[test]
fn traverse_dfs_paths() {
    let mut world: World<String> = World::new();
    let name = component(1000, "name");
    let ids = tree(&mut world, &name);

    let mut query = Query::new((EntityIds, name.clone())).with_strategy(Dfs::new(Entity::from_id(2000), ids[0]));
    let paths = query
        .borrow(&mut world)
        .unwrap()
        .traverse(&String::new(), |(_, n): (Entity, &String), prefix: &String| {
            if prefix.is_empty() {
                n.clone()
            } else {
                format!("{prefix}::{n}")
            }
        });

    let mut sorted = paths.clone();
    sorted.sort();
    assert_eq!(sorted, ["a", "a::b", "a::b::c", "a::d", "a::e"]);
    assert_eq!(paths[0], "a");
}

#[test]
fn dfs_visits_parents_first() {
    let mut world: World<String> = World::new();
    let name = component(1000, "name");
    let ids = tree(&mut world, &name);
    let parent = [None, Some(0), Some(1), Some(0), Some(0)];

    let mut query = Query::new(EntityIds).with_strategy(Dfs::new(Entity::from_id(2000), ids[0]));
    let mut it = query.borrow(&mut world).unwrap().iter();
    let mut visited: Vec<Entity> = Vec::new();
    while let Some(id) = it.next() {
        let i = ids.iter().position(|x| *x == id).unwrap();
        if let Some(p) = parent[i] {
            assert!(visited.contains(&ids[p]), "child visited before parent");
        }
        assert!(!visited.contains(&id));
        visited.push(id);
    }
    assert_eq!(visited.len(), ids.len());

    let mut query = Query::new(EntityIds).with_strategy(Dfs::new(Entity::from_id(2000), ids[1]));
    let mut it = query.borrow(&mut world).unwrap().iter();
    assert_eq!(it.next(), Some(ids[1]));
    assert_eq!(it.next(), Some(ids[2]));
    assert_eq!(it.next(), None);
}

#[test]
fn dfs_missing_root() {
    let mut world: World<String> = World::new();
    let name = component(1000, "name");
    let ids = tree(&mut world, &name);
    world.despawn(ids[0]).unwrap();

    let mut query = Query::new(EntityIds).with_strategy(Dfs::new(Entity::from_id(2000), ids[0]));
    assert!(query.borrow(&mut world).is_err());
}

#[test]
fn dfs_reports_cycle() {
    let mut world: World<String> = World::new();
    let name = component(1000, "name");
    let a = spawn_named(&mut world, &name, "a");
    let b = spawn_named(&mut world, &name, "b");
    world.set(a, &child_of(b), String::new()).unwrap();
    world.set(b, &child_of(a), String::new()).unwrap();

    let mut query = Query::new(EntityIds).with_strategy(Dfs::new(Entity::from_id(2000), a));
    assert!(matches!(query.borrow(&mut world), Err(DfsError::Cycle(_))));
}
