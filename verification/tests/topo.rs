use flax::entity::{ComponentKey, Entity};
use flax::filter::{All, Filtered, With};
use flax::query::{Query, Topo, TopoState};
use flax::world::{ComponentDesc, World};

fn component(id: usize, name: &str) -> ComponentDesc {
    ComponentDesc::new(ComponentKey::new(Entity::from_id(id), None), name.to_string())
}

const CHILD_OF: usize = 2000;

fn child_of(parent: Entity) -> ComponentDesc {
    ComponentDesc::new(ComponentKey::new(Entity::from_id(CHILD_OF), Some(parent)), "child_of".to_string())
}

fn spawn_named(world: &mut World<String>, name: &ComponentDesc, v: &str) -> Entity {
    let id = world.spawn();
    world.set(id, name, v.to_string()).unwrap();
    id
}

/// Every entity comes after each of its parents which is also listed.
fn parents_first(items: &[String], edges: &[(&str, &str)]) {
    for (child, parent) in edges {
        let c = items.iter().position(|x| x == child);
        let p = items.iter().position(|x| x == parent);
        if let (Some(c), Some(p)) = (c, p) {
            assert!(p < c, "{parent} listed after its child {child}");
        }
    }
}

#[test]
fn topo_state_orders_archetypes() {
    let mut world: World<String> = World::new();
    let name = component(1000, "name");
    let ids: Vec<Entity> = ('a'..='g').map(|i| spawn_named(&mut world, &name, &i.to_string())).collect();
    let (a, b, c, d, e, f, g) = (ids[0], ids[1], ids[2], ids[3], ids[4], ids[5], ids[6]);

    world.set(e, &child_of(g), String::new()).unwrap();
    world.set(e, &child_of(c), String::new()).unwrap();
    world.set(b, &child_of(g), String::new()).unwrap();
    world.set(b, &child_of(c), String::new()).unwrap();

    world.set(g, &child_of(a), String::new()).unwrap();

    world.set(c, &child_of(g), String::new()).unwrap();

    world.set(f, &child_of(a), String::new()).unwrap();
    world.set(f, &child_of(d), String::new()).unwrap();

    let mut state = TopoState::new();

    let fetch = Filtered::new(With { component: name.key, name: "name".to_string() }, All, false);

    state.update(Entity::from_id(CHILD_OF), &world, &fetch);

    let visited: Vec<Vec<Entity>> = state
        .order
        .iter()
        .map(|&idx| world.archetype(state.archetypes[idx]).entities().to_vec())
        .collect();

    // The archetypes are visited in the order they were created, each after those of its
    // relations' targets.
    assert_eq!(visited, [vec![a, d], vec![g], vec![c], vec![e, b], vec![f]]);
}

#[test]
fn topo_query_parents_first() {
    let mut world: World<String> = World::new();
    let name = component(1000, "name");
    let tree = component(1001, "tree");

    let ids: Vec<Entity> = ('a'..='g')
        .map(|i| {
            let id = spawn_named(&mut world, &name, &i.to_string());
            world.set(id, &tree, String::new()).unwrap();
            id
        })
        .collect();
    let (b, c, d, e, f, g) = (ids[1], ids[2], ids[3], ids[4], ids[5], ids[6]);

    world.set(b, &child_of(d), String::new()).unwrap();

    world.set(e, &child_of(d), String::new()).unwrap();
    world.set(e, &child_of(b), String::new()).unwrap();

    world.set(c, &child_of(b), String::new()).unwrap();

    world.set(f, &child_of(b), String::new()).unwrap();
    world.set(f, &child_of(c), String::new()).unwrap();

    world.set(g, &child_of(e), String::new()).unwrap();

    let mut query = Query::new(name.clone()).with_strategy(Topo::new(Entity::from_id(CHILD_OF))).with(&tree);

    let edges = [("b", "d"), ("e", "d"), ("e", "b"), ("c", "b"), ("f", "b"), ("f", "c"), ("g", "e")];
    let items: Vec<String> = query.borrow(&mut world).items().into_iter().cloned().collect();
    assert_eq!(items.len(), 7);
    parents_first(&items, &edges);
    assert_eq!(items, ["a", "d", "b", "e", "c", "f", "g"]);

    // Detaching `b` from its children creates a separate tree
    for child in [c, e, f] {
        world.remove(child, &child_of(b)).unwrap();
    }

    let edges = [("b", "d"), ("e", "d"), ("f", "c"), ("g", "e")];
    let items: Vec<String> = query.borrow(&mut world).items().into_iter().cloned().collect();
    assert_eq!(items.len(), 7);
    parents_first(&items, &edges);

    // Removing the `tree` from `e` is equivalent to removing the dependency
    world.remove(e, &tree).unwrap();

    let items: Vec<String> = query.borrow(&mut world).items().into_iter().cloned().collect();
    assert_eq!(items.len(), 6);
    assert!(!items.contains(&"e".to_string()));
    parents_first(&items, &edges);
}
