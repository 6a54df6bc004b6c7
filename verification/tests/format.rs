use flax::entity::{ComponentKey, Entity};
use flax::format::{EntitiesFormatter, HierarchyFormatter};
use flax::metadata::debuggable_key;
use flax::world::{ComponentDesc, World};

fn component(id: usize, name: &str) -> ComponentDesc {
    ComponentDesc::new(ComponentKey::new(Entity::from_id(id), None), name.to_string())
}

/// A component whose entity carries the debuggable metadata, so that its values are printed.
fn debuggable_component(world: &mut World<String>, name: &str) -> ComponentDesc {
    let id = world.spawn();
    world.set(id, &ComponentDesc::new(debuggable_key(), "debuggable".to_string()), String::new()).unwrap();
    ComponentDesc::new(ComponentKey::new(id, None), name.to_string())
}

fn child_of(parent: Entity) -> ComponentDesc {
    ComponentDesc::new(ComponentKey::new(Entity::from_id(2000), Some(parent)), "child_of".to_string())
}

fn spawn_named(world: &mut World<String>, name: &ComponentDesc, v: &str) -> Entity {
    let id = world.spawn();
    world.set(id, name, v.to_string()).unwrap();
    id
}

#[test]
fn tree_formatter() {
    let mut world: World<String> = World::new();
    let name = component(1000, "name");

    let root = spawn_named(&mut world, &name, "root");
    let child1 = spawn_named(&mut world, &name, "child.1");
    world.set(child1, &child_of(root), String::new()).unwrap();
    let child11 = spawn_named(&mut world, &name, "child.1.1");
    world.set(child11, &child_of(child1), String::new()).unwrap();
    let child2 = spawn_named(&mut world, &name, "child.2");
    world.set(child2, &child_of(root), String::new()).unwrap();

    let s = HierarchyFormatter::new(&world, Entity::from_id(2000), root).unwrap().fmt();

    println!("{}", s);
}

#[test]
fn hierarchy_text_nests_children() {
    let mut world: World<String> = World::new();
    let name = debuggable_component(&mut world, "name");

    let root = spawn_named(&mut world, &name, "root");
    let child = spawn_named(&mut world, &name, "child");
    world.set(child, &child_of(root), String::new()).unwrap();

    let s = HierarchyFormatter::new(&world, Entity::from_id(2000), root).unwrap().fmt();

    assert_eq!(
        s,
        "{components: {name: \"root\"}, children: {2: {components: {name: \"child\", child_of: ...}, children: {}}}}"
    );
}

#[test]
fn entities_formatter_skips_missing() {
    let mut world: World<String> = World::new();
    let name = debuggable_component(&mut world, "name");

    let a = spawn_named(&mut world, &name, "a");
    let b = spawn_named(&mut world, &name, "b");
    world.despawn(a).unwrap();

    let ids = [a, b];
    let f = EntitiesFormatter { world: &world, ids: &ids };
    assert_eq!(f.fmt(), "{2: {name: \"b\"}}");
}

#[test]
fn values_without_debuggable_metadata_are_elided() {
    let mut world: World<String> = World::new();
    let name = component(1000, "name");
    let a = spawn_named(&mut world, &name, "a");

    let ids = [a];
    let f = EntitiesFormatter { world: &world, ids: &ids };
    assert_eq!(f.fmt(), "{0: {name: ...}}");
}
