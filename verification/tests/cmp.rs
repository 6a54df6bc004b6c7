use flax::entity::{ComponentKey, Entity};
use flax::fetch::{EntityIds, FetchExt};
use flax::filter::Greater;
use flax::query::Query;
use flax::world::{ComponentDesc, World};

fn component(id: usize, name: &str) -> ComponentDesc {
    ComponentDesc::new(ComponentKey::new(Entity::from_id(id), None), name.to_string())
}

/// Spawns `n` entities whose `a` cycles through `0..10` and whose `name` counts up.
fn spawn_batch(world: &mut World<i32>, a: &ComponentDesc, name: &ComponentDesc, n: i32) -> Vec<Entity> {
    let mut ids = Vec::new();
    for i in 0..n {
        let id = world.spawn();
        world.set(id, a, i % 10).unwrap();
        world.set(id, name, i).unwrap();
        ids.push(id);
    }
    ids
}

#[test]
fn cmp_mut() {
    let a = component(1000, "a");
    let name = component(1001, "name");
    let mut world: World<i32> = World::new();
    let ids = spawn_batch(&mut world, &a, &name, 128);

    let mut changed = Query::new(EntityIds).filter(a.clone().modified());
    assert_eq!(changed.collect_vec(&mut world), ids);

    let mut query = Query::new((EntityIds, a.clone().opt().cmp(Greater(3))));
    let writes: Vec<(Entity, i32)> = query
        .collect_vec(&mut world)
        .into_iter()
        .filter_map(|(id, item)| item.map(|v| (id, *v * -1)))
        .collect();
    for (id, v) in writes {
        world.set(id, &a, v).unwrap();
    }

    let changed_ids: Vec<Entity> = ids.iter().enumerate().filter(|v| v.0 % 10 > 3).map(|v| *v.1).collect();
    assert_eq!(changed.collect_vec(&mut world), changed_ids);
}

#[test]
fn cmp_nested() {
    let a = component(1000, "a");
    let name = component(1001, "name");
    let mut world: World<i32> = World::new();
    let ids = spawn_batch(&mut world, &a, &name, 128);

    let mut changed = Query::new(EntityIds).filter(a.clone().modified());
    assert_eq!(changed.collect_vec(&mut world), ids);

    let mut query = Query::new((EntityIds, a.clone().gt(3).lt(7)));
    let writes: Vec<(Entity, i32)> = query.collect_vec(&mut world).into_iter().map(|(id, v)| (id, *v * -1)).collect();
    for (id, v) in writes {
        world.set(id, &a, v).unwrap();
    }

    let changed_ids: Vec<Entity> =
        ids.iter().enumerate().filter(|v| v.0 % 10 > 3 && v.0 % 10 < 7).map(|v| *v.1).collect();
    assert_eq!(changed.collect_vec(&mut world), changed_ids);
}
