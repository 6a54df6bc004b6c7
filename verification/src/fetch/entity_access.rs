use vstd::prelude::*;

use crate::entity::Entity;
use crate::fetch::component::EntityIds;
use crate::fetch::copied::Copied;
use crate::world::{ComponentDesc, World};

verus! {

/// Reads what a fetch yields for one existing entity, without preparing it for the entity's
/// archetype.
pub trait EntityAccess<'a, V> {
    /// The item read.
    type Item;

    /// Whether `r` is what the fetch reads of the entity `id`.
    spec fn spec_get(&self, world: &'a World<V>, id: Entity, r: Option<Self::Item>) -> bool;

    /// Reads the entity `id`; `None` where the fetch has nothing for it.
    fn get(&'a self, world: &'a World<V>, id: Entity) -> (r: Option<Self::Item>)
        requires
            world.wf(),
            world.alive(id),
        ensures
            self.spec_get(world, id, r),
    ;
}

/// A component reads the entity's value of it, where it has one.
impl<'a, V: 'a> EntityAccess<'a, V> for ComponentDesc {
    type Item = &'a V;

    open spec fn spec_get(&self, world: &'a World<V>, id: Entity, r: Option<&'a V>) -> bool {
        match world.value_of(id, self.key) {
            Some(v) => r == Some(&v),
            None => r is None,
        }
    }

    fn get(&'a self, world: &'a World<V>, id: Entity) -> (r: Option<&'a V>) {
        match world.get(id, self.key) {
            Ok(v) => Some(v),
            Err(_) => None,
        }
    }
}

/// The ids read the entity's id.
impl<'a, V> EntityAccess<'a, V> for EntityIds {
    type Item = Entity;

    open spec fn spec_get(&self, world: &'a World<V>, id: Entity, r: Option<Entity>) -> bool {
        r == Some(id)
    }

    fn get(&'a self, world: &'a World<V>, id: Entity) -> (r: Option<Entity>) {
        Some(id)
    }
}

/// Copies of a component read copies of the entity's value of it.
impl<'a, V: Copy + 'a> EntityAccess<'a, V> for Copied<ComponentDesc> {
    type Item = V;

    open spec fn spec_get(&self, world: &'a World<V>, id: Entity, r: Option<V>) -> bool {
        r == world.value_of(id, self.0.key)
    }

    fn get(&'a self, world: &'a World<V>, id: Entity) -> (r: Option<V>) {
        match world.get(id, self.0.key) {
            Ok(v) => Some(*v),
            Err(_) => None,
        }
    }
}

} // verus!
