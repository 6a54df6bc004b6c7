use vstd::prelude::*;

verus! {

/// Identifies an entity of the world; components are identified by entities too.
#[derive(Clone, Copy, Debug, PartialEq, Eq, Structural, Hash, PartialOrd, Ord)]
pub struct Entity {
    pub id: usize,
}

impl Entity {
    /// The entity with the given id.
    pub fn from_id(id: usize) -> (r: Entity)
        ensures
            r.id == id,
    {
        Entity { id }
    }
}

/// Identifies a component: a plain component, or a relation to a target entity.
#[derive(Clone, Copy, Debug, PartialEq, Eq, Structural, Hash, PartialOrd, Ord)]
pub struct ComponentKey {
    pub id: Entity,
    pub target: Option<Entity>,
}

/// The order of component keys: by id, then by target, with no target first.
pub open spec fn key_lt(a: ComponentKey, b: ComponentKey) -> bool {
    a.id.id < b.id.id || (a.id.id == b.id.id && match (a.target, b.target) {
        (None, Some(_)) => true,
        (Some(x), Some(y)) => x.id < y.id,
        _ => false,
    })
}

impl ComponentKey {
    /// Creates a component key.
    pub fn new(id: Entity, target: Option<Entity>) -> (r: ComponentKey)
        ensures
            r.id == id,
            r.target == target,
    {
        ComponentKey { id, target }
    }

    /// Whether the key is a relation.
    pub fn is_relation(&self) -> (r: bool)
        ensures
            r == self.target is Some,
    {
        self.target.is_some()
    }

    /// The target of a relation.
    pub fn target(&self) -> (r: Option<Entity>)
        ensures
            r == self.target,
    {
        self.target
    }

    /// Whether `self` orders strictly before `other`.
    pub fn lt(&self, other: &ComponentKey) -> (r: bool)
        ensures
            r == key_lt(*self, *other),
    {
        if self.id.id < other.id.id {
            true
        } else if self.id.id == other.id.id {
            match (self.target, other.target) {
                (None, Some(_)) => true,
                (Some(x), Some(y)) => x.id < y.id,
                _ => false,
            }
        } else {
            false
        }
    }
}

/// `key_lt` is a strict total order.
pub proof fn lemma_key_order(a: ComponentKey, b: ComponentKey, c: ComponentKey)
    ensures
        !key_lt(a, a),
        key_lt(a, b) && key_lt(b, c) ==> key_lt(a, c),
        a != b ==> key_lt(a, b) || key_lt(b, a),
        key_lt(a, b) ==> !key_lt(b, a),
{
}


/// The key of the component which marks the entity of a component and describes it.
pub open spec fn spec_component_info_key() -> ComponentKey {
    ComponentKey { id: Entity { id: usize::MAX }, target: None }
}

/// The key of the component which marks the entity of a component and describes it.
pub fn component_info_key() -> (r: ComponentKey)
    ensures
        r == spec_component_info_key(),
{
    ComponentKey { id: Entity { id: usize::MAX }, target: None }
}

} // verus!
