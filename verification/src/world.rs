use vstd::prelude::*;

use crate::archetype::{cell_tick, keys_sorted, Archetype, ArchetypeId, Cell, EntityLocation, RowTicks};
use crate::changes::{Change, ChangeKind};
use crate::entity::{key_lt, lemma_key_order, ComponentKey, Entity};
use crate::slice::{Slice, Slot};

verus! {

/// The world after a query prepared itself: a query that writes advances the change tick by
/// one, so that its writes are newer than every change before.
pub open spec fn ticked<V>(w: World<V>, mutable: bool) -> World<V> {
    if mutable {
        World { change_tick: (w.change_tick + 1) as u32, ..w }
    } else {
        w
    }
}

/// Whether the entity is one of the built-in metadata components, which have no entity of
/// their own.
pub open spec fn is_builtin(e: Entity) -> bool {
    e.id >= usize::MAX - 3
}

/// The components of the entity of a component: its name and its description.
pub open spec fn component_entity_keys() -> Seq<ComponentKey> {
    seq![crate::metadata::spec_name_key(), crate::entity::spec_component_info_key()]
}

/// The values a world stores on the entity of a component.
pub trait ComponentValue: Sized {
    /// The value of the component's name.
    fn name_value(name: &String) -> Self;

    /// The value of the component's description.
    fn info_value(desc: &ComponentDesc) -> Self;
}

impl ComponentValue for String {
    fn name_value(name: &String) -> (r: String) {
        name.clone()
    }

    fn info_value(desc: &ComponentDesc) -> (r: String) {
        desc.name.clone()
    }
}

/// Integers carry no text: the entity of a component holds zero for its name and description.
impl ComponentValue for i32 {
    fn name_value(name: &String) -> (r: i32) {
        0
    }

    fn info_value(desc: &ComponentDesc) -> (r: i32) {
        0
    }
}

/// Describes a component: its key and name.
#[derive(Debug, PartialEq, Eq)]
pub struct ComponentDesc {
    pub key: ComponentKey,
    pub name: String,
}

impl Clone for ComponentDesc {
    fn clone(&self) -> (r: Self)
        ensures
            r == *self,
    {
        ComponentDesc { key: self.key, name: self.name.clone() }
    }
}

impl ComponentDesc {
    /// Describes a component.
    pub fn new(key: ComponentKey, name: String) -> (r: ComponentDesc)
        ensures
            r.key == key,
            r.name == name,
    {
        ComponentDesc { key, name }
    }

    /// The component's key.
    pub fn key(&self) -> (r: ComponentKey)
        ensures
            r == self.key,
    {
        self.key
    }

    /// The component's name.
    pub fn name(&self) -> (r: &str)
        ensures
            r@ == self.name@,
    {
        self.name.as_str()
    }
}

/// The errors of world access and queries.
#[derive(Debug, PartialEq, Eq)]
pub enum Error {
    /// The entity does not exist.
    NoSuchEntity(Entity),
    /// The entity lacks a component that was asked for.
    MissingComponent(Entity, ComponentDesc),
    /// The entity does not match the query.
    DoesNotMatch(Entity),
    /// The entity is excluded by the query's filter.
    Filtered(Entity),
}

impl Clone for Error {
    fn clone(&self) -> (r: Self)
        ensures
            r == *self,
    {
        match self {
            Error::NoSuchEntity(id) => Error::NoSuchEntity(*id),
            Error::MissingComponent(id, desc) => Error::MissingComponent(*id, desc.clone()),
            Error::DoesNotMatch(id) => Error::DoesNotMatch(*id),
            Error::Filtered(id) => Error::Filtered(*id),
        }
    }
}

/// The first description whose component is identified by `id`.
pub open spec fn first_desc(descs: Seq<ComponentDesc>, id: Entity) -> Option<ComponentDesc>
    decreases descs.len(),
{
    if descs.len() == 0 {
        None
    } else if descs[0].key.id == id {
        Some(descs[0])
    } else {
        first_desc(descs.drop_first(), id)
    }
}

/// The last index of `key` in `keys`, or -1.
pub open spec fn key_index(keys: Seq<ComponentKey>, key: ComponentKey) -> int
    decreases keys.len(),
{
    if keys.len() == 0 {
        -1
    } else if keys.last() == key {
        keys.len() - 1
    } else {
        key_index(keys.drop_last(), key)
    }
}

pub proof fn lemma_key_index(keys: Seq<ComponentKey>, key: ComponentKey)
    requires
        keys_sorted(keys),
    ensures
        keys.contains(key) ==> 0 <= key_index(keys, key) < keys.len() && keys[key_index(keys, key)] == key,
        !keys.contains(key) ==> key_index(keys, key) == -1,
        forall|i: int| 0 <= i < keys.len() && keys[i] == key ==> key_index(keys, key) == i,
    decreases keys.len(),
{
    if keys.len() > 0 {
        let d = keys.drop_last();
        assert(keys_sorted(d));
        lemma_key_index(d, key);
        if keys.last() != key {
            if keys.contains(key) {
                let i = choose|i: int| 0 <= i < keys.len() && keys[i] == key;
                assert(d[i] == key);
            }
            if d.contains(key) {
                let i = choose|i: int| 0 <= i < d.len() && d[i] == key;
                assert(keys[i] == key);
            }
        } else {
            assert(keys[keys.len() - 1] == key);
            assert forall|i: int| 0 <= i < keys.len() && keys[i] == key implies key_index(keys, key) == i by {
                if i < keys.len() - 1 {
                    assert(key_lt(keys[i], keys[keys.len() - 1]));
                    lemma_key_order(keys[i], keys[i], keys[i]);
                }
            }
        }
    }
}

/// The world: entities and their components, grouped into archetypes.
#[derive(Debug)]
pub struct World<V> {
    pub archetypes: Vec<Archetype<V>>,
    pub locations: Vec<Option<EntityLocation>>,
    pub descs: Vec<ComponentDesc>,
    pub change_tick: u32,
    pub archetype_gen: u32,
}

impl<V> World<V> {
    /// Every archetype is well formed, the root archetype has no component, and the locations
    /// and the archetypes' entities agree.
    pub open spec fn wf(&self) -> bool {
        &&& self.archetypes@.len() > 0
        &&& self.archetypes@[0].components@.len() == 0
        &&& forall|a: int| 0 <= a < self.archetypes@.len() ==> (#[trigger] self.archetypes@[a]).wf()
        &&& forall|a: usize, s: usize| a < self.archetypes@.len() && s < self.archetypes@[a as int].entities@.len() ==> {
            let e = #[trigger] self.archetypes@[a as int].entities@[s as int];
            &&& e.id < self.locations@.len()
            &&& self.locations@[e.id as int] == Some(EntityLocation { arch_id: a, slot: s })
        }
        &&& forall|id: int| 0 <= id < self.locations@.len() && (#[trigger] self.locations@[id]) is Some ==> {
            let l = self.locations@[id]->0;
            &&& l.arch_id < self.archetypes@.len()
            &&& l.slot < self.archetypes@[l.arch_id as int].entities@.len()
            &&& self.archetypes@[l.arch_id as int].entities@[l.slot as int].id == id
        }
    }

    /// Whether the entity exists.
    pub open spec fn alive(&self, id: Entity) -> bool {
        id.id < self.locations@.len() && self.locations@[id.id as int] is Some
    }

    /// Where the entity is stored.
    pub open spec fn loc_of(&self, id: Entity) -> EntityLocation {
        self.locations@[id.id as int]->0
    }

    /// The components of an existing entity.
    pub open spec fn keys_of(&self, id: Entity) -> Seq<ComponentKey> {
        self.archetypes@[self.loc_of(id).arch_id as int].components@
    }

    /// The value of a component of an entity.
    pub open spec fn value_of(&self, id: Entity, key: ComponentKey) -> Option<V> {
        if !self.alive(id) {
            None
        } else {
            let l = self.loc_of(id);
            let a = self.archetypes@[l.arch_id as int];
            let i = key_index(a.components@, key);
            if i < 0 {
                None
            } else {
                Some(a.cells@[i].data@[l.slot as int])
            }
        }
    }

    /// The tick at which a component of an entity last changed in the given way.
    pub open spec fn tick_of(&self, id: Entity, key: ComponentKey, kind: ChangeKind) -> Option<u32> {
        if !self.alive(id) {
            None
        } else {
            let l = self.loc_of(id);
            let a = self.archetypes@[l.arch_id as int];
            let i = key_index(a.components@, key);
            if i < 0 {
                None
            } else {
                cell_tick(a.cells@[i], kind, l.slot as int)
            }
        }
    }

    /// An empty world.
    pub fn new() -> (r: World<V>)
        ensures
            r.wf(),
            r.locations@.len() == 0,
            r.change_tick == 1,
            r.archetype_gen == 0,
            r.descs@.len() == 0,
            r.archetypes@.len() == 1,
            r.archetypes@[0].components@.len() == 0,
            r.archetypes@[0].entities@.len() == 0,
            r.has_room(),
    {
        let mut archetypes: Vec<Archetype<V>> = Vec::new();
        archetypes.push(Archetype::new(Vec::new()));
        World { archetypes, locations: Vec::new(), descs: Vec::new(), change_tick: 1, archetype_gen: 0 }
    }

    /// The current change tick.
    pub fn change_tick(&self) -> (r: u32)
        ensures
            r == self.change_tick,
    {
        self.change_tick
    }

    /// Advances the change tick by one, returning the new tick.
    pub fn advance_change_tick(&mut self) -> (r: u32)
        requires
            old(self).change_tick < u32::MAX,
        ensures
            *final(self) == ticked(*old(self), true),
            r == final(self).change_tick,
    {
        self.change_tick = self.change_tick + 1;
        self.change_tick
    }

    /// The archetype generation, which grows when an archetype is created.
    pub fn archetype_gen(&self) -> (r: u32)
        ensures
            r == self.archetype_gen,
    {
        self.archetype_gen
    }

    /// The archetype of an id.
    pub fn archetype(&self, arch_id: ArchetypeId) -> (r: &Archetype<V>)
        requires
            arch_id < self.archetypes@.len(),
        ensures
            *r == self.archetypes@[arch_id as int],
    {
        &self.archetypes[arch_id]
    }

    /// Number of archetypes.
    pub fn archetype_count(&self) -> (r: usize)
        ensures
            r == self.archetypes@.len(),
    {
        self.archetypes.len()
    }

    /// Where an entity is stored.
    pub fn location(&self, id: Entity) -> (r: Result<EntityLocation, Error>)
        requires
            self.wf(),
        ensures
            self.alive(id) ==> r == Ok::<EntityLocation, Error>(self.loc_of(id)),
            !self.alive(id) ==> r == Err::<EntityLocation, Error>(Error::NoSuchEntity(id)),
            r matches Ok(l) ==> l.arch_id < self.archetypes@.len() && l.slot < self.archetypes@[l.arch_id as int].entities@.len(),
    {
        if id.id < self.locations.len() {
            match self.locations[id.id] {
                Some(l) => Ok(l),
                None => Err(Error::NoSuchEntity(id)),
            }
        } else {
            Err(Error::NoSuchEntity(id))
        }
    }

    /// Whether the entity exists.
    pub fn is_alive(&self, id: Entity) -> (r: bool)
        requires
            self.wf(),
        ensures
            r == self.alive(id),
    {
        self.location(id).is_ok()
    }

    /// The description of the component identified by `id`, where it was registered.
    pub fn desc_of(&self, id: Entity) -> (r: Option<ComponentDesc>)
        ensures
            r == first_desc(self.descs@, id),
    {
        let mut i: usize = 0;
        assert(self.descs@.skip(0) =~= self.descs@);
        while i < self.descs.len()
            invariant
                0 <= i <= self.descs@.len(),
                first_desc(self.descs@.skip(i as int), id) == first_desc(self.descs@, id),
            decreases self.descs@.len() - i,
        {
            assert(self.descs@.skip(i as int).drop_first() =~= self.descs@.skip(i + 1));
            if self.descs[i].key.id == id {
                return Some(self.descs[i].clone());
            }
            i += 1;
        }
        None
    }

    /// Remembers a component's description, unless one with the same key is remembered.
    fn register(&mut self, desc: &ComponentDesc)
        ensures
            final(self).archetypes == old(self).archetypes,
            final(self).locations == old(self).locations,
            final(self).change_tick == old(self).change_tick,
            final(self).archetype_gen == old(self).archetype_gen,
            final(self).descs@ == if exists|i: int| 0 <= i < old(self).descs@.len() && (#[trigger] old(self).descs@[i]).key == desc.key {
                old(self).descs@
            } else {
                old(self).descs@.push(*desc)
            },
    {
        let mut i: usize = 0;
        while i < self.descs.len()
            invariant
                0 <= i <= self.descs@.len(),
                self.descs == old(self).descs,
                self.archetypes == old(self).archetypes,
                self.locations == old(self).locations,
                self.change_tick == old(self).change_tick,
                self.archetype_gen == old(self).archetype_gen,
                forall|k: int| 0 <= k < i ==> (#[trigger] self.descs@[k]).key != desc.key,
            decreases self.descs@.len() - i,
        {
            if self.descs[i].key == desc.key {
                return;
            }
            i += 1;
        }
        self.descs.push(desc.clone());
    }

    /// Reads a component of an entity.
    pub fn get(&self, id: Entity, key: ComponentKey) -> (r: Result<&V, Error>)
        requires
            self.wf(),
        ensures
            r matches Ok(v) ==> self.value_of(id, key) == Some(*v),
            r is Err ==> self.value_of(id, key) is None,
            !self.alive(id) ==> r == Err::<&V, Error>(Error::NoSuchEntity(id)),
    {
        let l = match self.location(id) {
            Ok(l) => l,
            Err(e) => {
                return Err(e);
            },
        };
        let arch = &self.archetypes[l.arch_id];
        proof {
            assert(arch.wf());
            lemma_key_index(arch.components@, key);
        }
        match arch.index_of(key) {
            Some(i) => Ok(&arch.cells[i].data[l.slot]),
            None => Err(Error::MissingComponent(id, ComponentDesc { key, name: String::new() })),
        }
    }

    /// Creates an entity without components.
    pub fn spawn(&mut self) -> (r: Entity)
        requires
            old(self).wf(),
            old(self).locations@.len() < usize::MAX,
            old(self).archetypes@[0].entities@.len() < usize::MAX - 1,
        ensures
            final(self).wf(),
            r.id == old(self).locations@.len(),
            final(self).alive(r),
            final(self).keys_of(r).len() == 0,
            forall|x: Entity| x != r ==> (#[trigger] final(self).alive(x)) == old(self).alive(x),
            forall|x: Entity, k: ComponentKey| x != r ==> #[trigger] final(self).value_of(x, k) == old(self).value_of(x, k),
            final(self).archetypes@.len() == old(self).archetypes@.len(),
            final(self).change_tick == old(self).change_tick,
    {
        let id = Entity { id: self.locations.len() };
        let slot = self.archetypes[0].entities.len();
        let ghost old_archs = self.archetypes@;
        self.archetypes[0].push_row(id, Vec::new(), Vec::new());
        self.locations.push(Some(EntityLocation { arch_id: 0, slot }));
        proof {
            assert forall|a: int| 0 <= a < self.archetypes@.len() implies (#[trigger] self.archetypes@[a]).wf() by {
                if a != 0 {
                    assert(self.archetypes@[a] == old_archs[a]);
                }
            }
            assert forall|a: usize, s: usize| a < self.archetypes@.len() && s < self.archetypes@[a as int].entities@.len() implies {
                let e = #[trigger] self.archetypes@[a as int].entities@[s as int];
                &&& e.id < self.locations@.len()
                &&& self.locations@[e.id as int] == Some(EntityLocation { arch_id: a, slot: s })
            } by {
                if a != 0 || s < slot {
                    assert(self.archetypes@[a as int].entities@[s as int] == old_archs[a as int].entities@[s as int]);
                    let e = old_archs[a as int].entities@[s as int];
                    assert(old(self).locations@[e.id as int] == Some(EntityLocation { arch_id: a, slot: s }));
                }
            }
            assert forall|i: int| 0 <= i < self.locations@.len() && (#[trigger] self.locations@[i]) is Some implies {
                let l = self.locations@[i]->0;
                &&& l.arch_id < self.archetypes@.len()
                &&& l.slot < self.archetypes@[l.arch_id as int].entities@.len()
                &&& self.archetypes@[l.arch_id as int].entities@[l.slot as int].id == i
            } by {
                if i < old(self).locations@.len() {
                    let l = old(self).locations@[i]->0;
                    assert(old(self).locations@[i] is Some);
                    if l.arch_id == 0 {
                        assert(self.archetypes@[0].entities@[l.slot as int] == old_archs[0].entities@[l.slot as int]);
                    }
                }
            }
            assert forall|x: Entity, k: ComponentKey| x != id implies #[trigger] self.value_of(x, k) == old(self).value_of(x, k) by {
                if old(self).alive(x) {
                    let l = old(self).loc_of(x);
                    assert(old(self).locations@[x.id as int] is Some);
                    if l.arch_id == 0 {
                        let i = key_index(old_archs[0].components@, k);
                        lemma_key_index(old_archs[0].components@, k);
                    }
                }
            }
        }
        id
    }

    /// Removes the entity from its archetype, leaving it without a location.
    fn detach(&mut self, id: Entity) -> (r: (Vec<V>, Vec<RowTicks>))
        requires
            old(self).wf(),
            old(self).alive(id),
            old(self).archetypes@[old(self).loc_of(id).arch_id as int].entities@.len() < usize::MAX,
        ensures
            final(self).wf(),
            !final(self).alive(id),
            final(self).locations@.len() == old(self).locations@.len(),
            final(self).archetypes@.len() == old(self).archetypes@.len(),
            forall|a: int| 0 <= a < final(self).archetypes@.len() ==> (#[trigger] final(self).archetypes@[a]).components == old(self).archetypes@[a].components,
            forall|a: int| 0 <= a < final(self).archetypes@.len() ==> (#[trigger] final(self).archetypes@[a]).entities@.len() <= old(self).archetypes@[a].entities@.len(),
            final(self).change_tick == old(self).change_tick,
            final(self).archetype_gen == old(self).archetype_gen,
            r.0@.len() == old(self).keys_of(id).len(),
            r.1@.len() == old(self).keys_of(id).len(),
            forall|c: int| 0 <= c < r.0@.len() ==> r.0@[c] == old(self).value_of(id, #[trigger] old(self).keys_of(id)[c])->0,
            forall|c: int, k: ChangeKind| 0 <= c < r.1@.len() ==> #[trigger] r.1@[c].spec_get(k) == old(self).tick_of(id, old(self).keys_of(id)[c], k),
            forall|x: Entity| x != id ==> (#[trigger] final(self).alive(x)) == old(self).alive(x),
            forall|x: Entity| x != id && old(self).alive(x) ==> (#[trigger] final(self).keys_of(x)) == old(self).keys_of(x),
            forall|x: Entity, k: ComponentKey| x != id ==> #[trigger] final(self).value_of(x, k) == old(self).value_of(x, k),
            forall|x: Entity, k: ComponentKey, kind: ChangeKind| x != id ==> #[trigger] final(self).tick_of(x, k, kind) == old(self).tick_of(x, k, kind),
    {
        let idx = id.id;
        proof {
            assert(old(self).locations@[id.id as int] is Some);
            assert(id.id < old(self).locations@.len());
            assert(idx as int == id.id as int);
        }
        let l = match self.locations[idx] {
            Some(l) => l,
            None => {
                proof {
                    assert(false);
                }
                EntityLocation { arch_id: 0, slot: 0 }
            },
        };
        let a = l.arch_id;
        let slot = l.slot;
        let ghost old_archs = self.archetypes@;
        let ghost old_arch = self.archetypes@[a as int];
        let last = self.archetypes[a].entities.len() - 1;
        let moved = self.archetypes[a].entities[last];
        proof {
            assert(old_arch.wf());
            assert(old(self).locations@[moved.id as int] == Some(EntityLocation { arch_id: a, slot: last }));
            assert(old(self).locations@[id.id as int] == Some(EntityLocation { arch_id: a, slot }));
            assert(old_arch.entities@[slot as int].id == id.id);
        }
        let r = self.archetypes[a].take_row(slot);
        self.locations.set(idx, None);
        if slot < last {
            let midx = moved.id;
            proof {
                assert(midx as int == moved.id as int);
            }
            self.locations.set(midx, Some(EntityLocation { arch_id: a, slot }));
        }
        proof {
            let new_arch = self.archetypes@[a as int];
            assert(moved.id != id.id || slot == last);
            assert forall|b: int| 0 <= b < self.archetypes@.len() implies (#[trigger] self.archetypes@[b]).wf() by {
                if b != a {
                    assert(self.archetypes@[b] == old_archs[b]);
                }
            }
            assert forall|b: usize, s: usize| b < self.archetypes@.len() && s < self.archetypes@[b as int].entities@.len() implies {
                let e = #[trigger] self.archetypes@[b as int].entities@[s as int];
                &&& e.id < self.locations@.len()
                &&& self.locations@[e.id as int] == Some(EntityLocation { arch_id: b, slot: s })
            } by {
                if b != a {
                    assert(self.archetypes@[b as int] == old_archs[b as int]);
                    let e = old_archs[b as int].entities@[s as int];
                    assert(old(self).locations@[e.id as int] == Some(EntityLocation { arch_id: b, slot: s }));
                    assert(e.id != id.id);
                    assert(e.id != moved.id);
                    assert(self.locations@[e.id as int] == old(self).locations@[e.id as int]);
                } else if s == slot {
                    assert(self.archetypes@[b as int].entities@[s as int] == moved);
                } else {
                    let e = old_archs[b as int].entities@[s as int];
                    assert(self.archetypes@[b as int].entities@[s as int] == e);
                    assert(old(self).locations@[e.id as int] == Some(EntityLocation { arch_id: b, slot: s }));
                    assert(e.id != id.id);
                    assert(e.id != moved.id);
                    assert(self.locations@[e.id as int] == old(self).locations@[e.id as int]);
                }
            }
            assert forall|i: int| 0 <= i < self.locations@.len() && (#[trigger] self.locations@[i]) is Some implies {
                let l2 = self.locations@[i]->0;
                &&& l2.arch_id < self.archetypes@.len()
                &&& l2.slot < self.archetypes@[l2.arch_id as int].entities@.len()
                &&& self.archetypes@[l2.arch_id as int].entities@[l2.slot as int].id == i
            } by {
                assert(old(self).locations@[i] is Some);
                let l0 = old(self).locations@[i]->0;
                if i == moved.id && slot < last {
                } else {
                    assert(self.locations@[i] == old(self).locations@[i]);
                    if l0.arch_id != a {
                        assert(self.archetypes@[l0.arch_id as int] == old_archs[l0.arch_id as int]);
                    } else {
                        assert(l0.slot != slot);
                        assert(l0.slot != last || slot == last);
                    }
                }
            }
            assert forall|x: Entity| x != id implies (#[trigger] self.alive(x)) == old(self).alive(x) by {
                if x.id == id.id {
                    assert(x == id);
                }
            }
            assert forall|c: int| 0 <= c < r.0@.len() implies r.0@[c] == old(self).value_of(id, #[trigger] old(self).keys_of(id)[c])->0 by {
                lemma_key_index(old_arch.components@, old_arch.components@[c]);
            }
            assert forall|c: int, k: ChangeKind| 0 <= c < r.1@.len() implies #[trigger] r.1@[c].spec_get(k) == old(self).tick_of(id, old(self).keys_of(id)[c], k) by {
                lemma_key_index(old_arch.components@, old_arch.components@[c]);
            }
            assert forall|x: Entity, k: ComponentKey| x != id implies #[trigger] self.value_of(x, k) == old(self).value_of(x, k) by {
                if old(self).alive(x) {
                    assert(x.id != id.id);
                    let l0 = old(self).loc_of(x);
                    assert(old(self).locations@[x.id as int] is Some);
                    lemma_key_index(old_archs[l0.arch_id as int].components@, k);
                }
            }
            assert forall|x: Entity, k: ComponentKey, kind: ChangeKind| x != id implies #[trigger] self.tick_of(x, k, kind) == old(self).tick_of(x, k, kind) by {
                if old(self).alive(x) {
                    assert(x.id != id.id);
                    let l0 = old(self).loc_of(x);
                    assert(old(self).locations@[x.id as int] is Some);
                    lemma_key_index(old_archs[l0.arch_id as int].components@, k);
                }
            }
        }
        r
    }

    /// Places an entity without location into archetype `dst`, with the given values and change
    /// ticks in the archetype's component order.
    fn attach(&mut self, id: Entity, dst: ArchetypeId, vals: Vec<V>, ticks: Vec<RowTicks>)
        requires
            old(self).wf(),
            !old(self).alive(id),
            id.id < old(self).locations@.len(),
            dst < old(self).archetypes@.len(),
            vals@.len() == old(self).archetypes@[dst as int].components@.len(),
            ticks@.len() == old(self).archetypes@[dst as int].components@.len(),
            old(self).archetypes@[dst as int].entities@.len() < usize::MAX - 1,
        ensures
            final(self).wf(),
            final(self).alive(id),
            final(self).loc_of(id).arch_id == dst,
            final(self).keys_of(id) == old(self).archetypes@[dst as int].components@,
            final(self).locations@.len() == old(self).locations@.len(),
            final(self).archetypes@.len() == old(self).archetypes@.len(),
            forall|a: int| 0 <= a < final(self).archetypes@.len() ==> (#[trigger] final(self).archetypes@[a]).components == old(self).archetypes@[a].components,
            forall|a: int| 0 <= a < final(self).archetypes@.len() && a != dst ==> (#[trigger] final(self).archetypes@[a]).entities@.len() == old(self).archetypes@[a].entities@.len(),
            final(self).archetypes@[dst as int].entities@.len() == old(self).archetypes@[dst as int].entities@.len() + 1,
            final(self).change_tick == old(self).change_tick,
            final(self).archetype_gen == old(self).archetype_gen,
            forall|c: int| 0 <= c < vals@.len() ==> final(self).value_of(id, #[trigger] final(self).keys_of(id)[c]) == Some(vals@[c]),
            forall|c: int, k: ChangeKind| 0 <= c < ticks@.len() ==> #[trigger] final(self).tick_of(id, final(self).keys_of(id)[c], k) == ticks@[c].spec_get(k),
            forall|k: ComponentKey| !final(self).keys_of(id).contains(k) ==> #[trigger] final(self).value_of(id, k) is None,
            forall|x: Entity| x != id ==> (#[trigger] final(self).alive(x)) == old(self).alive(x),
            forall|x: Entity| x != id && old(self).alive(x) ==> (#[trigger] final(self).keys_of(x)) == old(self).keys_of(x),
            forall|x: Entity, k: ComponentKey| x != id ==> #[trigger] final(self).value_of(x, k) == old(self).value_of(x, k),
            forall|x: Entity, k: ComponentKey, kind: ChangeKind| x != id ==> #[trigger] final(self).tick_of(x, k, kind) == old(self).tick_of(x, k, kind),
    {
        let ghost old_archs = self.archetypes@;
        let ghost vals0 = vals@;
        let ghost ticks0 = ticks@;
        let slot = self.archetypes[dst].entities.len();
        self.archetypes[dst].push_row(id, vals, ticks);
        self.locations.set(id.id, Some(EntityLocation { arch_id: dst, slot }));
        proof {
            let keys = old_archs[dst as int].components@;
            assert(old_archs[dst as int].wf());
            assert forall|b: int| 0 <= b < self.archetypes@.len() implies (#[trigger] self.archetypes@[b]).wf() by {
                if b != dst {
                    assert(self.archetypes@[b] == old_archs[b]);
                }
            }
            assert forall|b: usize, s: usize| b < self.archetypes@.len() && s < self.archetypes@[b as int].entities@.len() implies {
                let e = #[trigger] self.archetypes@[b as int].entities@[s as int];
                &&& e.id < self.locations@.len()
                &&& self.locations@[e.id as int] == Some(EntityLocation { arch_id: b, slot: s })
            } by {
                if b != dst || s < slot {
                    let e = old_archs[b as int].entities@[s as int];
                    assert(self.archetypes@[b as int].entities@[s as int] == e);
                    assert(old(self).locations@[e.id as int] == Some(EntityLocation { arch_id: b, slot: s }));
                    assert(e.id != id.id);
                }
            }
            assert forall|i: int| 0 <= i < self.locations@.len() && (#[trigger] self.locations@[i]) is Some implies {
                let l2 = self.locations@[i]->0;
                &&& l2.arch_id < self.archetypes@.len()
                &&& l2.slot < self.archetypes@[l2.arch_id as int].entities@.len()
                &&& self.archetypes@[l2.arch_id as int].entities@[l2.slot as int].id == i
            } by {
                if i != id.id {
                    assert(old(self).locations@[i] is Some);
                    let l0 = old(self).locations@[i]->0;
                    if l0.arch_id != dst {
                        assert(self.archetypes@[l0.arch_id as int] == old_archs[l0.arch_id as int]);
                    } else {
                        assert(self.archetypes@[dst as int].entities@[l0.slot as int] == old_archs[dst as int].entities@[l0.slot as int]);
                    }
                }
            }
            assert forall|x: Entity| x != id implies (#[trigger] self.alive(x)) == old(self).alive(x) by {
                if x.id == id.id {
                    assert(x == id);
                }
            }
            assert forall|c: int| 0 <= c < vals0.len() implies self.value_of(id, #[trigger] self.keys_of(id)[c]) == Some(vals0[c]) by {
                lemma_key_index(keys, keys[c]);
            }
            assert forall|c: int, k: ChangeKind| 0 <= c < ticks0.len() implies #[trigger] self.tick_of(id, self.keys_of(id)[c], k) == ticks0[c].spec_get(k) by {
                lemma_key_index(keys, keys[c]);
            }
            assert forall|k: ComponentKey| !self.keys_of(id).contains(k) implies #[trigger] self.value_of(id, k) is None by {
                lemma_key_index(keys, k);
            }
            assert forall|x: Entity, k: ComponentKey| x != id implies #[trigger] self.value_of(x, k) == old(self).value_of(x, k) by {
                if old(self).alive(x) {
                    assert(x.id != id.id);
                    let l0 = old(self).loc_of(x);
                    assert(old(self).locations@[x.id as int] is Some);
                    lemma_key_index(old_archs[l0.arch_id as int].components@, k);
                }
            }
            assert forall|x: Entity, k: ComponentKey, kind: ChangeKind| x != id implies #[trigger] self.tick_of(x, k, kind) == old(self).tick_of(x, k, kind) by {
                if old(self).alive(x) {
                    assert(x.id != id.id);
                    let l0 = old(self).loc_of(x);
                    assert(old(self).locations@[x.id as int] is Some);
                    lemma_key_index(old_archs[l0.arch_id as int].components@, k);
                }
            }
        }
    }

    /// The archetype with exactly the given components, created when missing.
    fn find_or_create(&mut self, keys: Vec<ComponentKey>) -> (r: ArchetypeId)
        requires
            old(self).wf(),
            keys_sorted(keys@),
            old(self).archetypes@.len() < usize::MAX,
        ensures
            final(self).wf(),
            r < final(self).archetypes@.len(),
            final(self).archetypes@[r as int].components@ == keys@,
            final(self).archetypes@.len() >= old(self).archetypes@.len(),
            final(self).archetypes@.len() <= old(self).archetypes@.len() + 1,
            final(self).archetypes@.len() > old(self).archetypes@.len() ==> r == old(self).archetypes@.len(),
            forall|a: int| 0 <= a < old(self).archetypes@.len() ==> #[trigger] final(self).archetypes@[a] == old(self).archetypes@[a],
            r >= old(self).archetypes@.len() ==> final(self).archetypes@[r as int].entities@.len() == 0,
            final(self).locations == old(self).locations,
            final(self).change_tick == old(self).change_tick,
            forall|x: Entity| #[trigger] final(self).alive(x) == old(self).alive(x),
            forall|x: Entity| old(self).alive(x) ==> (#[trigger] final(self).keys_of(x)) == old(self).keys_of(x),
            forall|x: Entity, k: ComponentKey| #[trigger] final(self).value_of(x, k) == old(self).value_of(x, k),
            forall|x: Entity, k: ComponentKey, kind: ChangeKind| #[trigger] final(self).tick_of(x, k, kind) == old(self).tick_of(x, k, kind),
    {
        let mut a: usize = 0;
        while a < self.archetypes.len()
            invariant
                0 <= a <= self.archetypes@.len(),
                *self == *old(self),
                old(self).wf(),
            decreases self.archetypes@.len() - a,
        {
            if keys_equal(self.archetypes[a].components.as_slice(), keys.as_slice()) {
                return a;
            }
            a += 1;
        }
        let ghost old_archs = self.archetypes@;
        let id = self.archetypes.len();
        self.archetypes.push(Archetype::new(keys));
        self.archetype_gen = self.archetype_gen.wrapping_add(1);
        proof {
            assert forall|b: int| 0 <= b < self.archetypes@.len() implies (#[trigger] self.archetypes@[b]).wf() by {
                if b < id {
                    assert(self.archetypes@[b] == old_archs[b]);
                }
            }
            assert forall|b: usize, s: usize| b < self.archetypes@.len() && s < self.archetypes@[b as int].entities@.len() implies {
                let e = #[trigger] self.archetypes@[b as int].entities@[s as int];
                &&& e.id < self.locations@.len()
                &&& self.locations@[e.id as int] == Some(EntityLocation { arch_id: b, slot: s })
            } by {
                assert(self.archetypes@[b as int] == old_archs[b as int]);
            }
            assert forall|i: int| 0 <= i < self.locations@.len() && (#[trigger] self.locations@[i]) is Some implies {
                let l2 = self.locations@[i]->0;
                &&& l2.arch_id < self.archetypes@.len()
                &&& l2.slot < self.archetypes@[l2.arch_id as int].entities@.len()
                &&& self.archetypes@[l2.arch_id as int].entities@[l2.slot as int].id == i
            } by {
                let l0 = self.locations@[i]->0;
                assert(self.archetypes@[l0.arch_id as int] == old_archs[l0.arch_id as int]);
            }
            assert forall|x: Entity| old(self).alive(x) implies (#[trigger] self.keys_of(x)) == old(self).keys_of(x) by {
                assert(old(self).locations@[x.id as int] is Some);
            }
            assert forall|x: Entity, k: ComponentKey| #[trigger] self.value_of(x, k) == old(self).value_of(x, k) by {
                if old(self).alive(x) {
                    assert(old(self).locations@[x.id as int] is Some);
                }
            }
            assert forall|x: Entity, k: ComponentKey, kind: ChangeKind| #[trigger] self.tick_of(x, k, kind) == old(self).tick_of(x, k, kind) by {
                if old(self).alive(x) {
                    assert(old(self).locations@[x.id as int] is Some);
                }
            }
        }
        id
    }

    /// The world has room for a component's entity, then for one more change and one more
    /// entity in any archetype.
    pub open spec fn room_to_set(&self) -> bool {
        &&& self.change_tick < u32::MAX
        &&& self.archetypes@.len() < usize::MAX - 1
        &&& forall|a: int| 0 <= a < self.archetypes@.len() ==> (#[trigger] self.archetypes@[a]).entities@.len() < usize::MAX - 2
    }

    /// The world has room for one more change and one more entity in any archetype.
    pub open spec fn has_room(&self) -> bool {
        &&& self.change_tick < u32::MAX
        &&& self.archetypes@.len() < usize::MAX
        &&& forall|a: int| 0 <= a < self.archetypes@.len() ==> (#[trigger] self.archetypes@[a]).entities@.len() < usize::MAX - 1
    }

    /// Overwrites a component an entity has, returning the previous value, and records it as
    /// modified at `tick`; the world's change tick stays as it is.
    #[verifier::rlimit(50)]
    #[verifier::spinoff_prover]
    pub fn write(&mut self, id: Entity, desc: &ComponentDesc, value: V, tick: u32) -> (r: Result<V, Error>)
        requires
            old(self).wf(),
        ensures
            final(self).wf(),
            final(self).change_tick == old(self).change_tick,
            !old(self).alive(id) ==> r == Err::<V, Error>(Error::NoSuchEntity(id)) && *final(self) == *old(self),
            old(self).alive(id) && !old(self).keys_of(id).contains(desc.key) ==> r == Err::<V, Error>(
                Error::MissingComponent(id, *desc),
            ) && *final(self) == *old(self),
            r is Ok <==> old(self).alive(id) && old(self).keys_of(id).contains(desc.key),
            r matches Ok(prev) ==> {
                &&& old(self).value_of(id, desc.key) == Some(prev)
                &&& final(self).value_of(id, desc.key) == Some(value)
                &&& final(self).tick_of(id, desc.key, ChangeKind::Modified) == Some(tick)
                &&& final(self).keys_of(id) == old(self).keys_of(id)
                &&& forall|k: ComponentKey| k != desc.key ==> #[trigger] final(self).value_of(id, k) == old(self).value_of(id, k)
                &&& forall|k: ComponentKey, kind: ChangeKind| k != desc.key || kind != ChangeKind::Modified ==> #[trigger] final(self).tick_of(id, k, kind) == old(self).tick_of(id, k, kind)
            },
            forall|x: Entity| #[trigger] final(self).alive(x) == old(self).alive(x),
            forall|x: Entity, k: ComponentKey| x != id ==> #[trigger] final(self).value_of(x, k) == old(self).value_of(x, k),
            forall|x: Entity, k: ComponentKey, kind: ChangeKind| x != id ==> #[trigger] final(self).tick_of(x, k, kind) == old(self).tick_of(x, k, kind),
    {
        let l = match self.location(id) {
            Ok(l) => l,
            Err(e) => {
                return Err(e);
            },
        };
        let key = desc.key;
        let a = l.arch_id;
        let ghost arch0 = self.archetypes@[a as int];
        proof {
            assert(arch0.wf());
            lemma_key_index(arch0.components@, key);
            assert(old(self).locations@[id.id as int] is Some);
        }
        let i = match self.archetypes[a].index_of(key) {
            Some(i) => i,
            None => {
                return Err(Error::MissingComponent(id, desc.clone()));
            },
        };
        assert(arch0.entities@.len() <= usize::MAX) by {
            assert(self.archetypes@[a as int].entities.len() == self.archetypes@[a as int].entities@.len());
        }
        let ghost before = self.archetypes@;
        let prev = self.archetypes[a].replace_value(i, l.slot, value);
        self.archetypes[a].mark(i, ChangeKind::Modified, l.slot, tick);
        proof {
            let arch1 = self.archetypes@[a as int];
            assert forall|b: int| 0 <= b < self.archetypes@.len() implies (#[trigger] self.archetypes@[b]).wf() by {
                if b != a {
                    assert(self.archetypes@[b] == before[b]);
                }
            }
            assert forall|b: usize, s: usize| b < self.archetypes@.len() && s < self.archetypes@[b as int].entities@.len() implies {
                let e = #[trigger] self.archetypes@[b as int].entities@[s as int];
                &&& e.id < self.locations@.len()
                &&& self.locations@[e.id as int] == Some(EntityLocation { arch_id: b, slot: s })
            } by {
                assert(self.archetypes@[b as int].entities == before[b as int].entities);
            }
            assert forall|j: int| 0 <= j < self.locations@.len() && (#[trigger] self.locations@[j]) is Some implies {
                let l2 = self.locations@[j]->0;
                &&& l2.arch_id < self.archetypes@.len()
                &&& l2.slot < self.archetypes@[l2.arch_id as int].entities@.len()
                &&& self.archetypes@[l2.arch_id as int].entities@[l2.slot as int].id == j
            } by {
                let l0 = self.locations@[j]->0;
                assert(self.archetypes@[l0.arch_id as int].entities == before[l0.arch_id as int].entities);
            }
            assert(key_index(arch1.components@, key) == i);
            assert forall|k: ComponentKey| k != key implies #[trigger] self.value_of(id, k) == old(self).value_of(id, k) by {
                lemma_key_index(arch0.components@, k);
            }
            assert forall|k: ComponentKey, kind: ChangeKind| k != key || kind != ChangeKind::Modified implies #[trigger] self.tick_of(id, k, kind) == old(self).tick_of(id, k, kind) by {
                lemma_key_index(arch0.components@, k);
            }
            assert forall|x: Entity, k: ComponentKey| x != id implies #[trigger] self.value_of(x, k) == old(self).value_of(x, k) by {
                if old(self).alive(x) {
                    assert(old(self).locations@[x.id as int] is Some);
                    let l0 = old(self).loc_of(x);
                    lemma_key_index(before[l0.arch_id as int].components@, k);
                    if l0.arch_id == a {
                        assert(l0.slot != l.slot);
                    }
                }
            }
            assert forall|x: Entity, k: ComponentKey, kind: ChangeKind| x != id implies #[trigger] self.tick_of(x, k, kind) == old(self).tick_of(x, k, kind) by {
                if old(self).alive(x) {
                    assert(old(self).locations@[x.id as int] is Some);
                    let l0 = old(self).loc_of(x);
                    lemma_key_index(before[l0.arch_id as int].components@, k);
                    if l0.arch_id == a {
                        assert(l0.slot != l.slot);
                    }
                }
            }
            assert(self.keys_of(id) == old(self).keys_of(id));
        }
        Ok(prev)
    }

    /// Sets a component of an entity, returning the previous value.
    ///
    /// Where the component has no entity yet (and is not one of the built-in metadata
    /// components), its entity is created first, with the component's name and description.
    /// The component is recorded as modified at a new change tick, and as added when the entity
    /// did not have it.
    pub fn set(&mut self, id: Entity, desc: &ComponentDesc, value: V) -> (r: Result<Option<V>, Error>) where V: ComponentValue
        requires
            old(self).wf(),
            old(self).room_to_set(),
        ensures
            final(self).wf(),
            old(self).alive(id) <==> r is Ok,
            !old(self).alive(id) ==> r == Err::<Option<V>, Error>(Error::NoSuchEntity(id)) && *final(self) == *old(self),
            r matches Ok(prev) ==> {
                &&& prev == old(self).value_of(id, desc.key)
                &&& final(self).change_tick == old(self).change_tick + 1
                &&& final(self).value_of(id, desc.key) == Some(value)
                &&& final(self).tick_of(id, desc.key, ChangeKind::Modified) == Some(final(self).change_tick)
                &&& prev is None ==> final(self).tick_of(id, desc.key, ChangeKind::Added) == Some(final(self).change_tick)
                &&& final(self).keys_of(id).to_set() == old(self).keys_of(id).to_set().insert(desc.key)
                &&& forall|k: ComponentKey| k != desc.key ==> #[trigger] final(self).value_of(id, k) == old(self).value_of(id, k)
                &&& final(self).alive(desc.key.id) || is_builtin(desc.key.id)
            },
            r is Ok && !old(self).alive(desc.key.id) && !is_builtin(desc.key.id) ==> {
                &&& final(self).value_of(desc.key.id, crate::metadata::spec_name_key()) is Some
                &&& final(self).value_of(desc.key.id, crate::entity::spec_component_info_key()) is Some
            },
            forall|x: Entity| x != desc.key.id ==> #[trigger] final(self).alive(x) == old(self).alive(x),
            forall|x: Entity, k: ComponentKey| x != id && (x != desc.key.id || old(self).alive(x)) ==> #[trigger] final(self).value_of(x, k) == old(self).value_of(x, k),
            forall|x: Entity, k: ComponentKey, kind: ChangeKind| x != id && (x != desc.key.id || old(self).alive(x)) ==> #[trigger] final(self).tick_of(x, k, kind) == old(self).tick_of(x, k, kind),
    {
        if !self.is_alive(id) {
            return Err(Error::NoSuchEntity(id));
        }
        self.init_component(desc);
        self.set_value(id, desc, value)
    }

    /// Creates the entity of a component where it has none and is not a built-in metadata
    /// component: its components are the component's name and description.
    fn init_component(&mut self, desc: &ComponentDesc) where V: ComponentValue
        requires
            old(self).wf(),
            old(self).room_to_set(),
        ensures
            final(self).wf(),
            final(self).has_room(),
            final(self).change_tick == old(self).change_tick,
            old(self).alive(desc.key.id) || is_builtin(desc.key.id) ==> *final(self) == *old(self),
            !old(self).alive(desc.key.id) && !is_builtin(desc.key.id) ==> final(self).alive(desc.key.id)
                && final(self).keys_of(desc.key.id) == component_entity_keys()
                && final(self).value_of(desc.key.id, crate::metadata::spec_name_key()) is Some
                && final(self).value_of(desc.key.id, crate::entity::spec_component_info_key()) is Some,
            forall|x: Entity| x != desc.key.id ==> #[trigger] final(self).alive(x) == old(self).alive(x),
            forall|x: Entity| x != desc.key.id && old(self).alive(x) ==> (#[trigger] final(self).keys_of(x)) == old(self).keys_of(x),
            forall|x: Entity, k: ComponentKey| x != desc.key.id ==> #[trigger] final(self).value_of(x, k) == old(self).value_of(x, k),
            forall|x: Entity, k: ComponentKey, kind: ChangeKind| x != desc.key.id ==> #[trigger] final(self).tick_of(x, k, kind) == old(self).tick_of(x, k, kind),
    {
        let e = desc.key.id;
        if e.id >= usize::MAX - 3 || self.is_alive(e) {
            return;
        }
        let ghost w0 = *self;
        while self.locations.len() <= e.id
            invariant
                self.wf(),
                e.id < usize::MAX - 3,
                !self.alive(e),
                self.archetypes == w0.archetypes,
                self.descs == w0.descs,
                self.change_tick == w0.change_tick,
                self.archetype_gen == w0.archetype_gen,
                self.locations@.len() >= w0.locations@.len(),
                forall|i: int| 0 <= i < w0.locations@.len() ==> self.locations@[i] == w0.locations@[i],
                forall|i: int| w0.locations@.len() <= i < self.locations@.len() ==> self.locations@[i] is None,
            decreases e.id + 1 - self.locations@.len(),
        {
            self.locations.push(None);
        }
        let ghost w1 = *self;
        proof {
            assert forall|x: Entity| #[trigger] w1.alive(x) == w0.alive(x) by {}
            assert forall|x: Entity, k: ComponentKey| #[trigger] w1.value_of(x, k) == w0.value_of(x, k) by {}
            assert forall|x: Entity, k: ComponentKey, kind: ChangeKind| #[trigger] w1.tick_of(x, k, kind) == w0.tick_of(x, k, kind) by {}
            assert forall|x: Entity| w0.alive(x) implies #[trigger] w1.keys_of(x) == w0.keys_of(x) by {}
        }
        let mut keys: Vec<ComponentKey> = Vec::new();
        keys.push(crate::metadata::name_key());
        keys.push(crate::entity::component_info_key());
        proof {
            assert(key_lt(keys@[0], keys@[1]));
            assert(keys_sorted(keys@));
            assert(keys@ == component_entity_keys());
        }
        let b = self.find_or_create(keys);
        let mut vals: Vec<V> = Vec::new();
        vals.push(V::name_value(&desc.name));
        vals.push(V::info_value(desc));
        let tick = self.change_tick;
        let mut ticks: Vec<RowTicks> = Vec::new();
        ticks.push(RowTicks { modified: Some(tick), added: Some(tick), removed: None });
        ticks.push(RowTicks { modified: Some(tick), added: Some(tick), removed: None });
        proof {
            if b < w1.archetypes@.len() {
                assert(self.archetypes@[b as int] == w1.archetypes@[b as int]);
            }
        }
        let ghost w2 = *self;
        self.attach(e, b, vals, ticks);
        proof {
            assert forall|a: int| 0 <= a < self.archetypes@.len() implies (#[trigger] self.archetypes@[a]).entities@.len() < usize::MAX - 1 by {
                if a < w1.archetypes@.len() {
                    assert(w2.archetypes@[a] == w1.archetypes@[a]);
                    assert(w1.archetypes@[a] == w0.archetypes@[a]);
                    assert(w0.archetypes@[a].entities@.len() < usize::MAX - 2);
                } else {
                    assert(a == b);
                }
            }
            let ks = self.keys_of(e);
            assert(ks == component_entity_keys());
            assert(keys_sorted(ks));
            lemma_key_index(ks, crate::metadata::spec_name_key());
            lemma_key_index(ks, crate::entity::spec_component_info_key());
            assert(ks[0] == crate::metadata::spec_name_key());
            assert(ks[1] == crate::entity::spec_component_info_key());
            assert(self.value_of(e, ks[0]) is Some);
            assert(self.value_of(e, ks[1]) is Some);
        }
    }

    /// Sets a component of an entity, returning the previous value.
    #[verifier::rlimit(50)]
    #[verifier::spinoff_prover]
    fn set_value(&mut self, id: Entity, desc: &ComponentDesc, value: V) -> (r: Result<Option<V>, Error>)
        requires
            old(self).wf(),
            old(self).has_room(),
        ensures
            final(self).wf(),
            old(self).alive(id) <==> r is Ok,
            !old(self).alive(id) ==> r == Err::<Option<V>, Error>(Error::NoSuchEntity(id)) && *final(self) == *old(self),
            r matches Ok(prev) ==> {
                &&& prev == old(self).value_of(id, desc.key)
                &&& final(self).change_tick == old(self).change_tick + 1
                &&& final(self).value_of(id, desc.key) == Some(value)
                &&& final(self).tick_of(id, desc.key, ChangeKind::Modified) == Some(final(self).change_tick)
                &&& prev is None ==> final(self).tick_of(id, desc.key, ChangeKind::Added) == Some(final(self).change_tick)
                &&& final(self).keys_of(id).to_set() == old(self).keys_of(id).to_set().insert(desc.key)
                &&& forall|k: ComponentKey| k != desc.key ==> #[trigger] final(self).value_of(id, k) == old(self).value_of(id, k)
            },
            forall|x: Entity| #[trigger] final(self).alive(x) == old(self).alive(x),
            forall|x: Entity, k: ComponentKey| x != id ==> #[trigger] final(self).value_of(x, k) == old(self).value_of(x, k),
            forall|x: Entity, k: ComponentKey, kind: ChangeKind| x != id ==> #[trigger] final(self).tick_of(x, k, kind) == old(self).tick_of(x, k, kind),
    {
        let l = match self.location(id) {
            Ok(l) => l,
            Err(e) => {
                return Err(e);
            },
        };
        let key = desc.key;
        self.change_tick = self.change_tick + 1;
        let tick = self.change_tick;
        self.register(desc);
        let a = l.arch_id;
        let ghost arch0 = self.archetypes@[a as int];
        proof {
            assert(arch0.wf());
            lemma_key_index(arch0.components@, key);
            assert(old(self).locations@[id.id as int] is Some);
        }
        match self.archetypes[a].index_of(key) {
            Some(i) => {
                let ghost before = self.archetypes@;
                let prev = self.archetypes[a].replace_value(i, l.slot, value);
                self.archetypes[a].mark(i, ChangeKind::Modified, l.slot, tick);
                proof {
                    let arch1 = self.archetypes@[a as int];
                    assert forall|b: int| 0 <= b < self.archetypes@.len() implies (#[trigger] self.archetypes@[b]).wf() by {
                        if b != a {
                            assert(self.archetypes@[b] == before[b]);
                        }
                    }
                    assert forall|b: usize, s: usize| b < self.archetypes@.len() && s < self.archetypes@[b as int].entities@.len() implies {
                        let e = #[trigger] self.archetypes@[b as int].entities@[s as int];
                        &&& e.id < self.locations@.len()
                        &&& self.locations@[e.id as int] == Some(EntityLocation { arch_id: b, slot: s })
                    } by {
                        assert(self.archetypes@[b as int].entities == before[b as int].entities);
                    }
                    assert forall|j: int| 0 <= j < self.locations@.len() && (#[trigger] self.locations@[j]) is Some implies {
                        let l2 = self.locations@[j]->0;
                        &&& l2.arch_id < self.archetypes@.len()
                        &&& l2.slot < self.archetypes@[l2.arch_id as int].entities@.len()
                        &&& self.archetypes@[l2.arch_id as int].entities@[l2.slot as int].id == j
                    } by {
                        let l0 = self.locations@[j]->0;
                        assert(self.archetypes@[l0.arch_id as int].entities == before[l0.arch_id as int].entities);
                    }
                    assert(key_index(arch1.components@, key) == i);
                    assert forall|k: ComponentKey| k != key implies #[trigger] self.value_of(id, k) == old(self).value_of(id, k) by {
                        lemma_key_index(arch0.components@, k);
                    }
                    assert forall|x: Entity, k: ComponentKey| x != id implies #[trigger] self.value_of(x, k) == old(self).value_of(x, k) by {
                        if old(self).alive(x) {
                            assert(old(self).locations@[x.id as int] is Some);
                            let l0 = old(self).loc_of(x);
                            lemma_key_index(before[l0.arch_id as int].components@, k);
                            if l0.arch_id == a {
                                assert(l0.slot != l.slot);
                            }
                        }
                    }
                    assert forall|x: Entity, k: ComponentKey, kind: ChangeKind| x != id implies #[trigger] self.tick_of(x, k, kind) == old(self).tick_of(x, k, kind) by {
                        if old(self).alive(x) {
                            assert(old(self).locations@[x.id as int] is Some);
                            let l0 = old(self).loc_of(x);
                            lemma_key_index(before[l0.arch_id as int].components@, k);
                            if l0.arch_id == a {
                                assert(l0.slot != l.slot);
                            }
                        }
                    }
                    assert(self.keys_of(id) == old(self).keys_of(id));
                    assert(old(self).keys_of(id).contains(key));
                    assert(self.keys_of(id).to_set() =~= old(self).keys_of(id).to_set().insert(key));
                }
                Ok(Some(prev))
            },
            None => {
                let keys = &self.archetypes[a].components;
                let p = insert_pos(keys.as_slice(), key);
                let mut new_keys = keys.clone();
                new_keys.insert(p, key);
                proof {
                    lemma_insert_sorted(arch0.components@, key, p as int);
                }
                let ghost mid0 = *self;
                let b = self.find_or_create(new_keys);
                let ghost mid1 = *self;
                let (mut vals, mut ticks) = self.detach(id);
                vals.insert(p, value);
                ticks.insert(p, RowTicks { modified: Some(tick), added: Some(tick), removed: None });
                proof {
                    assert(self.archetypes@[b as int].components == mid1.archetypes@[b as int].components);
                    assert(self.archetypes@[b as int].entities@.len() <= mid1.archetypes@[b as int].entities@.len());
                    if b < old(self).archetypes@.len() {
                        assert(mid1.archetypes@[b as int] == old(self).archetypes@[b as int]);
                    }
                }
                let ghost mid2 = *self;
                self.attach(id, b, vals, ticks);
                proof {
                    let nk = arch0.components@.insert(p as int, key);
                    assert(self.keys_of(id) == nk);
                    lemma_key_index(nk, key);
                    assert(nk[p as int] == key);
                    assert(self.value_of(id, key) == Some(value));
                    assert(self.tick_of(id, key, ChangeKind::Modified) == Some(tick));
                    assert(self.tick_of(id, key, ChangeKind::Added) == Some(tick));
                    assert(mid1.keys_of(id) == arch0.components@);
                    assert forall|k: ComponentKey| k != key implies #[trigger] self.value_of(id, k) == old(self).value_of(id, k) by {
                        lemma_key_index(arch0.components@, k);
                        lemma_key_index(nk, k);
                        if arch0.components@.contains(k) {
                            let i = key_index(arch0.components@, k);
                            let j = if i < p { i } else { i + 1 };
                            assert(nk[j] == k);
                            assert(self.value_of(id, self.keys_of(id)[j]) == Some(vals@[j]));
                            assert(vals@[j] == mid1.value_of(id, mid1.keys_of(id)[i])->0);
                        } else {
                            assert(!nk.contains(k)) by {
                                if nk.contains(k) {
                                    let j = choose|j: int| 0 <= j < nk.len() && nk[j] == k;
                                    if j < p {
                                        assert(arch0.components@[j] == k);
                                    } else if j > p {
                                        assert(arch0.components@[j - 1] == k);
                                    }
                                }
                            }
                        }
                    }
                    assert(self.keys_of(id).to_set() =~= old(self).keys_of(id).to_set().insert(key)) by {
                        assert forall|k: ComponentKey| nk.contains(k) <==> (arch0.components@.contains(k) || k == key) by {
                            if nk.contains(k) {
                                let j = choose|j: int| 0 <= j < nk.len() && nk[j] == k;
                                if j < p {
                                    assert(arch0.components@[j] == k);
                                } else if j > p {
                                    assert(arch0.components@[j - 1] == k);
                                }
                            }
                            if arch0.components@.contains(k) {
                                let i = choose|i: int| 0 <= i < arch0.components@.len() && arch0.components@[i] == k;
                                if i < p {
                                    assert(nk[i] == k);
                                } else {
                                    assert(nk[i + 1] == k);
                                }
                            }
                            if k == key {
                                assert(nk[p as int] == k);
                            }
                        }
                    }
                    assert forall|x: Entity| #[trigger] self.alive(x) == old(self).alive(x) by {
                        if x != id {
                            assert(mid2.alive(x) == mid1.alive(x));
                        }
                    }
                }
                Ok(None)
            },
        }
    }

    /// Removes a component of an entity, returning its value.
    #[verifier::rlimit(50)]
    #[verifier::spinoff_prover]
    pub fn remove(&mut self, id: Entity, desc: &ComponentDesc) -> (r: Result<V, Error>)
        requires
            old(self).wf(),
            old(self).has_room(),
        ensures
            final(self).wf(),
            (old(self).alive(id) && old(self).value_of(id, desc.key) is Some) <==> r is Ok,
            !old(self).alive(id) ==> r == Err::<V, Error>(Error::NoSuchEntity(id)),
            old(self).alive(id) && old(self).value_of(id, desc.key) is None ==> (r matches Err(Error::MissingComponent(e, d)) && e == id && d.key == desc.key),
            r is Err ==> *final(self) == *old(self),
            r matches Ok(v) ==> {
                &&& old(self).value_of(id, desc.key) == Some(v)
                &&& final(self).value_of(id, desc.key) is None
                &&& final(self).keys_of(id).to_set() == old(self).keys_of(id).to_set().remove(desc.key)
                &&& forall|k: ComponentKey| k != desc.key ==> #[trigger] final(self).value_of(id, k) == old(self).value_of(id, k)
            },
            forall|x: Entity| #[trigger] final(self).alive(x) == old(self).alive(x),
            forall|x: Entity, k: ComponentKey| x != id ==> #[trigger] final(self).value_of(x, k) == old(self).value_of(x, k),
            forall|x: Entity, k: ComponentKey, kind: ChangeKind| x != id ==> #[trigger] final(self).tick_of(x, k, kind) == old(self).tick_of(x, k, kind),
    {
        let l = match self.location(id) {
            Ok(l) => l,
            Err(e) => {
                return Err(e);
            },
        };
        let key = desc.key;
        let a = l.arch_id;
        let ghost arch0 = self.archetypes@[a as int];
        proof {
            assert(arch0.wf());
            lemma_key_index(arch0.components@, key);
            assert(old(self).locations@[id.id as int] is Some);
        }
        let i = match self.archetypes[a].index_of(key) {
            Some(i) => i,
            None => {
                return Err(Error::MissingComponent(id, desc.clone()));
            },
        };
        let mut new_keys = self.archetypes[a].components.clone();
        new_keys.remove(i);
        proof {
            let ok = arch0.components@;
            let nk = new_keys@;
            assert(nk =~= ok.remove(i as int));
            assert forall|x: int, y: int| 0 <= x < y < nk.len() implies key_lt(#[trigger] nk[x], #[trigger] nk[y]) by {
                let x0 = if x < i { x } else { x + 1 };
                let y0 = if y < i { y } else { y + 1 };
                assert(nk[x] == ok[x0]);
                assert(nk[y] == ok[y0]);
            }
        }
        let b = self.find_or_create(new_keys);
        let ghost mid1 = *self;
        let (mut vals, mut ticks) = self.detach(id);
        let v = vals.remove(i);
        ticks.remove(i);
        proof {
            if b < old(self).archetypes@.len() {
                assert(mid1.archetypes@[b as int] == old(self).archetypes@[b as int]);
            }
        }
        let ghost mid2 = *self;
        let ghost vals1 = vals@;
        self.attach(id, b, vals, ticks);
        proof {
            let ok = arch0.components@;
            let nk = ok.remove(i as int);
            assert(self.keys_of(id) == nk);
            assert(mid1.keys_of(id) == ok);
            assert(v == mid1.value_of(id, mid1.keys_of(id)[i as int])->0);
            assert(!nk.contains(key)) by {
                if nk.contains(key) {
                    let j = choose|j: int| 0 <= j < nk.len() && nk[j] == key;
                    let j0 = if j < i { j } else { j + 1 };
                    assert(ok[j0] == key);
                }
            }
            assert forall|k: ComponentKey| k != key implies #[trigger] self.value_of(id, k) == old(self).value_of(id, k) by {
                lemma_key_index(ok, k);
                lemma_key_index(nk, k);
                if ok.contains(k) {
                    let c = key_index(ok, k);
                    let j = if c < i { c } else { c - 1 };
                    assert(nk[j] == k);
                    assert(self.value_of(id, self.keys_of(id)[j]) == Some(vals1[j]));
                    assert(vals1[j] == mid1.value_of(id, mid1.keys_of(id)[c])->0);
                } else {
                    assert(!nk.contains(k)) by {
                        if nk.contains(k) {
                            let j = choose|j: int| 0 <= j < nk.len() && nk[j] == k;
                            let j0 = if j < i { j } else { j + 1 };
                            assert(ok[j0] == k);
                        }
                    }
                }
            }
            assert(self.keys_of(id).to_set() =~= old(self).keys_of(id).to_set().remove(key)) by {
                assert forall|k: ComponentKey| nk.contains(k) <==> (ok.contains(k) && k != key) by {
                    if nk.contains(k) {
                        let j = choose|j: int| 0 <= j < nk.len() && nk[j] == k;
                        let j0 = if j < i { j } else { j + 1 };
                        assert(ok[j0] == k);
                    }
                    if ok.contains(k) && k != key {
                        let c = choose|c: int| 0 <= c < ok.len() && ok[c] == k;
                        if c < i {
                            assert(nk[c] == k);
                        } else {
                            assert(c != i);
                            assert(nk[c - 1] == k);
                        }
                    }
                }
            }
            assert forall|x: Entity| #[trigger] self.alive(x) == old(self).alive(x) by {
                if x != id {
                    assert(mid2.alive(x) == mid1.alive(x));
                }
            }
        }
        Ok(v)
    }

    /// Removes an entity and all its components.
    pub fn despawn(&mut self, id: Entity) -> (r: Result<(), Error>)
        requires
            old(self).wf(),
            old(self).has_room(),
        ensures
            final(self).wf(),
            old(self).alive(id) <==> r is Ok,
            !old(self).alive(id) ==> r == Err::<(), Error>(Error::NoSuchEntity(id)),
            !final(self).alive(id),
            forall|x: Entity| x != id ==> #[trigger] final(self).alive(x) == old(self).alive(x),
            forall|x: Entity, k: ComponentKey| x != id ==> #[trigger] final(self).value_of(x, k) == old(self).value_of(x, k),
            forall|x: Entity, k: ComponentKey, kind: ChangeKind| x != id ==> #[trigger] final(self).tick_of(x, k, kind) == old(self).tick_of(x, k, kind),
    {
        match self.location(id) {
            Ok(_) => {},
            Err(e) => {
                return Err(e);
            },
        };
        let _ = self.detach(id);
        Ok(())
    }
}

/// Whether two key sequences are equal.
fn keys_equal(a: &[ComponentKey], b: &[ComponentKey]) -> (r: bool)
    ensures
        r == (a@ == b@),
{
    if a.len() != b.len() {
        return false;
    }
    let mut i: usize = 0;
    while i < a.len()
        invariant
            a@.len() == b@.len(),
            0 <= i <= a@.len(),
            forall|k: int| 0 <= k < i ==> a@[k] == b@[k],
        decreases a@.len() - i,
    {
        if a[i] != b[i] {
            return false;
        }
        i += 1;
    }
    proof {
        assert(a@ =~= b@);
    }
    true
}

/// The position at which `key` keeps sorted keys sorted.
fn insert_pos(keys: &[ComponentKey], key: ComponentKey) -> (r: usize)
    requires
        keys_sorted(keys@),
        !keys@.contains(key),
    ensures
        r <= keys@.len(),
        forall|i: int| 0 <= i < r ==> key_lt(#[trigger] keys@[i], key),
        forall|i: int| r <= i < keys@.len() ==> key_lt(key, #[trigger] keys@[i]),
{
    let mut i: usize = 0;
    while i < keys.len()
        invariant
            0 <= i <= keys@.len(),
            keys_sorted(keys@),
            !keys@.contains(key),
            forall|k: int| 0 <= k < i ==> key_lt(#[trigger] keys@[k], key),
        decreases keys@.len() - i,
    {
        if key.lt(&keys[i]) {
            proof {
                assert forall|k: int| i <= k < keys@.len() implies key_lt(key, #[trigger] keys@[k]) by {
                    if k > i {
                        lemma_key_order(key, keys@[i as int], keys@[k]);
                    }
                }
            }
            return i;
        }
        proof {
            assert(keys@[i as int] != key);
            lemma_key_order(keys@[i as int], key, key);
        }
        i += 1;
    }
    i
}

/// Inserting a key at its sorted position keeps the keys sorted.
pub proof fn lemma_insert_sorted(keys: Seq<ComponentKey>, key: ComponentKey, p: int)
    requires
        keys_sorted(keys),
        0 <= p <= keys.len(),
        forall|i: int| 0 <= i < p ==> key_lt(#[trigger] keys[i], key),
        forall|i: int| p <= i < keys.len() ==> key_lt(key, #[trigger] keys[i]),
    ensures
        keys_sorted(keys.insert(p, key)),
{
    let n = keys.insert(p, key);
    assert forall|i: int, j: int| 0 <= i < j < n.len() implies key_lt(#[trigger] n[i], #[trigger] n[j]) by {
        if i < p && j < p {
        } else if i < p && j == p {
        } else if i < p {
            lemma_key_order(keys[i], key, keys[j - 1]);
        } else if i == p {
        } else {
        }
    }
}

} // verus!
