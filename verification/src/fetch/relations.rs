use vstd::prelude::*;

use crate::archetype::{is_relation_of, relation_keys, Archetype};
use crate::entity::{ComponentKey, Entity};
use crate::fetch::base::{small_slots, Fetch, FetchAccessData, FetchItem, FetchPrepareData};
use crate::fetch::component::{component_values, lemma_values_len, read_access};
use crate::fetch::prepared::PreparedFetch;
use crate::query::searcher::ArchetypeSearcher;
use crate::schedule::access::{Access, AccessKind};
use crate::slice::{Slice, Slot};
use crate::changes::ChangeKind;
use crate::world::{key_index, lemma_key_index, ComponentDesc, Error, World};

verus! {

/// The relations of the given kind, from the component at position `from` on, each with its
/// target and its value in `slot`.
pub open spec fn relation_items<'w, V>(arch: &'w Archetype<V>, relation: Entity, slot: int, from: int) -> Seq<(Entity, &'w V)>
    decreases arch.components@.len() - from,
{
    if from < 0 || from >= arch.components@.len() {
        Seq::empty()
    } else {
        let k = arch.components@[from];
        let rest = relation_items(arch, relation, slot, from + 1);
        if k.id == relation && k.target is Some {
            seq![(k.target->0, &arch.cells@[from].data@[slot])] + rest
        } else {
            rest
        }
    }
}

/// The accesses to each relation of the given kind of an archetype.
pub open spec fn relations_access(arch_id: usize, keys: Seq<ComponentKey>, relation: Entity, mutable: bool) -> Seq<Access> {
    relation_keys(keys, relation).map_values(|k: ComponentKey| read_access(arch_id, k, mutable))
}

/// The relations of one kind of an entity, with their targets and values, handed out one at a
/// time.
#[derive(Clone, Copy)]
pub struct RelationsIter<'w, V> {
    pub arch: &'w Archetype<V>,
    pub relation: Entity,
    pub slot: Slot,
    pub pos: usize,
}

impl<'w, V> RelationsIter<'w, V> {
    /// The relations still to come.
    pub open spec fn remaining(&self) -> Seq<(Entity, &'w V)> {
        relation_items(self.arch, self.relation, self.slot as int, self.pos as int)
    }

    /// The next relation: its target and value.
    pub fn next(&mut self) -> (r: Option<(Entity, &'w V)>)
        requires
            old(self).arch.wf(),
            old(self).slot < old(self).arch.entities@.len(),
        ensures
            final(self).arch == old(self).arch,
            final(self).relation == old(self).relation,
            final(self).slot == old(self).slot,
            old(self).remaining().len() > 0 ==> r == Some(old(self).remaining()[0])
                && final(self).remaining() == old(self).remaining().drop_first(),
            old(self).remaining().len() == 0 ==> r is None && final(self).remaining().len() == 0,
    {
        let arch: &'w Archetype<V> = self.arch;
        while self.pos < arch.components.len()
            invariant
                self.arch == arch,
                self.arch == old(self).arch,
                self.relation == old(self).relation,
                self.slot == old(self).slot,
                arch.wf(),
                self.slot < arch.entities@.len(),
                self.remaining() == old(self).remaining(),
            decreases arch.components@.len() - self.pos,
        {
            let i = self.pos;
            let k = arch.components[i];
            self.pos = i + 1;
            if k.id == self.relation && k.target.is_some() {
                let cell = &arch.cells[i];
                assert(cell.data@.len() == arch.entities@.len());
                let v: &'w V = &cell.data[self.slot];
                let t = k.target.unwrap();
                proof {
                    assert(old(self).remaining() == seq![(t, v)] + self.remaining());
                    assert((seq![(t, v)] + self.remaining()).drop_first() =~= self.remaining());
                }
                return Some((t, v));
            }
        }
        None
    }
}

/// Yields the relations of one kind of each entity: their targets and values.
///
/// Matches every archetype, also where the entity has no such relation.
#[derive(Debug, Clone)]
pub struct Relations {
    pub relation: Entity,
    pub name: String,
}

/// The relations of one kind of an archetype.
#[derive(Clone, Copy)]
pub struct PreparedRelations<'w, V> {
    pub arch: &'w Archetype<V>,
    pub relation: Entity,
}

/// Yields the relations of the kind `relation` of each entity.
pub fn relations_like(relation: Entity, name: String) -> (r: Relations)
    ensures
        r.relation == relation,
        r.name == name,
{
    Relations { relation, name }
}

impl<'w, V> PreparedFetch<'w> for PreparedRelations<'w, V> {
    type Item = RelationsIter<'w, V>;

    open spec fn spec_filter_ok(&self, slots: Slice) -> bool {
        true
    }

    open spec fn spec_filter(&self, slots: Slice) -> (Slice, PreparedRelations<'w, V>) {
        (slots, *self)
    }

    open spec fn spec_fetch_ok(&self, slot: int) -> bool {
        0 <= slot < self.arch.entities@.len()
    }

    open spec fn spec_fetch(&self, slot: int) -> RelationsIter<'w, V> {
        RelationsIter { arch: self.arch, relation: self.relation, slot: slot as usize, pos: 0 }
    }

    fn filter_slots(&mut self, slots: Slice) -> (r: Slice) {
        slots
    }

    fn fetch_shared(&self, slot: Slot) -> (r: RelationsIter<'w, V>) {
        RelationsIter { arch: self.arch, relation: self.relation, slot, pos: 0 }
    }
}

impl<'q> FetchItem<'q> for Relations {
    type Item = ();
}

/// Appends an access to each relation of the kind `relation` of the archetype.
fn push_relations_access<'w, V>(data: FetchAccessData<'w, V>, relation: Entity, mutable: bool, dst: &mut Vec<Access>)
    ensures
        final(dst)@ == old(dst)@ + relations_access(data.arch_id, data.arch.components@, relation, mutable),
{
    let rels = data.arch.relations_like(relation);
    let mut i: usize = 0;
    while i < rels.len()
        invariant
            0 <= i <= rels@.len(),
            rels@ == relation_keys(data.arch.components@, relation),
            dst@ == old(dst)@ + rels@.take(i as int).map_values(|k: ComponentKey| read_access(data.arch_id, k, mutable)),
        decreases rels@.len() - i,
    {
        let k = rels[i];
        dst.push(Access { kind: AccessKind::Archetype { id: data.arch_id, component: k }, mutable });
        proof {
            assert(rels@.take(i + 1) =~= rels@.take(i as int).push(k));
            assert(dst@ =~= old(dst)@ + rels@.take(i + 1).map_values(|k: ComponentKey| read_access(data.arch_id, k, mutable)));
        }
        i += 1;
    }
    assert(rels@.take(i as int) =~= rels@);
}

impl<'w, V: 'w> Fetch<'w, V> for Relations {
    type Prepared = PreparedRelations<'w, V>;

    open spec fn spec_mutable(&self) -> bool {
        false
    }

    open spec fn spec_valid(&self) -> bool {
        true
    }

    open spec fn spec_filter_arch(&self, data: FetchAccessData<'w, V>) -> bool {
        true
    }

    open spec fn spec_prepare_some(&self, data: FetchPrepareData<'w, V>) -> bool {
        true
    }

    open spec fn spec_prepared(&self, data: FetchPrepareData<'w, V>, p: PreparedRelations<'w, V>) -> bool {
        p.arch == data.arch && p.relation == self.relation
    }

    open spec fn spec_access(&self, data: FetchAccessData<'w, V>) -> Seq<Access> {
        relations_access(data.arch_id, data.arch.components@, self.relation, false)
    }

    open spec fn spec_required(&self) -> Seq<ComponentKey> {
        Seq::empty()
    }

    proof fn lemma_prepared_small(&self, data: FetchPrepareData<'w, V>, p: PreparedRelations<'w, V>, slots: Slice) {
    }

    fn mutable(&self) -> (r: bool) {
        false
    }

    fn prepare(&'w self, data: FetchPrepareData<'w, V>) -> (r: Option<PreparedRelations<'w, V>>) {
        Some(PreparedRelations { arch: data.arch, relation: self.relation })
    }

    fn filter_arch(&self, data: FetchAccessData<'w, V>) -> (r: bool) {
        true
    }

    fn access(&self, data: FetchAccessData<'w, V>, dst: &mut Vec<Access>) {
        push_relations_access(data, self.relation, false, dst);
    }

    fn searcher(&self, searcher: &mut ArchetypeSearcher) {
        assert(old(searcher).required@ + Seq::<ComponentKey>::empty() =~= old(searcher).required@);
    }
}

/// One relation of one entity: its value, which can be read now and written to the world once the
/// query's borrow of the world has ended.
#[derive(Clone, Copy)]
pub struct RelationGuard<'w, V> {
    pub id: Entity,
    pub key: ComponentKey,
    pub name: &'w String,
    pub value: &'w V,
    pub new_tick: u32,
}

impl<'w, V> RelationGuard<'w, V> {
    /// The value the query saw.
    pub fn read(&self) -> (r: &'w V)
        ensures
            r == self.value,
    {
        self.value
    }

    /// Writes `value` to the entity's relation, recording it as modified at the query's tick, and
    /// returns the previous value; fails where the entity or its relation is gone.
    pub fn write(&self, world: &mut World<V>, value: V) -> (r: Result<V, Error>)
        requires
            old(world).wf(),
        ensures
            final(world).wf(),
            r is Ok <==> old(world).alive(self.id) && old(world).keys_of(self.id).contains(self.key),
            !old(world).alive(self.id) ==> r == Err::<V, Error>(Error::NoSuchEntity(self.id)),
            r matches Ok(prev) ==> {
                &&& old(world).value_of(self.id, self.key) == Some(prev)
                &&& final(world).value_of(self.id, self.key) == Some(value)
                &&& final(world).tick_of(self.id, self.key, ChangeKind::Modified) == Some(self.new_tick)
            },
            forall|x: Entity, k: ComponentKey| x != self.id ==> #[trigger] final(world).value_of(x, k) == old(world).value_of(x, k),
    {
        let desc = ComponentDesc::new(self.key, self.name.clone());
        world.write(self.id, &desc, value, self.new_tick)
    }
}

/// The guard of the relation to `target` of the entity in `slot`.
pub open spec fn relation_guard<'w, V>(arch: &'w Archetype<V>, relation: Entity, slot: int, name: &'w String, new_tick: u32, item: (Entity, &'w V)) -> (Entity, RelationGuard<'w, V>) {
    (item.0, RelationGuard {
        id: arch.entities@[slot],
        key: ComponentKey { id: relation, target: Some(item.0) },
        name,
        value: item.1,
        new_tick,
    })
}

/// The relations of one kind of an entity, with their targets and guards to write through,
/// handed out one at a time.
#[derive(Clone, Copy)]
pub struct RelationsMutIter<'w, V> {
    pub inner: RelationsIter<'w, V>,
    pub name: &'w String,
    pub new_tick: u32,
}

impl<'w, V> RelationsMutIter<'w, V> {
    /// The relations still to come.
    pub open spec fn remaining(&self) -> Seq<(Entity, RelationGuard<'w, V>)> {
        let (arch, relation, slot, name, new_tick) = (self.inner.arch, self.inner.relation, self.inner.slot as int, self.name, self.new_tick);
        self.inner.remaining().map_values(|item: (Entity, &'w V)| relation_guard(arch, relation, slot, name, new_tick, item))
    }

    /// The next relation: its target and guard.
    pub fn next(&mut self) -> (r: Option<(Entity, RelationGuard<'w, V>)>)
        requires
            old(self).inner.arch.wf(),
            old(self).inner.slot < old(self).inner.arch.entities@.len(),
        ensures
            final(self).inner.arch == old(self).inner.arch,
            final(self).inner.relation == old(self).inner.relation,
            final(self).inner.slot == old(self).inner.slot,
            final(self).name == old(self).name,
            final(self).new_tick == old(self).new_tick,
            old(self).remaining().len() > 0 ==> r == Some(old(self).remaining()[0])
                && final(self).remaining() == old(self).remaining().drop_first(),
            old(self).remaining().len() == 0 ==> r is None && final(self).remaining().len() == 0,
    {
        let ghost before = self.inner.remaining();
        let arch: &'w Archetype<V> = self.inner.arch;
        let relation = self.inner.relation;
        let slot = self.inner.slot;
        match self.inner.next() {
            Some((t, v)) => {
                let g = RelationGuard {
                    id: arch.entities[slot],
                    key: ComponentKey { id: relation, target: Some(t) },
                    name: self.name,
                    value: v,
                    new_tick: self.new_tick,
                };
                proof {
                    let f = |item: (Entity, &'w V)| relation_guard(arch, relation, slot as int, self.name, self.new_tick, item);
                    assert(before.drop_first().map_values(f) =~= before.map_values(f).drop_first());
                }
                Some((t, g))
            },
            None => None,
        }
    }
}

/// The relations of one kind of an archetype, handed out with guards at the tick of this run.
#[derive(Clone, Copy)]
pub struct PreparedRelationsMut<'w, V> {
    pub arch: &'w Archetype<V>,
    pub relation: Entity,
    pub name: &'w String,
    pub new_tick: u32,
}

impl<'w, V> PreparedFetch<'w> for PreparedRelationsMut<'w, V> {
    type Item = RelationsMutIter<'w, V>;

    open spec fn spec_filter_ok(&self, slots: Slice) -> bool {
        true
    }

    open spec fn spec_filter(&self, slots: Slice) -> (Slice, PreparedRelationsMut<'w, V>) {
        (slots, *self)
    }

    open spec fn spec_fetch_ok(&self, slot: int) -> bool {
        0 <= slot < self.arch.entities@.len()
    }

    open spec fn spec_fetch(&self, slot: int) -> RelationsMutIter<'w, V> {
        RelationsMutIter {
            inner: RelationsIter { arch: self.arch, relation: self.relation, slot: slot as usize, pos: 0 },
            name: self.name,
            new_tick: self.new_tick,
        }
    }

    fn filter_slots(&mut self, slots: Slice) -> (r: Slice) {
        slots
    }

    fn fetch_shared(&self, slot: Slot) -> (r: RelationsMutIter<'w, V>) {
        RelationsMutIter {
            inner: RelationsIter { arch: self.arch, relation: self.relation, slot, pos: 0 },
            name: self.name,
            new_tick: self.new_tick,
        }
    }
}

/// Yields the relations of one kind of each entity with guards to write through, declaring
/// write access to them.
#[derive(Debug, Clone)]
pub struct RelationsMut {
    pub relation: Entity,
    pub name: String,
}

/// Yields the relations of the kind `relation` of each entity, declaring write access to them.
pub fn relations_like_mut(relation: Entity, name: String) -> (r: RelationsMut)
    ensures
        r.relation == relation,
        r.name == name,
{
    RelationsMut { relation, name }
}

impl<'q> FetchItem<'q> for RelationsMut {
    type Item = ();
}

impl<'w, V: 'w> Fetch<'w, V> for RelationsMut {
    type Prepared = PreparedRelationsMut<'w, V>;

    open spec fn spec_mutable(&self) -> bool {
        true
    }

    open spec fn spec_valid(&self) -> bool {
        true
    }

    open spec fn spec_filter_arch(&self, data: FetchAccessData<'w, V>) -> bool {
        true
    }

    open spec fn spec_prepare_some(&self, data: FetchPrepareData<'w, V>) -> bool {
        true
    }

    open spec fn spec_prepared(&self, data: FetchPrepareData<'w, V>, p: PreparedRelationsMut<'w, V>) -> bool {
        p.arch == data.arch && p.relation == self.relation && p.name == &self.name && p.new_tick == data.new_tick
    }

    open spec fn spec_access(&self, data: FetchAccessData<'w, V>) -> Seq<Access> {
        relations_access(data.arch_id, data.arch.components@, self.relation, true)
    }

    open spec fn spec_required(&self) -> Seq<ComponentKey> {
        Seq::empty()
    }

    proof fn lemma_prepared_small(&self, data: FetchPrepareData<'w, V>, p: PreparedRelationsMut<'w, V>, slots: Slice) {
    }

    fn mutable(&self) -> (r: bool) {
        true
    }

    fn prepare(&'w self, data: FetchPrepareData<'w, V>) -> (r: Option<PreparedRelationsMut<'w, V>>) {
        Some(PreparedRelationsMut { arch: data.arch, relation: self.relation, name: &self.name, new_tick: data.new_tick })
    }

    fn filter_arch(&self, data: FetchAccessData<'w, V>) -> (r: bool) {
        true
    }

    fn access(&self, data: FetchAccessData<'w, V>, dst: &mut Vec<Access>) {
        push_relations_access(data, self.relation, true, dst);
    }

    fn searcher(&self, searcher: &mut ArchetypeSearcher) {
        assert(old(searcher).required@ + Seq::<ComponentKey>::empty() =~= old(searcher).required@);
    }
}

/// Yields the `n`th relation of one kind of each entity: its target and value.
///
/// Archetypes without an `n`th such relation are not visited.
#[derive(Debug, Clone)]
pub struct NthRelation {
    pub relation: Entity,
    pub name: String,
    pub n: usize,
}

/// Yields the `n`th relation of the kind `relation` of each entity.
pub fn nth_relation(relation: Entity, name: String, n: usize) -> (r: NthRelation)
    ensures
        r.relation == relation,
        r.name == name,
        r.n == n,
{
    NthRelation { relation, name, n }
}

/// The `n`th relation of one kind of an archetype: its target and values.
#[derive(Clone, Copy)]
pub struct PreparedNthRelation<'w, V> {
    pub target: Entity,
    pub data: &'w [V],
}

impl<'w, V> PreparedFetch<'w> for PreparedNthRelation<'w, V> {
    type Item = (Entity, &'w V);

    open spec fn spec_filter_ok(&self, slots: Slice) -> bool {
        true
    }

    open spec fn spec_filter(&self, slots: Slice) -> (Slice, PreparedNthRelation<'w, V>) {
        (slots, *self)
    }

    open spec fn spec_fetch_ok(&self, slot: int) -> bool {
        0 <= slot < self.data@.len()
    }

    open spec fn spec_fetch(&self, slot: int) -> (Entity, &'w V) {
        (self.target, &self.data@[slot])
    }

    fn filter_slots(&mut self, slots: Slice) -> (r: Slice) {
        slots
    }

    fn fetch_shared(&self, slot: Slot) -> (r: (Entity, &'w V)) {
        let data: &'w [V] = self.data;
        (self.target, &data[slot])
    }
}

impl<'q> FetchItem<'q> for NthRelation {
    type Item = ();
}

/// The key of the `n`th relation of the kind `relation` among `keys`.
pub open spec fn nth_key(keys: Seq<ComponentKey>, relation: Entity, n: usize) -> ComponentKey {
    relation_keys(keys, relation)[n as int]
}

impl<'w, V: 'w> Fetch<'w, V> for NthRelation {
    type Prepared = PreparedNthRelation<'w, V>;

    open spec fn spec_mutable(&self) -> bool {
        false
    }

    open spec fn spec_valid(&self) -> bool {
        true
    }

    open spec fn spec_filter_arch(&self, data: FetchAccessData<'w, V>) -> bool {
        true
    }

    open spec fn spec_prepare_some(&self, data: FetchPrepareData<'w, V>) -> bool {
        self.n < relation_keys(data.arch.components@, self.relation).len()
    }

    open spec fn spec_prepared(&self, data: FetchPrepareData<'w, V>, p: PreparedNthRelation<'w, V>) -> bool {
        let k = nth_key(data.arch.components@, self.relation, self.n);
        &&& self.n < relation_keys(data.arch.components@, self.relation).len()
        &&& Some(p.target) == k.target
        &&& p.data@ == component_values(data, k)
    }

    open spec fn spec_access(&self, data: FetchAccessData<'w, V>) -> Seq<Access> {
        if self.n < relation_keys(data.arch.components@, self.relation).len() {
            seq![read_access(data.arch_id, nth_key(data.arch.components@, self.relation, self.n), false)]
        } else {
            Seq::empty()
        }
    }

    open spec fn spec_required(&self) -> Seq<ComponentKey> {
        Seq::empty()
    }

    proof fn lemma_prepared_small(&self, data: FetchPrepareData<'w, V>, p: PreparedNthRelation<'w, V>, slots: Slice) {
        let keys = data.arch.components@;
        let k = nth_key(keys, self.relation, self.n);
        assert(relation_keys(keys, self.relation).contains(k));
        keys.lemma_filter_contains_rev(is_relation_of(self.relation), k);
        lemma_values_len(data, nth_key(keys, self.relation, self.n));
    }

    fn mutable(&self) -> (r: bool) {
        false
    }

    fn prepare(&'w self, data: FetchPrepareData<'w, V>) -> (r: Option<PreparedNthRelation<'w, V>>) {
        let arch: &'w Archetype<V> = data.arch;
        let rels = arch.relations_like(self.relation);
        if self.n >= rels.len() {
            return None;
        }
        let k = rels[self.n];
        proof {
            assert(rels@.contains(k));
            arch.components@.lemma_filter_contains_rev(is_relation_of(self.relation), k);
            arch.components@.lemma_filter_pred(is_relation_of(self.relation), self.n as int);
            lemma_key_index(arch.components@, k);
            assert(arch.wf());
        }
        match arch.index_of(k) {
            Some(i) => {
                let target = k.target.unwrap();
                Some(PreparedNthRelation { target, data: arch.cells[i].data.as_slice() })
            },
            None => None,
        }
    }

    fn filter_arch(&self, data: FetchAccessData<'w, V>) -> (r: bool) {
        true
    }

    fn access(&self, data: FetchAccessData<'w, V>, dst: &mut Vec<Access>) {
        let rels = data.arch.relations_like(self.relation);
        if self.n < rels.len() {
            dst.push(Access { kind: AccessKind::Archetype { id: data.arch_id, component: rels[self.n] }, mutable: false });
        } else {
            assert(old(dst)@ + Seq::<Access>::empty() =~= old(dst)@);
        }
    }

    fn searcher(&self, searcher: &mut ArchetypeSearcher) {
        assert(old(searcher).required@ + Seq::<ComponentKey>::empty() =~= old(searcher).required@);
    }
}

} // verus!
