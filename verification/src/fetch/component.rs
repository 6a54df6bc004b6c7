use vstd::prelude::*;

use crate::entity::{ComponentKey, Entity};
use crate::fetch::base::{small_slots, Fetch, FetchAccessData, FetchItem, FetchPrepareData};
use crate::fetch::prepared::PreparedFetch;
use crate::query::searcher::ArchetypeSearcher;
use crate::schedule::access::{Access, AccessKind};
use crate::slice::{Slice, Slot};
use crate::world::{key_index, lemma_key_index, ComponentDesc};

verus! {

/// The shared access to one component of an archetype.
pub open spec fn read_access(arch_id: usize, key: ComponentKey, mutable: bool) -> Access {
    Access { kind: AccessKind::Archetype { id: arch_id, component: key }, mutable }
}

/// The access to a component where the archetype has it, none otherwise.
pub open spec fn component_access<'w, V>(data: FetchAccessData<'w, V>, key: ComponentKey, mutable: bool) -> Seq<Access> {
    if data.arch.components@.contains(key) {
        seq![read_access(data.arch_id, key, mutable)]
    } else {
        Seq::empty()
    }
}

/// The values of a component in an archetype, where it has that component.
pub open spec fn component_values<'w, V>(data: FetchPrepareData<'w, V>, key: ComponentKey) -> Seq<V> {
    data.arch.cells@[key_index(data.arch.components@, key)].data@
}

impl<'w, V> Fetch<'w, V> for () {
    type Prepared = ();

    open spec fn spec_mutable(&self) -> bool {
        false
    }

    open spec fn spec_valid(&self) -> bool {
        true
    }

    open spec fn spec_filter_arch(&self, data: FetchAccessData<'w, V>) -> bool {
        true
    }

    open spec fn spec_prepare_some(&self, data: FetchPrepareData<'w, V>) -> bool {
        true
    }

    open spec fn spec_prepared(&self, data: FetchPrepareData<'w, V>, p: ()) -> bool {
        true
    }

    open spec fn spec_access(&self, data: FetchAccessData<'w, V>) -> Seq<Access> {
        Seq::empty()
    }

    open spec fn spec_required(&self) -> Seq<ComponentKey> {
        Seq::empty()
    }

    proof fn lemma_prepared_small(&self, data: FetchPrepareData<'w, V>, p: (), slots: Slice) {
    }

    fn mutable(&self) -> (r: bool) {
        false
    }

    fn prepare(&'w self, data: FetchPrepareData<'w, V>) -> (r: Option<()>) {
        Some(())
    }

    fn filter_arch(&self, data: FetchAccessData<'w, V>) -> (r: bool) {
        true
    }

    fn access(&self, data: FetchAccessData<'w, V>, dst: &mut Vec<Access>) {
        assert(old(dst)@ + Seq::<Access>::empty() =~= old(dst)@);
    }

    fn searcher(&self, searcher: &mut ArchetypeSearcher) {
        assert(old(searcher).required@ + Seq::<ComponentKey>::empty() =~= old(searcher).required@);
    }
}

/// Yields the id of each entity.
#[derive(Debug, Clone, Copy)]
pub struct EntityIds;

/// The entity ids of an archetype, by slot.
pub struct ReadEntities<'w> {
    pub entities: &'w [Entity],
}

impl<'q> FetchItem<'q> for EntityIds {
    type Item = Entity;
}

impl<'w> PreparedFetch<'w> for ReadEntities<'w> {
    type Item = Entity;

    open spec fn spec_filter_ok(&self, slots: Slice) -> bool {
        true
    }

    open spec fn spec_filter(&self, slots: Slice) -> (Slice, ReadEntities<'w>) {
        (slots, *self)
    }

    open spec fn spec_fetch_ok(&self, slot: int) -> bool {
        0 <= slot < self.entities@.len()
    }

    open spec fn spec_fetch(&self, slot: int) -> Entity {
        self.entities@[slot]
    }

    fn filter_slots(&mut self, slots: Slice) -> (r: Slice) {
        slots
    }

    fn fetch_shared(&self, slot: Slot) -> (r: Entity) {
        self.entities[slot]
    }
}

impl<'w, V> Fetch<'w, V> for EntityIds {
    type Prepared = ReadEntities<'w>;

    open spec fn spec_mutable(&self) -> bool {
        false
    }

    open spec fn spec_valid(&self) -> bool {
        true
    }

    open spec fn spec_filter_arch(&self, data: FetchAccessData<'w, V>) -> bool {
        true
    }

    open spec fn spec_prepare_some(&self, data: FetchPrepareData<'w, V>) -> bool {
        true
    }

    open spec fn spec_prepared(&self, data: FetchPrepareData<'w, V>, p: ReadEntities<'w>) -> bool {
        p.entities@ == data.arch.entities@
    }

    open spec fn spec_access(&self, data: FetchAccessData<'w, V>) -> Seq<Access> {
        Seq::empty()
    }

    open spec fn spec_required(&self) -> Seq<ComponentKey> {
        Seq::empty()
    }

    proof fn lemma_prepared_small(&self, data: FetchPrepareData<'w, V>, p: ReadEntities<'w>, slots: Slice) {
    }

    fn mutable(&self) -> (r: bool) {
        false
    }

    fn prepare(&'w self, data: FetchPrepareData<'w, V>) -> (r: Option<ReadEntities<'w>>) {
        let arch = data.arch;
        Some(ReadEntities { entities: arch.entities.as_slice() })
    }

    fn filter_arch(&self, data: FetchAccessData<'w, V>) -> (r: bool) {
        true
    }

    fn access(&self, data: FetchAccessData<'w, V>, dst: &mut Vec<Access>) {
        assert(old(dst)@ + Seq::<Access>::empty() =~= old(dst)@);
    }

    fn searcher(&self, searcher: &mut ArchetypeSearcher) {
        assert(old(searcher).required@ + Seq::<ComponentKey>::empty() =~= old(searcher).required@);
    }
}

/// The values of one component of an archetype.
pub struct ReadComponent<'w, V> {
    pub data: &'w [V],
}

impl<'w, V> PreparedFetch<'w> for ReadComponent<'w, V> {
    type Item = &'w V;

    open spec fn spec_filter_ok(&self, slots: Slice) -> bool {
        true
    }

    open spec fn spec_filter(&self, slots: Slice) -> (Slice, ReadComponent<'w, V>) {
        (slots, *self)
    }

    open spec fn spec_fetch_ok(&self, slot: int) -> bool {
        0 <= slot < self.data@.len()
    }

    open spec fn spec_fetch(&self, slot: int) -> &'w V {
        &self.data@[slot]
    }

    fn filter_slots(&mut self, slots: Slice) -> (r: Slice) {
        slots
    }

    fn fetch_shared(&self, slot: Slot) -> (r: &'w V) {
        let data: &'w [V] = self.data;
        &data[slot]
    }
}

impl<'q> FetchItem<'q> for ComponentDesc {
    type Item = ();
}

/// A component used as a fetch yields a reference to its value; archetypes without it do not
/// match.
impl<'w, V: 'w> Fetch<'w, V> for ComponentDesc {
    type Prepared = ReadComponent<'w, V>;

    open spec fn spec_mutable(&self) -> bool {
        false
    }

    open spec fn spec_valid(&self) -> bool {
        true
    }

    open spec fn spec_filter_arch(&self, data: FetchAccessData<'w, V>) -> bool {
        data.arch.components@.contains(self.key)
    }

    open spec fn spec_prepare_some(&self, data: FetchPrepareData<'w, V>) -> bool {
        data.arch.components@.contains(self.key)
    }

    open spec fn spec_prepared(&self, data: FetchPrepareData<'w, V>, p: ReadComponent<'w, V>) -> bool {
        &&& data.arch.components@.contains(self.key)
        &&& p.data@ == component_values(data, self.key)
    }

    open spec fn spec_access(&self, data: FetchAccessData<'w, V>) -> Seq<Access> {
        component_access(data, self.key, false)
    }

    open spec fn spec_required(&self) -> Seq<ComponentKey> {
        seq![self.key]
    }

    proof fn lemma_prepared_small(&self, data: FetchPrepareData<'w, V>, p: ReadComponent<'w, V>, slots: Slice) {
        lemma_values_len(data, self.key);
    }

    fn mutable(&self) -> (r: bool) {
        false
    }

    fn prepare(&'w self, data: FetchPrepareData<'w, V>) -> (r: Option<ReadComponent<'w, V>>) {
        let arch = data.arch;
        proof {
            lemma_key_index(arch.components@, self.key);
        }
        match arch.index_of(self.key) {
            Some(i) => {
                proof {
                    assert(arch.wf());
                }
                Some(ReadComponent { data: arch.cells[i].data.as_slice() })
            },
            None => None,
        }
    }

    fn filter_arch(&self, data: FetchAccessData<'w, V>) -> (r: bool) {
        data.arch.has(self.key)
    }

    fn access(&self, data: FetchAccessData<'w, V>, dst: &mut Vec<Access>) {
        if data.arch.has(self.key) {
            dst.push(Access { kind: AccessKind::Archetype { id: data.arch_id, component: self.key }, mutable: false });
        } else {
            assert(old(dst)@ + Seq::<Access>::empty() =~= old(dst)@);
        }
    }

    fn searcher(&self, searcher: &mut ArchetypeSearcher) {
        searcher.add_required(self.key);
        assert(old(searcher).required@.push(self.key) =~= old(searcher).required@ + seq![self.key]);
    }
}

/// The values of a component the archetype has are one per entity.
pub proof fn lemma_values_len<'w, V>(data: FetchPrepareData<'w, V>, key: ComponentKey)
    requires
        data.wf(),
        data.arch.components@.contains(key),
    ensures
        0 <= key_index(data.arch.components@, key) < data.arch.components@.len(),
        component_values(data, key).len() == data.arch_len(),
{
    lemma_key_index(data.arch.components@, key);
    assert(data.world.archetypes@[data.arch_id as int].wf());
    let i = key_index(data.arch.components@, key);
    assert(data.arch.cells@[i].data@.len() == data.arch.entities@.len());
}

} // verus!
