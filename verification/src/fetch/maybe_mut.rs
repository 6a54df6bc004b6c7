use vstd::prelude::*;

use crate::changes::ChangeKind;
use crate::entity::{ComponentKey, Entity};
use crate::fetch::base::{Fetch, FetchAccessData, FetchItem, FetchPrepareData};
use crate::fetch::component::{component_access, component_values, lemma_values_len};
use crate::fetch::prepared::PreparedFetch;
use crate::filter::change::component_changes;
use crate::filter::cursor::{ChangeCursor, ChangeFetch};
use crate::query::searcher::ArchetypeSearcher;
use crate::schedule::access::{Access, AccessKind};
use crate::slice::{Slice, Slot};
use crate::world::{key_index, lemma_key_index, ComponentDesc, Error, World};

verus! {

/// The value of a component of one entity, which can be read now and written to the world once
/// the query's borrow of the world has ended.
#[derive(Clone, Copy)]
pub struct MutGuard<'w, V> {
    pub slot: Slot,
    pub id: Entity,
    pub desc: &'w ComponentDesc,
    pub value: &'w V,
    pub new_tick: u32,
}

impl<'w, V> MutGuard<'w, V> {
    /// The value the query saw.
    pub fn read(&self) -> (r: &'w V)
        ensures
            r == self.value,
    {
        self.value
    }

    /// Writes `value` to the entity's component, recording it as modified at the query's tick,
    /// and returns the previous value; fails where the entity or its component is gone.
    pub fn write(&self, world: &mut World<V>, value: V) -> (r: Result<V, Error>)
        requires
            old(world).wf(),
        ensures
            final(world).wf(),
            r is Ok <==> old(world).alive(self.id) && old(world).keys_of(self.id).contains(self.desc.key),
            !old(world).alive(self.id) ==> r == Err::<V, Error>(Error::NoSuchEntity(self.id)),
            r matches Ok(prev) ==> {
                &&& old(world).value_of(self.id, self.desc.key) == Some(prev)
                &&& final(world).value_of(self.id, self.desc.key) == Some(value)
                &&& final(world).tick_of(self.id, self.desc.key, ChangeKind::Modified) == Some(self.new_tick)
            },
            forall|x: Entity, k: ComponentKey| x != self.id ==> #[trigger] final(world).value_of(x, k) == old(world).value_of(x, k),
    {
        world.write(self.id, self.desc, value, self.new_tick)
    }
}

/// The values of one component of an archetype, handed out as guards to write through.
pub struct PreparedMaybeMut<'w, V> {
    pub desc: &'w ComponentDesc,
    pub new_tick: u32,
    pub entities: &'w [Entity],
    pub data: &'w [V],
}

/// The guard of `slot`.
pub open spec fn guard_at<'w, V>(desc: &'w ComponentDesc, new_tick: u32, entities: &'w [Entity], data: &'w [V], slot: int) -> MutGuard<'w, V> {
    MutGuard { slot: slot as usize, id: entities@[slot], desc, value: &data@[slot], new_tick }
}

impl<'w, V> PreparedFetch<'w> for PreparedMaybeMut<'w, V> {
    type Item = MutGuard<'w, V>;

    open spec fn spec_filter_ok(&self, slots: Slice) -> bool {
        true
    }

    open spec fn spec_filter(&self, slots: Slice) -> (Slice, PreparedMaybeMut<'w, V>) {
        (slots, *self)
    }

    open spec fn spec_fetch_ok(&self, slot: int) -> bool {
        0 <= slot < self.data@.len() && slot < self.entities@.len()
    }

    open spec fn spec_fetch(&self, slot: int) -> MutGuard<'w, V> {
        guard_at(self.desc, self.new_tick, self.entities, self.data, slot)
    }

    fn filter_slots(&mut self, slots: Slice) -> (r: Slice) {
        slots
    }

    fn fetch_shared(&self, slot: Slot) -> (r: MutGuard<'w, V>) {
        let data: &'w [V] = self.data;
        let entities: &'w [Entity] = self.entities;
        MutGuard { slot, id: entities[slot], desc: self.desc, value: &data[slot], new_tick: self.new_tick }
    }
}

impl<'w, V> Clone for PreparedMaybeMut<'w, V> {
    fn clone(&self) -> (r: Self)
        ensures
            r == *self,
    {
        PreparedMaybeMut { desc: self.desc, new_tick: self.new_tick, entities: self.entities, data: self.data }
    }
}

impl<'w, V> Copy for PreparedMaybeMut<'w, V> {

}

/// Prepares guards over the values of a component of an archetype.
fn prepare_guards<'w, V>(desc: &'w ComponentDesc, data: FetchPrepareData<'w, V>) -> (r: Option<PreparedMaybeMut<'w, V>>)
    requires
        data.wf(),
    ensures
        r is Some <==> data.arch.components@.contains(desc.key),
        r matches Some(p) ==> guards_prepared(desc, data, p),
{
    let arch = data.arch;
    proof {
        lemma_key_index(arch.components@, desc.key);
    }
    match arch.index_of(desc.key) {
        Some(i) => {
            proof {
                assert(arch.wf());
            }
            Some(PreparedMaybeMut { desc, new_tick: data.new_tick, entities: arch.entities.as_slice(), data: arch.cells[i].data.as_slice() })
        },
        None => None,
    }
}

/// Guards over the values of a component of the archetype, at the tick of this run.
pub open spec fn guards_prepared<'w, V>(desc: &'w ComponentDesc, data: FetchPrepareData<'w, V>, p: PreparedMaybeMut<'w, V>) -> bool {
    &&& data.arch.components@.contains(desc.key)
    &&& p.desc == desc
    &&& p.new_tick == data.new_tick
    &&& p.entities@ == data.arch.entities@
    &&& p.data@ == component_values(data, desc.key)
}

/// Yields a guard for a component of each entity, through which the value can be read or
/// written; the access to the component is declared as a write.
#[derive(Debug, Clone)]
pub struct MaybeMut(pub ComponentDesc);

impl<'q> FetchItem<'q> for MaybeMut {
    type Item = ();
}

impl<'w, V: 'w> Fetch<'w, V> for MaybeMut {
    type Prepared = PreparedMaybeMut<'w, V>;

    open spec fn spec_mutable(&self) -> bool {
        false
    }

    open spec fn spec_valid(&self) -> bool {
        true
    }

    open spec fn spec_filter_arch(&self, data: FetchAccessData<'w, V>) -> bool {
        data.arch.components@.contains(self.0.key)
    }

    open spec fn spec_prepare_some(&self, data: FetchPrepareData<'w, V>) -> bool {
        data.arch.components@.contains(self.0.key)
    }

    open spec fn spec_prepared(&self, data: FetchPrepareData<'w, V>, p: PreparedMaybeMut<'w, V>) -> bool {
        guards_prepared(&self.0, data, p)
    }

    open spec fn spec_access(&self, data: FetchAccessData<'w, V>) -> Seq<Access> {
        component_access(data, self.0.key, true)
    }

    open spec fn spec_required(&self) -> Seq<ComponentKey> {
        seq![self.0.key]
    }

    proof fn lemma_prepared_small(&self, data: FetchPrepareData<'w, V>, p: PreparedMaybeMut<'w, V>, slots: Slice) {
        lemma_values_len(data, self.0.key);
    }

    fn mutable(&self) -> (r: bool) {
        false
    }

    fn prepare(&'w self, data: FetchPrepareData<'w, V>) -> (r: Option<PreparedMaybeMut<'w, V>>) {
        prepare_guards(&self.0, data)
    }

    fn filter_arch(&self, data: FetchAccessData<'w, V>) -> (r: bool) {
        data.arch.has(self.0.key)
    }

    fn access(&self, data: FetchAccessData<'w, V>, dst: &mut Vec<Access>) {
        if data.arch.has(self.0.key) {
            dst.push(Access { kind: AccessKind::Archetype { id: data.arch_id, component: self.0.key }, mutable: true });
        } else {
            assert(old(dst)@ + Seq::<Access>::empty() =~= old(dst)@);
        }
    }

    fn searcher(&self, searcher: &mut ArchetypeSearcher) {
        searcher.add_required(self.0.key);
        assert(old(searcher).required@.push(self.0.key) =~= old(searcher).required@ + seq![self.0.key]);
    }
}

/// Yields a guard for a component of each entity to write through; the fetch writes.
///
/// The value is recorded as modified when it is written through the guard.
#[derive(Debug, Clone)]
pub struct Mutable(pub ComponentDesc);

/// The values of one component of an archetype, handed out as guards to write through.
pub type WriteComponent<'w, V> = PreparedMaybeMut<'w, V>;

impl<'q> FetchItem<'q> for Mutable {
    type Item = ();
}

impl<'w, V: 'w> Fetch<'w, V> for Mutable {
    type Prepared = PreparedMaybeMut<'w, V>;

    open spec fn spec_mutable(&self) -> bool {
        true
    }

    open spec fn spec_valid(&self) -> bool {
        true
    }

    open spec fn spec_filter_arch(&self, data: FetchAccessData<'w, V>) -> bool {
        data.arch.components@.contains(self.0.key)
    }

    open spec fn spec_prepare_some(&self, data: FetchPrepareData<'w, V>) -> bool {
        data.arch.components@.contains(self.0.key)
    }

    open spec fn spec_prepared(&self, data: FetchPrepareData<'w, V>, p: PreparedMaybeMut<'w, V>) -> bool {
        guards_prepared(&self.0, data, p)
    }

    open spec fn spec_access(&self, data: FetchAccessData<'w, V>) -> Seq<Access> {
        component_access(data, self.0.key, true)
    }

    open spec fn spec_required(&self) -> Seq<ComponentKey> {
        seq![self.0.key]
    }

    proof fn lemma_prepared_small(&self, data: FetchPrepareData<'w, V>, p: PreparedMaybeMut<'w, V>, slots: Slice) {
        lemma_values_len(data, self.0.key);
    }

    fn mutable(&self) -> (r: bool) {
        true
    }

    fn prepare(&'w self, data: FetchPrepareData<'w, V>) -> (r: Option<PreparedMaybeMut<'w, V>>) {
        prepare_guards(&self.0, data)
    }

    fn filter_arch(&self, data: FetchAccessData<'w, V>) -> (r: bool) {
        data.arch.has(self.0.key)
    }

    fn access(&self, data: FetchAccessData<'w, V>, dst: &mut Vec<Access>) {
        if data.arch.has(self.0.key) {
            dst.push(Access { kind: AccessKind::Archetype { id: data.arch_id, component: self.0.key }, mutable: true });
        } else {
            assert(old(dst)@ + Seq::<Access>::empty() =~= old(dst)@);
        }
    }

    fn searcher(&self, searcher: &mut ArchetypeSearcher) {
        searcher.add_required(self.0.key);
        assert(old(searcher).required@.push(self.0.key) =~= old(searcher).required@ + seq![self.0.key]);
    }
}

/// Yields a guard for a component of each entity whose component changed in the given way
/// since the query last ran; the access is declared as a write.
#[derive(Debug, Clone)]
pub struct ChangeFilterMut {
    pub component: ComponentDesc,
    pub kind: ChangeKind,
}

impl ChangeFilterMut {
    /// Filters by the changes of the given kind of `component`, handing out guards.
    pub fn new(component: ComponentDesc, kind: ChangeKind) -> (r: ChangeFilterMut)
        ensures
            r.component == component,
            r.kind == kind,
    {
        ChangeFilterMut { component, kind }
    }
}

/// A mutable change filter prepared for one archetype: the guards and a search over the
/// component's change events.
pub struct PreparedChangeFilterMut<'w, V> {
    pub guards: PreparedMaybeMut<'w, V>,
    pub changes: ChangeFetch<'w>,
}

impl<'w, V> PreparedFetch<'w> for PreparedChangeFilterMut<'w, V> {
    type Item = MutGuard<'w, V>;

    open spec fn spec_filter_ok(&self, slots: Slice) -> bool {
        self.changes.spec_filter_ok(slots)
    }

    open spec fn spec_filter(&self, slots: Slice) -> (Slice, PreparedChangeFilterMut<'w, V>) {
        let (r, c2) = self.changes.spec_filter(slots);
        (r, PreparedChangeFilterMut { guards: self.guards, changes: c2 })
    }

    open spec fn spec_fetch_ok(&self, slot: int) -> bool {
        self.guards.spec_fetch_ok(slot)
    }

    open spec fn spec_fetch(&self, slot: int) -> MutGuard<'w, V> {
        self.guards.spec_fetch(slot)
    }

    fn filter_slots(&mut self, slots: Slice) -> (r: Slice) {
        self.changes.filter_slots(slots)
    }

    fn fetch_shared(&self, slot: Slot) -> (r: MutGuard<'w, V>) {
        self.guards.fetch_shared(slot)
    }
}

impl<'q> FetchItem<'q> for ChangeFilterMut {
    type Item = ();
}

impl<'w, V: 'w> Fetch<'w, V> for ChangeFilterMut {
    type Prepared = PreparedChangeFilterMut<'w, V>;

    open spec fn spec_mutable(&self) -> bool {
        false
    }

    open spec fn spec_valid(&self) -> bool {
        true
    }

    open spec fn spec_filter_arch(&self, data: FetchAccessData<'w, V>) -> bool {
        data.arch.components@.contains(self.component.key)
    }

    open spec fn spec_prepare_some(&self, data: FetchPrepareData<'w, V>) -> bool {
        data.arch.components@.contains(self.component.key)
    }

    open spec fn spec_prepared(&self, data: FetchPrepareData<'w, V>, p: PreparedChangeFilterMut<'w, V>) -> bool {
        &&& guards_prepared(&self.component, data, p.guards)
        &&& p.changes.changes@ == component_changes(data, self.component.key, self.kind)
        &&& p.changes.cursor == ChangeCursor { cursor: 0, old_tick: data.old_tick, cur: None }
    }

    open spec fn spec_access(&self, data: FetchAccessData<'w, V>) -> Seq<Access> {
        component_access(data, self.component.key, true)
    }

    open spec fn spec_required(&self) -> Seq<ComponentKey> {
        seq![self.component.key]
    }

    proof fn lemma_prepared_small(&self, data: FetchPrepareData<'w, V>, p: PreparedChangeFilterMut<'w, V>, slots: Slice) {
        lemma_values_len(data, self.component.key);
    }

    fn mutable(&self) -> (r: bool) {
        false
    }

    fn prepare(&'w self, data: FetchPrepareData<'w, V>) -> (r: Option<PreparedChangeFilterMut<'w, V>>) {
        let guards = match prepare_guards(&self.component, data) {
            Some(g) => g,
            None => {
                return None;
            },
        };
        let arch = data.arch;
        let key = self.component.key;
        proof {
            lemma_key_index(arch.components@, key);
        }
        match arch.index_of(key) {
            Some(i) => {
                proof {
                    assert(arch.wf());
                }
                let changes = arch.cells[i].changes.get(self.kind).as_slice();
                Some(PreparedChangeFilterMut { guards, changes: ChangeFetch::new(changes, data.old_tick) })
            },
            None => None,
        }
    }

    fn filter_arch(&self, data: FetchAccessData<'w, V>) -> (r: bool) {
        data.arch.has(self.component.key)
    }

    fn access(&self, data: FetchAccessData<'w, V>, dst: &mut Vec<Access>) {
        if data.arch.has(self.component.key) {
            dst.push(Access { kind: AccessKind::Archetype { id: data.arch_id, component: self.component.key }, mutable: true });
        } else {
            assert(old(dst)@ + Seq::<Access>::empty() =~= old(dst)@);
        }
    }

    fn searcher(&self, searcher: &mut ArchetypeSearcher) {
        searcher.add_required(self.component.key);
        assert(old(searcher).required@.push(self.component.key) =~= old(searcher).required@ + seq![self.component.key]);
    }
}

} // verus!
