use vstd::prelude::*;

use crate::changes::{Change, ChangeKind};
use crate::entity::ComponentKey;
use crate::fetch::base::{Fetch, FetchAccessData, FetchPrepareData};
use crate::fetch::component::{component_access, component_values, lemma_values_len};
use crate::fetch::prepared::PreparedFetch;
use crate::filter::cursor::{lemma_change_single_exact, ChangeCursor, ChangeFetch};
use crate::query::searcher::ArchetypeSearcher;
use crate::schedule::access::{Access, AccessKind};
use crate::slice::{Slice, Slot};
use crate::entity::Entity;
use crate::world::{key_index, lemma_key_index, ComponentDesc, World};

verus! {

/// The change events of one kind of a component of the archetype, where it has the component.
pub open spec fn component_changes<'w, V>(data: FetchPrepareData<'w, V>, key: ComponentKey, kind: ChangeKind) -> Seq<Change> {
    data.arch.cells@[key_index(data.arch.components@, key)].changes.spec_get(kind)@
}

/// Law: a change filter of a kind, prepared at `f.cursor.old_tick` over the change records of
/// that kind of a component of an entity's archetype, lets the entity's slot through exactly
/// when the entity's component last changed in that way after that tick. So a write made at a
/// tick newer than a query's previous run is seen by the query's change filter.
pub proof fn lemma_change_seen<V>(world: World<V>, id: Entity, key: ComponentKey, kind: ChangeKind, f: ChangeFetch)
    requires
        world.wf(),
        world.alive(id),
        world.keys_of(id).contains(key),
        f.changes@ == world.archetypes@[world.loc_of(id).arch_id as int].cells@[key_index(world.keys_of(id), key)].changes.spec_get(kind)@,
        f.cursor.cursor == 0,
        f.cursor.cur is None,
    ensures
        (world.tick_of(id, key, kind) matches Some(t) && t > f.cursor.old_tick)
            <==> !f.spec_filter(Slice::single_spec(world.loc_of(id).slot)).0.spec_is_empty(),
{
    let l = world.loc_of(id);
    let a = world.archetypes@[l.arch_id as int];
    assert(world.locations@[id.id as int] is Some);
    assert(a.wf());
    lemma_key_index(a.components@, key);
    let i = key_index(a.components@, key);
    assert(a.cells@[i].changes.wf());
    assert(l.slot < a.entities@.len());
    assert(a.entities@.len() == a.entities.len());
    lemma_change_single_exact(f, l.slot);
}

/// Yields the value of a component for the entities whose component changed in the given way
/// since the query last ran.
#[derive(Debug, Clone)]
pub struct ChangeFilter {
    pub component: ComponentDesc,
    pub kind: ChangeKind,
}

impl ChangeFilter {
    /// Filters by the changes of the given kind of `component`.
    pub fn new(component: ComponentDesc, kind: ChangeKind) -> (r: ChangeFilter)
        ensures
            r.component == component,
            r.kind == kind,
    {
        ChangeFilter { component, kind }
    }
}

/// A change filter prepared for one archetype: the component's values and a search over its
/// change events.
pub struct PreparedChangeFilter<'w, V> {
    pub data: &'w [V],
    pub kind: ChangeKind,
    pub changes: ChangeFetch<'w>,
}

impl<'w, V> PreparedFetch<'w> for PreparedChangeFilter<'w, V> {
    type Item = &'w V;

    open spec fn spec_filter_ok(&self, slots: Slice) -> bool {
        self.changes.spec_filter_ok(slots)
    }

    open spec fn spec_filter(&self, slots: Slice) -> (Slice, PreparedChangeFilter<'w, V>) {
        let (r, c2) = self.changes.spec_filter(slots);
        (r, PreparedChangeFilter { data: self.data, kind: self.kind, changes: c2 })
    }

    open spec fn spec_fetch_ok(&self, slot: int) -> bool {
        0 <= slot < self.data@.len()
    }

    open spec fn spec_fetch(&self, slot: int) -> &'w V {
        &self.data@[slot]
    }

    fn filter_slots(&mut self, slots: Slice) -> (r: Slice) {
        self.changes.filter_slots(slots)
    }

    fn fetch_shared(&self, slot: Slot) -> (r: &'w V) {
        let data: &'w [V] = self.data;
        &data[slot]
    }
}

impl<'w, V: 'w> Fetch<'w, V> for ChangeFilter {
    type Prepared = PreparedChangeFilter<'w, V>;

    open spec fn spec_mutable(&self) -> bool {
        false
    }

    open spec fn spec_valid(&self) -> bool {
        true
    }

    /// Removals are tracked apart from the component, so any archetype may hold them.
    open spec fn spec_filter_arch(&self, data: FetchAccessData<'w, V>) -> bool {
        self.kind is Removed || data.arch.components@.contains(self.component.key)
    }

    open spec fn spec_prepare_some(&self, data: FetchPrepareData<'w, V>) -> bool {
        data.arch.components@.contains(self.component.key)
    }

    open spec fn spec_prepared(&self, data: FetchPrepareData<'w, V>, p: PreparedChangeFilter<'w, V>) -> bool {
        &&& data.arch.components@.contains(self.component.key)
        &&& p.data@ == component_values(data, self.component.key)
        &&& p.kind == self.kind
        &&& p.changes.changes@ == component_changes(data, self.component.key, self.kind)
        &&& p.changes.cursor == ChangeCursor { cursor: 0, old_tick: data.old_tick, cur: None }
    }

    open spec fn spec_access(&self, data: FetchAccessData<'w, V>) -> Seq<Access> {
        component_access(data, self.component.key, false)
    }

    open spec fn spec_required(&self) -> Seq<ComponentKey> {
        if self.kind is Removed {
            Seq::empty()
        } else {
            seq![self.component.key]
        }
    }

    proof fn lemma_prepared_small(&self, data: FetchPrepareData<'w, V>, p: PreparedChangeFilter<'w, V>, slots: Slice) {
        lemma_values_len(data, self.component.key);
    }

    fn mutable(&self) -> (r: bool) {
        false
    }

    fn prepare(&'w self, data: FetchPrepareData<'w, V>) -> (r: Option<PreparedChangeFilter<'w, V>>) {
        let arch = data.arch;
        let key = self.component.key;
        proof {
            lemma_key_index(arch.components@, key);
        }
        match arch.index_of(key) {
            Some(i) => {
                proof {
                    assert(arch.wf());
                }
                let cell = &arch.cells[i];
                let changes = cell.changes.get(self.kind).as_slice();
                Some(PreparedChangeFilter { data: cell.data.as_slice(), kind: self.kind, changes: ChangeFetch::new(changes, data.old_tick) })
            },
            None => None,
        }
    }

    fn filter_arch(&self, data: FetchAccessData<'w, V>) -> (r: bool) {
        self.kind.is_removed() || data.arch.has(self.component.key)
    }

    fn access(&self, data: FetchAccessData<'w, V>, dst: &mut Vec<Access>) {
        if data.arch.has(self.component.key) {
            dst.push(Access { kind: AccessKind::Archetype { id: data.arch_id, component: self.component.key }, mutable: false });
        } else {
            assert(old(dst)@ + Seq::<Access>::empty() =~= old(dst)@);
        }
    }

    fn searcher(&self, searcher: &mut ArchetypeSearcher) {
        if self.kind.is_removed() {
            assert(old(searcher).required@ + Seq::<ComponentKey>::empty() =~= old(searcher).required@);
        } else {
            searcher.add_required(self.component.key);
            assert(old(searcher).required@.push(self.component.key) =~= old(searcher).required@ + seq![self.component.key]);
        }
    }
}

} // verus!
