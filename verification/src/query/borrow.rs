use vstd::prelude::*;

use crate::archetype::{Archetype, ArchetypeId};
use crate::fetch::base::{Fetch, FetchAccessData, FetchPrepareData};
use crate::filter::iter::{next_slice, spec_collect, spec_next_slice, FilterIter, Filtered};
use crate::query::planar::Chunk;
use crate::fetch::prepared::PreparedFetch;
use crate::slice::Slice;
use crate::world::World;

verus! {

/// The data of a query borrow: the world, the fetch and the ticks of this run.
pub struct QueryBorrowState<'w, Q, F, V> {
    pub old_tick: u32,
    pub new_tick: u32,
    pub world: &'w World<V>,
    pub fetch: &'w Filtered<Q, F>,
}

/// The data for preparing a fetch for the archetype of the given id.
pub open spec fn prepare_data<'w, V>(world: &'w World<V>, arch_id: ArchetypeId, old_tick: u32, new_tick: u32) -> FetchPrepareData<'w, V> {
    FetchPrepareData { world, arch: &world.archetypes@[arch_id as int], arch_id, old_tick, new_tick }
}

/// Whether the query visits the archetype: it matches, and the fetch can be prepared for it.
pub open spec fn arch_matches<'w, V, Q: Fetch<'w, V>, F: Fetch<'w, V>>(fetch: Filtered<Q, F>, data: FetchPrepareData<'w, V>) -> bool {
    fetch.spec_filter_arch(data.spec_access_data()) && fetch.spec_prepare_some(data)
}

/// A fetch prepared for one archetype.
pub struct PreparedArchetype<'w, Q, F, V> {
    pub arch_id: ArchetypeId,
    pub arch: &'w Archetype<V>,
    pub fetch: Filtered<Q, F>,
}

impl<'w, Q, F, V> QueryBorrowState<'w, Q, F, V> {
    /// The data for preparing the fetch for an archetype of the world.
    pub open spec fn data_for(&self, arch_id: ArchetypeId) -> FetchPrepareData<'w, V> {
        prepare_data(self.world, arch_id, self.old_tick, self.new_tick)
    }

    /// Prepares the fetch for an archetype; `None` where the query does not visit it.
    pub fn prepare_fetch(&self, arch_id: ArchetypeId) -> (r: Option<PreparedArchetype<'w, Q::Prepared, F::Prepared, V>>) where
        Q: Fetch<'w, V>,
        F: Fetch<'w, V>,
        requires
            self.world.wf(),
            arch_id < self.world.archetypes@.len(),
            self.fetch.spec_valid(),
        ensures
            r is Some <==> arch_matches(*self.fetch, self.data_for(arch_id)),
            r matches Some(p) ==> p.arch_id == arch_id && *p.arch == self.world.archetypes@[arch_id as int]
                && self.fetch.spec_prepared(self.data_for(arch_id), p.fetch),
    {
        let world: &'w World<V> = self.world;
        let arch: &'w Archetype<V> = &world.archetypes[arch_id];
        let data = FetchPrepareData { world, arch, arch_id, old_tick: self.old_tick, new_tick: self.new_tick };
        let fetch: &'w Filtered<Q, F> = self.fetch;
        if !fetch.filter_arch(FetchAccessData { world, arch, arch_id }) {
            return None;
        }
        match fetch.prepare(data) {
            Some(p) => Some(PreparedArchetype { arch_id, arch, fetch: p }),
            None => None,
        }
    }
}

impl<'w, Q: PreparedFetch<'w>, F: PreparedFetch<'w>, V> PreparedArchetype<'w, Q, F, V> {
    /// The batches of slots the fetch yields over the whole archetype, in order.
    pub fn chunks(self) -> (r: Vec<Slice>)
        requires
            spec_collect(self.fetch, Slice { start: 0, end: self.arch.entities@.len() as usize }).0,
        ensures
            r@ == spec_collect(self.fetch, Slice { start: 0, end: self.arch.entities@.len() as usize }).1,
    {
        let slots = self.arch.slots();
        FilterIter::new(slots, self.fetch).collect_vec()
    }
}

/// Iterates the batches of slots of one archetype which a prepared fetch yields, from left to
/// right.
pub struct ArchetypeChunks<'w, Q, F, V> {
    pub arch_id: ArchetypeId,
    pub arch: &'w Archetype<V>,
    pub fetch: Filtered<Q, F>,
    pub slots: Slice,
}

impl<'w, Q: PreparedFetch<'w>, F: PreparedFetch<'w>, V> ArchetypeChunks<'w, Q, F, V> {
    /// The next batch: the next nonempty slice the fetch matches; the slots up to its end are
    /// consumed.
    pub fn next(&mut self) -> (r: Option<Chunk<'w, V>>)
        requires
            old(self).slots.wf(),
            spec_next_slice(old(self).fetch, old(self).slots).0,
        ensures
            final(self).arch_id == old(self).arch_id,
            final(self).arch == old(self).arch,
            final(self).slots.wf(),
            ({
                let (_, res, rest, f2) = spec_next_slice(old(self).fetch, old(self).slots);
                &&& final(self).slots == rest
                &&& final(self).fetch == f2
                &&& res is None ==> r is None
                &&& res matches Some(m) ==> r == Some(Chunk { arch_id: old(self).arch_id, arch: old(self).arch, slots: m })
            }),
    {
        match next_slice(&mut self.slots, &mut self.fetch) {
            Some(m) => Some(Chunk { arch_id: self.arch_id, arch: self.arch, slots: m }),
            None => None,
        }
    }
}

impl<'w, Q: PreparedFetch<'w>, F: PreparedFetch<'w>, V> PreparedArchetype<'w, Q, F, V> {
    /// Iterates the batches of the whole archetype one at a time.
    pub fn archetype_chunks(self) -> (r: ArchetypeChunks<'w, Q, F, V>)
        ensures
            r.arch_id == self.arch_id,
            r.arch == self.arch,
            r.fetch == self.fetch,
            r.slots == (Slice { start: 0, end: self.arch.entities@.len() as usize }),
    {
        let slots = self.arch.slots();
        ArchetypeChunks { arch_id: self.arch_id, arch: self.arch, fetch: self.fetch, slots }
    }
}

} // verus!
