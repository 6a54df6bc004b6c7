use vstd::prelude::*;

use crate::archetype::{Archetype, ArchetypeId};
use crate::entity::ComponentKey;
use crate::fetch::prepared::PreparedFetch;
use crate::query::searcher::ArchetypeSearcher;
use crate::schedule::access::Access;
use crate::slice::Slice;
use crate::world::World;

verus! {

/// The world data needed to declare the access of a fetch to one archetype.
pub struct FetchAccessData<'w, V> {
    /// The world.
    pub world: &'w World<V>,
    /// The archetype.
    pub arch: &'w Archetype<V>,
    /// The archetype's id.
    pub arch_id: ArchetypeId,
}

impl<'w, V> Clone for FetchAccessData<'w, V> {
    fn clone(&self) -> (r: Self)
        ensures
            r == *self,
    {
        FetchAccessData { world: self.world, arch: self.arch, arch_id: self.arch_id }
    }
}

impl<'w, V> Copy for FetchAccessData<'w, V> {

}

impl<'w, V> FetchAccessData<'w, V> {
    /// The archetype is the world's archetype of that id, and the world is well formed.
    pub open spec fn wf(&self) -> bool {
        &&& self.world.wf()
        &&& self.arch_id < self.world.archetypes@.len()
        &&& *self.arch == self.world.archetypes@[self.arch_id as int]
    }
}

/// The world data needed to prepare a fetch for one archetype.
pub struct FetchPrepareData<'w, V> {
    /// The world.
    pub world: &'w World<V>,
    /// The archetype.
    pub arch: &'w Archetype<V>,
    /// The archetype's id.
    pub arch_id: ArchetypeId,
    /// The tick of the previous run of the query.
    pub old_tick: u32,
    /// The tick of this run.
    pub new_tick: u32,
}

impl<'w, V> Clone for FetchPrepareData<'w, V> {
    fn clone(&self) -> (r: Self)
        ensures
            r == *self,
    {
        FetchPrepareData {
            world: self.world,
            arch: self.arch,
            arch_id: self.arch_id,
            old_tick: self.old_tick,
            new_tick: self.new_tick,
        }
    }
}

impl<'w, V> Copy for FetchPrepareData<'w, V> {

}

impl<'w, V> FetchPrepareData<'w, V> {
    /// The archetype is the world's archetype of that id, and the world is well formed.
    pub open spec fn wf(&self) -> bool {
        &&& self.world.wf()
        &&& self.arch_id < self.world.archetypes@.len()
        &&& *self.arch == self.world.archetypes@[self.arch_id as int]
    }

    /// The access data of the same archetype.
    pub open spec fn spec_access_data(&self) -> FetchAccessData<'w, V> {
        FetchAccessData { world: self.world, arch: self.arch, arch_id: self.arch_id }
    }

    /// The number of entities of the archetype.
    pub open spec fn arch_len(&self) -> nat {
        self.arch.entities@.len()
    }
}

impl<'w, V> From<FetchPrepareData<'w, V>> for FetchAccessData<'w, V> {
    fn from(value: FetchPrepareData<'w, V>) -> (r: Self) {
        FetchAccessData { world: value.world, arch: value.arch, arch_id: value.arch_id }
    }
}

impl<'w, V> vstd::std_specs::convert::FromSpecImpl<FetchPrepareData<'w, V>> for FetchAccessData<'w, V> {
    open spec fn obeys_from_spec() -> bool {
        true
    }

    open spec fn from_spec(v: FetchPrepareData<'w, V>) -> Self {
        v.spec_access_data()
    }
}

/// Names the item a fetch yields.
pub trait FetchItem<'q> {
    /// The item yielded for each entity.
    type Item;
}

/// A slice of at most one slot that lies inside the archetype.
pub open spec fn small_slots(slots: Slice, len: nat) -> bool {
    &&& slots.wf()
    &&& slots.end <= len
    &&& slots.end <= slots.start + 1
}

/// A retrieval of data from the archetypes of a world.
///
/// A fetch is prepared for an archetype, which yields a [`PreparedFetch`] that narrows the slots
/// and hands out the items.
pub trait Fetch<'w, V>: Sized {
    /// The fetch prepared for one archetype.
    type Prepared: PreparedFetch<'w>;

    /// Whether the fetch writes to components.
    spec fn spec_mutable(&self) -> bool;

    /// Whether the fetch can be prepared at all.
    spec fn spec_valid(&self) -> bool;

    /// Whether the archetype matches the fetch.
    spec fn spec_filter_arch(&self, data: FetchAccessData<'w, V>) -> bool;

    /// Whether preparing for the archetype succeeds.
    spec fn spec_prepare_some(&self, data: FetchPrepareData<'w, V>) -> bool;

    /// What holds of a fetch prepared for the archetype.
    spec fn spec_prepared(&self, data: FetchPrepareData<'w, V>, p: Self::Prepared) -> bool;

    /// The accesses of the fetch to the archetype.
    spec fn spec_access(&self, data: FetchAccessData<'w, V>) -> Seq<Access>;

    /// The components an archetype must have for the fetch to match.
    spec fn spec_required(&self) -> Seq<ComponentKey>;

    /// A prepared fetch can filter a slice of at most one slot of the archetype, keeps the
    /// result inside that slice, and can then fetch any slot of the archetype.
    proof fn lemma_prepared_small(&self, data: FetchPrepareData<'w, V>, p: Self::Prepared, slots: Slice)
        requires
            data.wf(),
            self.spec_valid(),
            self.spec_prepared(data, p),
            small_slots(slots, data.arch_len()),
        ensures
            p.spec_filter_ok(slots),
            slots.contains_slice(p.spec_filter(slots).0),
            forall|s: int| 0 <= s < data.arch_len() ==> #[trigger] p.spec_filter(slots).1.spec_fetch_ok(s),
    ;

    /// Whether the fetch writes to components.
    fn mutable(&self) -> (r: bool)
        ensures
            r == self.spec_mutable(),
    ;

    /// Prepares the fetch for an archetype; `None` where the archetype does not match.
    fn prepare(&'w self, data: FetchPrepareData<'w, V>) -> (r: Option<Self::Prepared>)
        requires
            data.wf(),
            self.spec_valid(),
        ensures
            r is Some <==> self.spec_prepare_some(data),
            r matches Some(p) ==> self.spec_prepared(data, p),
    ;

    /// Whether the archetype matches the fetch.
    fn filter_arch(&self, data: FetchAccessData<'w, V>) -> (r: bool)
        requires
            data.wf(),
        ensures
            r == self.spec_filter_arch(data),
    ;

    /// Appends the accesses of the fetch to the archetype.
    fn access(&self, data: FetchAccessData<'w, V>, dst: &mut Vec<Access>)
        requires
            data.wf(),
        ensures
            final(dst)@ == old(dst)@ + self.spec_access(data),
    ;

    /// Adds the components an archetype must have to the searcher.
    fn searcher(&self, searcher: &mut ArchetypeSearcher)
        ensures
            final(searcher).required@ == old(searcher).required@ + self.spec_required(),
    ;
}

} // verus!
