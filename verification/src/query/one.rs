use vstd::prelude::*;

use crate::archetype::{Archetype, EntityLocation};
use crate::fetch::base::{Fetch, FetchPrepareData};
use crate::fetch::prepared::PreparedFetch;
use crate::slice::Slice;
use crate::world::World;

verus! {

/// A query on a single entity, prepared for the entity's archetype.
pub struct QueryOne<'w, V, Q: Fetch<'w, V>> {
    /// The fetch prepared for the entity's archetype, or `None` where the archetype does not
    /// match.
    pub prepared: Option<Q::Prepared>,
    /// Where the entity is stored.
    pub loc: EntityLocation,
    /// The fetch as first prepared, before it was narrowed to the entity's slot.
    pub initial: Ghost<Option<Q::Prepared>>,
}

/// The data a single-entity query is prepared with: the entity's archetype, from the first
/// tick up to the world's current one.
pub open spec fn one_data<'w, V>(world: &'w World<V>, arch: &'w Archetype<V>, loc: EntityLocation) -> FetchPrepareData<'w, V> {
    FetchPrepareData { world, arch, arch_id: loc.arch_id, old_tick: 0, new_tick: world.change_tick }
}

impl<'w, V, Q: Fetch<'w, V>> QueryOne<'w, V, Q> {
    /// The entity's item can be fetched from the prepared fetch.
    pub open spec fn ready(&self) -> bool {
        self.prepared matches Some(p) ==> p.spec_fetch_ok(self.loc.slot as int)
    }

    /// Prepares `fetch` for the archetype of the entity at `loc`.
    pub fn new(fetch: &'w Q, world: &'w World<V>, arch: &'w Archetype<V>, loc: EntityLocation) -> (r: QueryOne<'w, V, Q>)
        requires
            world.wf(),
            fetch.spec_valid(),
            loc.arch_id < world.archetypes@.len(),
            *arch == world.archetypes@[loc.arch_id as int],
            loc.slot < arch.entities@.len(),
        ensures
            r.loc == loc,
            r.prepared is Some <==> fetch.spec_prepare_some(one_data(world, arch, loc)),
            r.prepared is Some ==> r.initial@ is Some && fetch.spec_prepared(one_data(world, arch, loc), r.initial@->0)
                && r.prepared->0 == r.initial@->0.spec_filter(Slice::single_spec(loc.slot)).1,
            r.ready(),
    {
        let n = arch.entities.len();
        assert(loc.slot < n);
        let data = FetchPrepareData { world, arch, arch_id: loc.arch_id, old_tick: 0, new_tick: world.change_tick() };
        match fetch.prepare(data) {
            Some(p) => {
                let ghost p0 = p;
                let mut p = p;
                proof {
                    fetch.lemma_prepared_small(data, p0, Slice::single_spec(loc.slot));
                }
                let _ = p.filter_slots(Slice::single(loc.slot));
                QueryOne { prepared: Some(p), loc, initial: Ghost(Some(p0)) }
            },
            None => QueryOne { prepared: None, loc, initial: Ghost(None) },
        }
    }

    /// The item of the entity, or `None` where the entity does not match the query.
    pub fn get(&mut self) -> (r: Option<<Q::Prepared as PreparedFetch<'w>>::Item>)
        requires
            old(self).ready(),
        ensures
            *final(self) == *old(self),
            r == (match old(self).prepared {
                Some(p) => Some(p.spec_fetch(old(self).loc.slot as int)),
                None => None,
            }),
    {
        match &self.prepared {
            Some(p) => Some(p.fetch_shared(self.loc.slot)),
            None => None,
        }
    }
}

} // verus!
