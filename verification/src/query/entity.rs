use vstd::prelude::*;

use crate::archetype::{Archetype, EntityLocation};
use crate::entity::{ComponentKey, Entity};
use crate::fetch::base::{small_slots, Fetch, FetchPrepareData};
use crate::fetch::prepared::PreparedFetch;
use crate::filter::iter::Filtered;
use crate::query::borrow::{arch_matches, prepare_data, PreparedArchetype, QueryBorrowState};
use crate::query::difference::{spec_set_difference, SetDifference};
use crate::query::searcher::ArchetypeSearcher;
use crate::slice::Slice;
use crate::world::{first_desc, key_index, lemma_key_index, ComponentDesc, Error, World};
use crate::changes::ChangeKind;
use crate::entity::spec_component_info_key;
use crate::fetch::component::{component_values, ReadComponent};
use crate::filter::change::{ChangeFilter, PreparedChangeFilter};
use crate::filter::constant::All;
use crate::filter::cursor::lemma_change_single_exact;
use crate::filter::set::And;

verus! {

/// The descriptions of the components among `keys` which were registered, in order.
pub open spec fn described(descs: Seq<ComponentDesc>, keys: Seq<ComponentKey>) -> Seq<ComponentDesc>
    decreases keys.len(),
{
    if keys.len() == 0 {
        Seq::empty()
    } else {
        let rest = described(descs, keys.drop_first());
        match first_desc(descs, keys[0].id) {
            Some(d) => seq![d] + rest,
            None => rest,
        }
    }
}

/// The components the fetch requires which the archetype lacks, by their descriptions.
pub open spec fn missing_components<V>(required: Seq<ComponentKey>, arch: Archetype<V>, world: World<V>) -> Seq<ComponentDesc> {
    described(world.descs@, spec_set_difference(required, arch.components@))
}

/// Why a live entity does not match a query: a missing component where one is known, else no
/// match at all.
pub open spec fn mismatch_error<V>(required: Seq<ComponentKey>, arch: Archetype<V>, world: World<V>, id: Entity) -> Error {
    let missing = missing_components(required, arch, world);
    if missing.len() > 0 {
        Error::MissingComponent(id, missing[0])
    } else {
        Error::DoesNotMatch(id)
    }
}

/// Lists the registered components which the fetch requires and the archetype lacks.
pub fn find_missing_components<'w, V, Q: Fetch<'w, V>>(fetch: &Q, arch: &Archetype<V>, world: &World<V>) -> (r: Vec<ComponentDesc>)
    ensures
        r@ == missing_components(fetch.spec_required(), *arch, *world),
{
    let mut searcher = ArchetypeSearcher::new();
    fetch.searcher(&mut searcher);
    assert(searcher.required@ =~= fetch.spec_required());
    let ghost keys = spec_set_difference(fetch.spec_required(), arch.components@);
    let mut comps: Vec<ComponentKey> = Vec::new();
    let mut i: usize = 0;
    while i < arch.components.len()
        invariant
            0 <= i <= arch.components@.len(),
            comps@ == arch.components@.subrange(0, i as int),
        decreases arch.components@.len() - i,
    {
        comps.push(arch.components[i]);
        i += 1;
    }
    assert(comps@ =~= arch.components@);
    let mut diff = SetDifference::new(searcher.required, comps);
    let mut out: Vec<ComponentDesc> = Vec::new();
    loop
        invariant
            diff.wf(),
            keys == spec_set_difference(fetch.spec_required(), arch.components@),
            out@ + described(world.descs@, diff.remaining()) == described(world.descs@, keys),
        decreases diff.remaining().len(),
    {
        let ghost before = diff.remaining();
        match diff.next() {
            Some(k) => {
                let d = world.desc_of(k.id);
                proof {
                    assert(before.drop_first() == diff.remaining());
                }
                match d {
                    Some(d) => {
                        assert(out@.push(d) + described(world.descs@, diff.remaining()) =~= out@ + described(world.descs@, before));
                        out.push(d);
                    },
                    None => {},
                }
            },
            None => {
                assert(out@ + described(world.descs@, diff.remaining()) =~= out@);
                return out;
            },
        }
    }
}

/// A query for a single entity, prepared for the archetype of that entity.
pub struct EntityBorrow<'w, Q, F, V> {
    /// The location of the entity and the prepared fetch, or why the entity does not match.
    pub prepared: Result<(EntityLocation, PreparedArchetype<'w, Q, F, V>), Error>,
    /// The prepared fetch before the entity's slot was filtered.
    pub initial: Ghost<Option<Filtered<Q, F>>>,
}

/// What the borrow of a single entity holds, given the fetch as first prepared.
pub open spec fn entity_state_ok<'w, V, Q: Fetch<'w, V>, F: Fetch<'w, V>>(
    fetch: Filtered<Q, F>,
    world: &'w World<V>,
    id: Entity,
    old_tick: u32,
    new_tick: u32,
    r: EntityBorrow<'w, Q::Prepared, F::Prepared, V>,
) -> bool {
    if !world.alive(id) {
        r.prepared == Err::<(EntityLocation, PreparedArchetype<'w, Q::Prepared, F::Prepared, V>), Error>(Error::NoSuchEntity(id))
    } else {
        let loc = world.loc_of(id);
        let data = prepare_data(world, loc.arch_id, old_tick, new_tick);
        if !arch_matches(fetch, data) {
            r.prepared == Err::<(EntityLocation, PreparedArchetype<'w, Q::Prepared, F::Prepared, V>), Error>(
                mismatch_error(fetch.spec_required(), *data.arch, *world, id),
            )
        } else {
            &&& r.initial@ is Some
            &&& fetch.spec_prepared(data, r.initial@->0)
            &&& ({
                let (res, p2) = r.initial@->0.spec_filter(Slice::single_spec(loc.slot));
                if res.spec_is_empty() {
                    r.prepared == Err::<(EntityLocation, PreparedArchetype<'w, Q::Prepared, F::Prepared, V>), Error>(Error::Filtered(id))
                } else {
                    &&& r.prepared matches Ok((l, pa)) && l == loc && pa.fetch == p2 && pa.arch_id == loc.arch_id
                }
            })
        }
    }
}

impl<'w, Q: PreparedFetch<'w>, F: PreparedFetch<'w>, V> EntityBorrow<'w, Q, F, V> {
    /// The entity's item can be fetched from the prepared fetch.
    pub open spec fn ready(&self) -> bool {
        self.prepared matches Ok((loc, p)) ==> p.fetch.spec_fetch_ok(loc.slot as int)
    }

    /// Returns the item of the entity, or why the entity does not match.
    pub fn get(&mut self) -> (r: Result<Q::Item, Error>)
        requires
            old(self).ready(),
        ensures
            *final(self) == *old(self),
            r == (match old(self).prepared {
                Ok((loc, p)) => Ok::<Q::Item, Error>(p.fetch.spec_fetch(loc.slot as int)),
                Err(e) => Err::<Q::Item, Error>(e),
            }),
    {
        match &self.prepared {
            Ok((loc, p)) => Ok(p.fetch.fetch_shared(loc.slot)),
            Err(e) => Err(e.clone()),
        }
    }
}

/// Prepares the borrow of a single entity.
pub fn entity_state<'w, V, Q: Fetch<'w, V>, F: Fetch<'w, V>>(id: Entity, state: &QueryBorrowState<'w, Q, F, V>) -> (r: EntityBorrow<'w, Q::Prepared, F::Prepared, V>)
    requires
        state.world.wf(),
        state.fetch.spec_valid(),
    ensures
        entity_state_ok(*state.fetch, state.world, id, state.old_tick, state.new_tick, r),
        r.ready(),
{
    let world: &'w World<V> = state.world;
    let loc = match world.location(id) {
        Ok(v) => v,
        Err(_) => {
            return EntityBorrow { prepared: Err(Error::NoSuchEntity(id)), initial: Ghost(None) };
        },
    };
    let ghost data = prepare_data(world, loc.arch_id, state.old_tick, state.new_tick);
    let mut p = match state.prepare_fetch(loc.arch_id) {
        Some(p) => p,
        None => {
            let arch = world.archetype(loc.arch_id);
            let missing = find_missing_components(state.fetch, arch, world);
            let e = if missing.len() > 0 {
                Error::MissingComponent(id, missing[0].clone())
            } else {
                Error::DoesNotMatch(id)
            };
            return EntityBorrow { prepared: Err(e), initial: Ghost(None) };
        },
    };
    let ghost p0 = p.fetch;
    let n = world.archetypes[loc.arch_id].entities.len();
    assert(loc.slot < n);
    proof {
        assert(data.wf());
        state.fetch.lemma_prepared_small(data, p0, Slice::single_spec(loc.slot));
        assert(p0.spec_filter(Slice::single_spec(loc.slot)).1.spec_fetch_ok(loc.slot as int));
    }
    let r = p.fetch.filter_slots(Slice::single(loc.slot));
    if r.is_empty() {
        return EntityBorrow { prepared: Err(Error::Filtered(id)), initial: Ghost(Some(p0)) };
    }
    EntityBorrow { prepared: Ok((loc, p)), initial: Ghost(Some(p0)) }
}


/// Law: a query of one component for a single entity reads the entity's value of that
/// component, and fails where the entity lacks it.
pub proof fn lemma_entity_reads_component<'w, V>(
    desc: ComponentDesc,
    include_components: bool,
    world: &'w World<V>,
    id: Entity,
    old_tick: u32,
    new_tick: u32,
    r: EntityBorrow<'w, ReadComponent<'w, V>, All, V>,
)
    requires
        world.wf(),
        entity_state_ok(Filtered { fetch: desc, filter: All, include_components }, world, id, old_tick, new_tick, r),
        world.alive(id) ==> include_components || !world.keys_of(id).contains(spec_component_info_key()),
    ensures
        match world.value_of(id, desc.key) {
            Some(v) => r.prepared matches Ok((loc, p)) && *p.fetch.spec_fetch(loc.slot as int) == v,
            None => r.prepared is Err,
        },
{
    if world.alive(id) {
        let loc = world.loc_of(id);
        let data = prepare_data(world, loc.arch_id, old_tick, new_tick);
        assert(world.archetypes@[loc.arch_id as int].wf());
        assert(world.archetypes@[loc.arch_id as int].entities.len() == world.archetypes@[loc.arch_id as int].entities@.len());
        lemma_key_index(data.arch.components@, desc.key);
        if world.value_of(id, desc.key) is Some {
            let p0 = r.initial@->0;
            assert(p0.fetch.data@ == component_values(data, desc.key));
        }
    }
}

/// Law: a query filtered by the modifications of a component lets a single entity through
/// exactly when that component was modified after the query last ran; otherwise the entity is
/// reported as filtered out.
pub proof fn lemma_entity_modified_filter<'w, V>(
    desc: ComponentDesc,
    changed: ComponentDesc,
    include_components: bool,
    world: &'w World<V>,
    id: Entity,
    old_tick: u32,
    new_tick: u32,
    r: EntityBorrow<'w, ReadComponent<'w, V>, And<All, PreparedChangeFilter<'w, V>>, V>,
)
    requires
        world.wf(),
        entity_state_ok(
            Filtered { fetch: desc, filter: And(All, ChangeFilter { component: changed, kind: ChangeKind::Modified }), include_components },
            world,
            id,
            old_tick,
            new_tick,
            r,
        ),
        world.alive(id),
        world.value_of(id, desc.key) is Some,
        world.value_of(id, changed.key) is Some,
        include_components || !world.keys_of(id).contains(spec_component_info_key()),
    ensures
        r.prepared is Ok <==> (world.tick_of(id, changed.key, ChangeKind::Modified) matches Some(t) && t > old_tick),
        r.prepared is Err ==> r.prepared == Err::<(EntityLocation, PreparedArchetype<'w, ReadComponent<'w, V>, And<All, PreparedChangeFilter<'w, V>>, V>), Error>(Error::Filtered(id)),
{
    let loc = world.loc_of(id);
    let data = prepare_data(world, loc.arch_id, old_tick, new_tick);
    let arch = world.archetypes@[loc.arch_id as int];
    assert(arch.wf());
    lemma_key_index(arch.components@, desc.key);
    lemma_key_index(arch.components@, changed.key);
    let p0 = r.initial@->0;
    let cf = p0.filter.1;
    let i = key_index(arch.components@, changed.key);
    assert(arch.cells@[i].changes.wf());
    assert(cf.changes.changes@ == arch.cells@[i].changes.spec_get(ChangeKind::Modified)@);
    assert(loc.slot < arch.entities@.len());
    assert(arch.entities.len() == arch.entities@.len());
    lemma_change_single_exact(cf.changes, loc.slot);
}

} // verus!
