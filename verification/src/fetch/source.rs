use vstd::prelude::*;

use crate::archetype::{relation_keys, Archetype, ArchetypeId};
use crate::entity::{ComponentKey, Entity};
use crate::fetch::base::{small_slots, Fetch, FetchAccessData, FetchItem, FetchPrepareData};
use crate::fetch::prepared::{end_of, PreparedFetch};
use crate::query::borrow::prepare_data;
use crate::query::searcher::ArchetypeSearcher;
use crate::schedule::access::Access;
use crate::slice::{Slice, Slot};
use crate::world::World;

verus! {

broadcast use vstd::std_specs::vec::axiom_spec_len;

/// The access data of the archetype of the given id.
pub open spec fn access_at<'w, V>(world: &'w World<V>, arch_id: ArchetypeId) -> FetchAccessData<'w, V> {
    FetchAccessData { world, arch: &world.archetypes@[arch_id as int], arch_id }
}

/// Where a fetch takes its values from, instead of the visited entity.
pub trait FetchSource<'w, V, Q: Fetch<'w, V>>: Sized {
    /// The archetype a fetch reads from while visiting an archetype, and the slot of the one
    /// entity it reads, where it reads a single one; `None` where there is no such entity.
    spec fn spec_resolve(&self, fetch: Q, data: FetchAccessData<'w, V>) -> Option<(ArchetypeId, Option<Slot>)>;

    /// A resolved archetype lies in the world and a resolved slot in it; without a slot, the
    /// visited archetype itself was resolved.
    proof fn lemma_resolve(&self, fetch: Q, data: FetchAccessData<'w, V>)
        requires
            data.wf(),
        ensures
            self.spec_resolve(fetch, data) matches Some(r) ==> {
                &&& r.0 < data.world.archetypes@.len()
                &&& r.1 matches Some(s) ==> s < data.world.archetypes@[r.0 as int].entities@.len()
                &&& r.1 is None ==> r.0 == data.arch_id
            },
    ;

    /// Resolves the archetype a fetch reads from while visiting an archetype.
    fn resolve(&self, fetch: &Q, data: FetchAccessData<'w, V>) -> (r: Option<(ArchetypeId, Option<Slot>)>)
        requires
            data.wf(),
        ensures
            r == self.spec_resolve(*fetch, data),
    ;
}

/// The first of the relations `rels` whose target exists and lies in an archetype the fetch
/// matches: that archetype and the target's slot.
pub open spec fn spec_first_target<'w, V, Q: Fetch<'w, V>>(fetch: Q, world: &'w World<V>, rels: Seq<ComponentKey>) -> Option<(ArchetypeId, Option<Slot>)>
    decreases rels.len(),
{
    if rels.len() == 0 {
        None
    } else if rels[0].target is Some && world.alive(rels[0].target->0) && fetch.spec_filter_arch(
        access_at(world, world.loc_of(rels[0].target->0).arch_id),
    ) {
        Some((world.loc_of(rels[0].target->0).arch_id, Some(world.loc_of(rels[0].target->0).slot)))
    } else {
        spec_first_target(fetch, world, rels.drop_first())
    }
}

proof fn lemma_first_target<'w, V, Q: Fetch<'w, V>>(fetch: Q, world: &'w World<V>, rels: Seq<ComponentKey>)
    requires
        world.wf(),
    ensures
        spec_first_target(fetch, world, rels) matches Some(r) ==> (r.0 < world.archetypes@.len()
            && r.1 is Some && r.1->0 < world.archetypes@[r.0 as int].entities@.len()),
    decreases rels.len(),
{
    if rels.len() > 0 {
        lemma_first_target(fetch, world, rels.drop_first());
    }
}

/// Finds the first of the relations `rels` whose target exists and lies in an archetype the
/// fetch matches.
fn first_target<'w, V, Q: Fetch<'w, V>>(fetch: &Q, world: &'w World<V>, rels: &Vec<ComponentKey>) -> (r: Option<(ArchetypeId, Option<Slot>)>)
    requires
        world.wf(),
    ensures
        r == spec_first_target(*fetch, world, rels@),
{
    let mut i: usize = 0;
    assert(rels@.skip(0) =~= rels@);
    while i < rels.len()
        invariant
            0 <= i <= rels@.len(),
            world.wf(),
            spec_first_target(*fetch, world, rels@) == spec_first_target(*fetch, world, rels@.skip(i as int)),
        decreases rels@.len() - i,
    {
        let key = rels[i];
        assert(rels@.skip(i as int)[0] == key);
        assert(rels@.skip(i as int).drop_first() =~= rels@.skip(i + 1));
        match key.target {
            Some(t) => match world.location(t) {
                Ok(loc) => {
                    let arch: &'w Archetype<V> = &world.archetypes[loc.arch_id];
                    if fetch.filter_arch(FetchAccessData { world, arch, arch_id: loc.arch_id }) {
                        return Some((loc.arch_id, Some(loc.slot)));
                    }
                },
                Err(_) => {},
            },
            None => {},
        }
        i += 1;
    }
    assert(rels@.skip(i as int).len() == 0);
    None
}

/// Reads the values of the first target of a relation which the fetch matches.
///
/// Targets which do not exist are passed over.
#[derive(Debug, Clone)]
pub struct FromRelation {
    pub relation: Entity,
    pub name: String,
}

impl<'w, V, Q: Fetch<'w, V>> FetchSource<'w, V, Q> for FromRelation {
    open spec fn spec_resolve(&self, fetch: Q, data: FetchAccessData<'w, V>) -> Option<(ArchetypeId, Option<Slot>)> {
        spec_first_target(fetch, data.world, relation_keys(data.arch.components@, self.relation))
    }

    proof fn lemma_resolve(&self, fetch: Q, data: FetchAccessData<'w, V>) {
        lemma_first_target(fetch, data.world, relation_keys(data.arch.components@, self.relation));
    }

    fn resolve(&self, fetch: &Q, data: FetchAccessData<'w, V>) -> (r: Option<(ArchetypeId, Option<Slot>)>) {
        let rels = data.arch.relations_like(self.relation);
        first_target(fetch, data.world, &rels)
    }
}

/// Reads the values of one entity.
impl<'w, V, Q: Fetch<'w, V>> FetchSource<'w, V, Q> for Entity {
    open spec fn spec_resolve(&self, fetch: Q, data: FetchAccessData<'w, V>) -> Option<(ArchetypeId, Option<Slot>)> {
        if data.world.alive(*self) {
            Some((data.world.loc_of(*self).arch_id, Some(data.world.loc_of(*self).slot)))
        } else {
            None
        }
    }

    proof fn lemma_resolve(&self, fetch: Q, data: FetchAccessData<'w, V>) {
    }

    fn resolve(&self, fetch: &Q, data: FetchAccessData<'w, V>) -> (r: Option<(ArchetypeId, Option<Slot>)>) {
        match data.world.location(*self) {
            Ok(loc) => Some((loc.arch_id, Some(loc.slot))),
            Err(_) => None,
        }
    }
}

/// Follows the edges of a relation recursively, to the first entity the fetch matches.
#[derive(Debug, Clone, Copy)]
pub struct Traverse {
    pub relation: Entity,
}

/// The archetype (and slot, below the start) where a recursive traversal of `relation` from the
/// archetype `arch_id` first meets the fetch: the archetype itself where the fetch matches it,
/// else the first of its relations' targets, in order, from which a traversal succeeds. The
/// traversal goes at most `fuel` edges deep.
pub open spec fn spec_traverse_resolve<'w, V, Q: Fetch<'w, V>>(
    relation: Entity,
    fetch: Q,
    world: &'w World<V>,
    arch_id: ArchetypeId,
    slot: Option<Slot>,
    fuel: nat,
) -> Option<(ArchetypeId, Option<Slot>)>
    decreases fuel, 0nat, 0nat,
{
    if fetch.spec_filter_arch(access_at(world, arch_id)) {
        Some((arch_id, slot))
    } else if fuel == 0 {
        None
    } else {
        spec_traverse_targets(relation, fetch, world, relation_keys(world.archetypes@[arch_id as int].components@, relation), (fuel - 1) as nat)
    }
}

/// The first result of a traversal from the targets of `rels`, in order. See
/// [`spec_traverse_resolve`].
pub open spec fn spec_traverse_targets<'w, V, Q: Fetch<'w, V>>(
    relation: Entity,
    fetch: Q,
    world: &'w World<V>,
    rels: Seq<ComponentKey>,
    fuel: nat,
) -> Option<(ArchetypeId, Option<Slot>)>
    decreases fuel, 1nat, rels.len(),
{
    if rels.len() == 0 {
        None
    } else {
        let first = if rels[0].target is Some && world.alive(rels[0].target->0) {
            let loc = world.loc_of(rels[0].target->0);
            spec_traverse_resolve(relation, fetch, world, loc.arch_id, Some(loc.slot), fuel)
        } else {
            None
        };
        if first is Some {
            first
        } else {
            spec_traverse_targets(relation, fetch, world, rels.drop_first(), fuel)
        }
    }
}

proof fn lemma_traverse_resolve<'w, V, Q: Fetch<'w, V>>(
    relation: Entity,
    fetch: Q,
    world: &'w World<V>,
    arch_id: ArchetypeId,
    slot: Option<Slot>,
    fuel: nat,
)
    requires
        world.wf(),
        arch_id < world.archetypes@.len(),
        slot matches Some(s) ==> s < world.archetypes@[arch_id as int].entities@.len(),
    ensures
        spec_traverse_resolve(relation, fetch, world, arch_id, slot, fuel) matches Some(r) ==> {
            &&& r.0 < world.archetypes@.len()
            &&& r.1 matches Some(s) ==> s < world.archetypes@[r.0 as int].entities@.len()
            &&& r.1 is None ==> r.0 == arch_id
            &&& slot is Some ==> r.1 is Some
        },
    decreases fuel, 0nat, 0nat,
{
    if !fetch.spec_filter_arch(access_at(world, arch_id)) && fuel > 0 {
        lemma_traverse_targets(relation, fetch, world, relation_keys(world.archetypes@[arch_id as int].components@, relation), (fuel - 1) as nat);
    }
}

proof fn lemma_traverse_targets<'w, V, Q: Fetch<'w, V>>(
    relation: Entity,
    fetch: Q,
    world: &'w World<V>,
    rels: Seq<ComponentKey>,
    fuel: nat,
)
    requires
        world.wf(),
    ensures
        spec_traverse_targets(relation, fetch, world, rels, fuel) matches Some(r) ==> (r.0 < world.archetypes@.len()
            && r.1 is Some && r.1->0 < world.archetypes@[r.0 as int].entities@.len()),
    decreases fuel, 1nat, rels.len(),
{
    if rels.len() > 0 {
        if rels[0].target is Some && world.alive(rels[0].target->0) {
            let loc = world.loc_of(rels[0].target->0);
            lemma_traverse_resolve(relation, fetch, world, loc.arch_id, Some(loc.slot), fuel);
        }
        lemma_traverse_targets(relation, fetch, world, rels.drop_first(), fuel);
    }
}

/// Finds where a recursive traversal of `relation` from the archetype `arch_id` first meets the
/// fetch, going at most `fuel` edges deep.
fn traverse_resolve<'w, V, Q: Fetch<'w, V>>(
    relation: Entity,
    fetch: &Q,
    world: &'w World<V>,
    arch_id: ArchetypeId,
    slot: Option<Slot>,
    fuel: usize,
) -> (r: Option<(ArchetypeId, Option<Slot>)>)
    requires
        world.wf(),
        arch_id < world.archetypes@.len(),
    ensures
        r == spec_traverse_resolve(relation, *fetch, world, arch_id, slot, fuel as nat),
    decreases fuel,
{
    let arch: &'w Archetype<V> = &world.archetypes[arch_id];
    if fetch.filter_arch(FetchAccessData { world, arch, arch_id }) {
        return Some((arch_id, slot));
    }
    if fuel == 0 {
        return None;
    }
    let rels = arch.relations_like(relation);
    let ghost goal = spec_traverse_targets(relation, *fetch, world, rels@, (fuel - 1) as nat);
    let mut i: usize = 0;
    assert(rels@.skip(0) =~= rels@);
    while i < rels.len()
        invariant
            0 <= i <= rels@.len(),
            world.wf(),
            0 < fuel,
            arch_id < world.archetypes@.len(),
            !fetch.spec_filter_arch(access_at(world, arch_id)),
            rels@ == relation_keys(world.archetypes@[arch_id as int].components@, relation),
            goal == spec_traverse_targets(relation, *fetch, world, rels@, (fuel - 1) as nat),
            goal == spec_traverse_targets(relation, *fetch, world, rels@.skip(i as int), (fuel - 1) as nat),
        decreases rels@.len() - i,
    {
        let key = rels[i];
        assert(rels@.skip(i as int)[0] == key);
        assert(rels@.skip(i as int).drop_first() =~= rels@.skip(i + 1));
        match key.target {
            Some(t) => match world.location(t) {
                Ok(loc) => {
                    let found = traverse_resolve(relation, fetch, world, loc.arch_id, Some(loc.slot), fuel - 1);
                    if found.is_some() {
                        return found;
                    }
                },
                Err(_) => {},
            },
            None => {},
        }
        i += 1;
    }
    assert(rels@.skip(i as int).len() == 0);
    None
}

impl<'w, V, Q: Fetch<'w, V>> FetchSource<'w, V, Q> for Traverse {
    /// The traversal goes at most as many edges deep as the world has entity slots, which a
    /// chain of distinct entities cannot exceed.
    open spec fn spec_resolve(&self, fetch: Q, data: FetchAccessData<'w, V>) -> Option<(ArchetypeId, Option<Slot>)> {
        spec_traverse_resolve(self.relation, fetch, data.world, data.arch_id, None, data.world.locations@.len())
    }

    proof fn lemma_resolve(&self, fetch: Q, data: FetchAccessData<'w, V>) {
        lemma_traverse_resolve(self.relation, fetch, data.world, data.arch_id, None, data.world.locations@.len());
        assert(access_at(data.world, data.arch_id) == data);
    }

    fn resolve(&self, fetch: &Q, data: FetchAccessData<'w, V>) -> (r: Option<(ArchetypeId, Option<Slot>)>) {
        let fuel = data.world.locations.len();
        traverse_resolve(self.relation, fetch, data.world, data.arch_id, None, fuel)
    }
}


/// A fetch which reads its values from the archetype its source resolves, rather than from the
/// visited entity.
#[derive(Debug, Clone)]
pub struct Source<Q, S> {
    pub fetch: Q,
    pub source: S,
}

impl<Q, S> Source<Q, S> {
    /// Reads the values of `fetch` from `source`.
    pub fn new(fetch: Q, source: S) -> (r: Source<Q, S>)
        ensures
            r.fetch == fetch,
            r.source == source,
    {
        Source { fetch, source }
    }
}

/// A source fetch prepared for one archetype: the fetch prepared for the resolved archetype, and
/// the slot of the entity it reads, where it reads a single one.
pub struct PreparedSource<Q> {
    pub slot: Option<Slot>,
    pub fetch: Q,
}

/// A single slot, as a slice.
pub open spec fn single_slot(slot: Slot) -> Slice {
    Slice { start: slot, end: (slot + 1) as usize }
}

impl<'w, Q: PreparedFetch<'w>> PreparedFetch<'w> for PreparedSource<Q> {
    type Item = Q::Item;

    open spec fn spec_filter_ok(&self, slots: Slice) -> bool {
        match self.slot {
            Some(s) => s < usize::MAX && self.fetch.spec_filter_ok(single_slot(s)),
            None => self.fetch.spec_filter_ok(slots),
        }
    }

    /// With a single entity, the visited slots pass entirely where the inner fetch matches that
    /// entity, and not at all otherwise.
    open spec fn spec_filter(&self, slots: Slice) -> (Slice, PreparedSource<Q>) {
        match self.slot {
            Some(s) => {
                let (r, f2) = self.fetch.spec_filter(single_slot(s));
                (if r.spec_is_empty() {
                    end_of(slots)
                } else {
                    slots
                }, PreparedSource { slot: self.slot, fetch: f2 })
            },
            None => {
                let (r, f2) = self.fetch.spec_filter(slots);
                (r, PreparedSource { slot: None, fetch: f2 })
            },
        }
    }

    open spec fn spec_fetch_ok(&self, slot: int) -> bool {
        match self.slot {
            Some(s) => self.fetch.spec_fetch_ok(s as int),
            None => self.fetch.spec_fetch_ok(slot),
        }
    }

    open spec fn spec_fetch(&self, slot: int) -> Q::Item {
        match self.slot {
            Some(s) => self.fetch.spec_fetch(s as int),
            None => self.fetch.spec_fetch(slot),
        }
    }

    fn filter_slots(&mut self, slots: Slice) -> (r: Slice) {
        match self.slot {
            Some(s) => {
                let r = self.fetch.filter_slots(Slice::single(s));
                if r.is_empty() {
                    Slice::new(slots.end, slots.end)
                } else {
                    slots
                }
            },
            None => self.fetch.filter_slots(slots),
        }
    }

    fn fetch_shared(&self, slot: Slot) -> (r: Q::Item) {
        match self.slot {
            Some(s) => self.fetch.fetch_shared(s),
            None => self.fetch.fetch_shared(slot),
        }
    }
}

impl<'q, Q: FetchItem<'q>, S> FetchItem<'q> for Source<Q, S> {
    type Item = Q::Item;
}

impl<'w, V, Q: Fetch<'w, V>, S: FetchSource<'w, V, Q>> Fetch<'w, V> for Source<Q, S> {
    type Prepared = PreparedSource<Q::Prepared>;

    open spec fn spec_mutable(&self) -> bool {
        self.fetch.spec_mutable()
    }

    open spec fn spec_valid(&self) -> bool {
        self.fetch.spec_valid()
    }

    open spec fn spec_filter_arch(&self, data: FetchAccessData<'w, V>) -> bool {
        self.source.spec_resolve(self.fetch, data) is Some
    }

    open spec fn spec_prepare_some(&self, data: FetchPrepareData<'w, V>) -> bool {
        match self.source.spec_resolve(self.fetch, data.spec_access_data()) {
            Some(r) => self.fetch.spec_prepare_some(prepare_data(data.world, r.0, data.old_tick, data.new_tick)),
            None => false,
        }
    }

    open spec fn spec_prepared(&self, data: FetchPrepareData<'w, V>, p: PreparedSource<Q::Prepared>) -> bool {
        match self.source.spec_resolve(self.fetch, data.spec_access_data()) {
            Some(r) => p.slot == r.1 && self.fetch.spec_prepared(prepare_data(data.world, r.0, data.old_tick, data.new_tick), p.fetch),
            None => false,
        }
    }

    open spec fn spec_access(&self, data: FetchAccessData<'w, V>) -> Seq<Access> {
        match self.source.spec_resolve(self.fetch, data) {
            Some(r) => self.fetch.spec_access(access_at(data.world, r.0)),
            None => Seq::empty(),
        }
    }

    open spec fn spec_required(&self) -> Seq<ComponentKey> {
        Seq::empty()
    }

    proof fn lemma_prepared_small(&self, data: FetchPrepareData<'w, V>, p: PreparedSource<Q::Prepared>, slots: Slice) {
        let ad = data.spec_access_data();
        self.source.lemma_resolve(self.fetch, ad);
        let r = self.source.spec_resolve(self.fetch, ad)->0;
        let d2 = prepare_data(data.world, r.0, data.old_tick, data.new_tick);
        match r.1 {
            Some(s) => {
                assert(data.world.archetypes@[r.0 as int].entities.len() == data.world.archetypes@[r.0 as int].entities@.len());
                assert(small_slots(single_slot(s), d2.arch_len()));
                self.fetch.lemma_prepared_small(d2, p.fetch, single_slot(s));
            },
            None => {
                assert(d2 == data);
                self.fetch.lemma_prepared_small(data, p.fetch, slots);
            },
        }
    }

    fn mutable(&self) -> (r: bool) {
        self.fetch.mutable()
    }

    fn prepare(&'w self, data: FetchPrepareData<'w, V>) -> (r: Option<PreparedSource<Q::Prepared>>) {
        let world: &'w World<V> = data.world;
        let ad = FetchAccessData { world, arch: data.arch, arch_id: data.arch_id };
        proof {
            self.source.lemma_resolve(self.fetch, ad);
        }
        match self.source.resolve(&self.fetch, ad) {
            Some((arch_id, slot)) => {
                let arch: &'w Archetype<V> = &world.archetypes[arch_id];
                let d2 = FetchPrepareData { world, arch, arch_id, old_tick: data.old_tick, new_tick: data.new_tick };
                match self.fetch.prepare(d2) {
                    Some(f) => Some(PreparedSource { slot, fetch: f }),
                    None => None,
                }
            },
            None => None,
        }
    }

    fn filter_arch(&self, data: FetchAccessData<'w, V>) -> (r: bool) {
        self.source.resolve(&self.fetch, data).is_some()
    }

    fn access(&self, data: FetchAccessData<'w, V>, dst: &mut Vec<Access>) {
        proof {
            self.source.lemma_resolve(self.fetch, data);
        }
        match self.source.resolve(&self.fetch, data) {
            Some((arch_id, _)) => {
                let world: &'w World<V> = data.world;
                let arch: &'w Archetype<V> = &world.archetypes[arch_id];
                self.fetch.access(FetchAccessData { world, arch, arch_id }, dst);
            },
            None => {
                assert(old(dst)@ + Seq::<Access>::empty() =~= old(dst)@);
            },
        }
    }

    fn searcher(&self, searcher: &mut ArchetypeSearcher) {
        assert(old(searcher).required@ + Seq::<ComponentKey>::empty() =~= old(searcher).required@);
    }
}

} // verus!
