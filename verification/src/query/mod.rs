use vstd::prelude::*;

pub mod searcher;
pub mod difference;
pub mod borrow;
pub mod entity;
pub mod planar;
pub mod children;
pub mod one;
pub mod dfs;
pub mod dfs_borrow;
pub mod topo;

pub use borrow::{PreparedArchetype, QueryBorrowState};
pub use difference::{DifferenceIter, SetDifference};
pub use entity::EntityBorrow;
pub use one::QueryOne;
pub use dfs::Dfs;
pub use dfs_borrow::DfsBorrow;
pub use topo::{Topo, TopoState};
pub use searcher::ArchetypeSearcher;

use crate::archetype::ArchetypeId;
use crate::entity::Entity;
use crate::fetch::base::Fetch;
use crate::filter::constant::{All, BatchSize};
use crate::filter::iter::Filtered;
use crate::filter::set::And;
use crate::filter::with::{With, WithRelation, Without, WithoutRelation};
use crate::fetch::prepared::PreparedFetch;
use crate::query::entity::{entity_state, entity_state_ok};
use crate::query::planar::{all_slots, arch_items_ok, concat_parts, copy_ids, planar_ids, update_state, QueryBorrow};
use crate::filter::iter::spec_items;
use crate::slice::Slot;
use crate::world::{ticked, ComponentDesc, World};
use crate::hierarchy;
use crate::hierarchy::dfs::DfsError;
use crate::query::children::children_limit;

verus! {

/// Iterates the matched archetypes one after the other; remembers which archetypes match.
#[derive(Debug, Clone)]
pub struct Planar {
    pub archetypes: Vec<ArchetypeId>,
}

impl Planar {
    /// A strategy which has not searched the archetypes yet.
    pub fn new() -> (r: Planar)
        ensures
            r.archetypes@.len() == 0,
    {
        Planar { archetypes: Vec::new() }
    }
}

/// A query: a fetch, a filter, the tick of its previous run and how it visits the entities.
#[derive(Debug, Clone)]
pub struct Query<Q, F, S> {
    pub fetch: Filtered<Q, F>,
    pub change_tick: u32,
    pub archetype_gen: u32,
    pub strategy: S,
}

/// The tick from which a query run looks for changes: that of its previous run, or 0 where the
/// world's tick went back.
pub open spec fn spec_old_tick(change_tick: u32, new_tick: u32) -> u32 {
    if new_tick < change_tick {
        0
    } else {
        change_tick
    }
}

impl<Q> Query<Q, All, Planar> {
    /// A query which yields the items of `fetch` for every entity it matches.
    pub fn new(fetch: Q) -> (r: Query<Q, All, Planar>)
        ensures
            r.fetch.fetch == fetch,
            r.fetch.filter == All,
            !r.fetch.include_components,
            r.change_tick == 0,
            r.archetype_gen == 0,
            r.strategy.archetypes@.len() == 0,
    {
        Query { fetch: Filtered::new(fetch, All, false), change_tick: 0, strategy: Planar::new(), archetype_gen: 0 }
    }

    /// Also visits the entities that describe components.
    pub fn with_components(self) -> (r: Query<Q, All, Planar>)
        ensures
            r.fetch.fetch == self.fetch.fetch,
            r.fetch.filter == self.fetch.filter,
            r.fetch.include_components,
            r.change_tick == self.change_tick,
            r.archetype_gen == 0,
            r.strategy == self.strategy,
    {
        let mut s = self;
        s.fetch.include_components = true;
        s.archetype_gen = 0;
        s
    }
}

impl<Q, F> Query<Q, F, Planar> {
    /// Replaces the strategy.
    pub fn with_strategy<S>(self, strategy: S) -> (r: Query<Q, F, S>)
        ensures
            r.fetch == self.fetch,
            r.change_tick == self.change_tick,
            r.archetype_gen == 0,
            r.strategy == strategy,
    {
        Query { fetch: self.fetch, change_tick: self.change_tick, archetype_gen: 0, strategy }
    }

    /// Turns the query into one for the single entity `id`.
    pub fn entity(self, id: Entity) -> (r: Query<Q, F, Entity>)
        ensures
            r.fetch == self.fetch,
            r.change_tick == self.change_tick,
            r.archetype_gen == 0,
            r.strategy == id,
    {
        self.with_strategy(id)
    }
}

impl<Q, F, S> Query<Q, F, S> {
    /// Adds a filter, and-ed with the present ones.
    pub fn filter<G>(self, filter: G) -> (r: Query<Q, And<F, G>, S>)
        ensures
            r.fetch.fetch == self.fetch.fetch,
            r.fetch.filter == And(self.fetch.filter, filter),
            r.fetch.include_components == self.fetch.include_components,
            r.change_tick == self.change_tick,
            r.archetype_gen == 0,
            r.strategy == self.strategy,
    {
        Query {
            fetch: Filtered::new(self.fetch.fetch, And::new(self.fetch.filter, filter), self.fetch.include_components),
            change_tick: self.change_tick,
            archetype_gen: 0,
            strategy: self.strategy,
        }
    }

    /// Limits the number of slots of each batch; a size of zero would never yield.
    pub fn batch_size(self, size: Slot) -> (r: Query<Q, And<F, BatchSize>, S>)
        requires
            size > 0,
        ensures
            r.fetch.fetch == self.fetch.fetch,
            r.fetch.filter == And(self.fetch.filter, BatchSize(size)),
            r.fetch.include_components == self.fetch.include_components,
            r.change_tick == self.change_tick,
            r.archetype_gen == 0,
            r.strategy == self.strategy,
    {
        self.filter(BatchSize(size))
    }

    /// Only visits the entities with a relation of the given kind.
    pub fn with_relation(self, relation: Entity, name: String) -> (r: Query<Q, And<F, WithRelation>, S>)
        ensures
            r.fetch.fetch == self.fetch.fetch,
            r.fetch.filter == And(self.fetch.filter, WithRelation { relation, name }),
            r.fetch.include_components == self.fetch.include_components,
            r.change_tick == self.change_tick,
            r.archetype_gen == 0,
            r.strategy == self.strategy,
    {
        self.filter(WithRelation { relation, name })
    }

    /// Only visits the entities without a relation of the given kind.
    pub fn without_relation(self, relation: Entity, name: String) -> (r: Query<Q, And<F, WithoutRelation>, S>)
        ensures
            r.fetch.fetch == self.fetch.fetch,
            r.fetch.filter == And(self.fetch.filter, WithoutRelation { relation, name }),
            r.fetch.include_components == self.fetch.include_components,
            r.change_tick == self.change_tick,
            r.archetype_gen == 0,
            r.strategy == self.strategy,
    {
        self.filter(WithoutRelation { relation, name })
    }

    /// Only visits the entities without the component.
    pub fn without(self, component: &ComponentDesc) -> (r: Query<Q, And<F, Without>, S>)
        ensures
            r.fetch.fetch == self.fetch.fetch,
            r.fetch.filter == And(self.fetch.filter, Without { component: component.key, name: component.name }),
            r.fetch.include_components == self.fetch.include_components,
            r.change_tick == self.change_tick,
            r.archetype_gen == 0,
            r.strategy == self.strategy,
    {
        self.filter(Without { component: component.key, name: component.name.clone() })
    }

    /// Only visits the entities with the component.
    pub fn with(self, component: &ComponentDesc) -> (r: Query<Q, And<F, With>, S>)
        ensures
            r.fetch.fetch == self.fetch.fetch,
            r.fetch.filter == And(self.fetch.filter, With { component: component.key, name: component.name }),
            r.fetch.include_components == self.fetch.include_components,
            r.change_tick == self.change_tick,
            r.archetype_gen == 0,
            r.strategy == self.strategy,
    {
        self.filter(With { component: component.key, name: component.name.clone() })
    }

    /// Moves the query to the world's tick, returning the tick of the previous run (0 where the
    /// world's tick went back) and the new one. A query that writes first advances the world's
    /// tick by one, so its writes are newer than every change before.
    fn prepare_tick<V>(&mut self, world: &mut World<V>, mutable: bool) -> (r: (u32, u32))
        requires
            mutable ==> old(world).change_tick < u32::MAX,
        ensures
            *final(world) == ticked(*old(world), mutable),
            r.1 == final(world).change_tick,
            r.0 == spec_old_tick(old(self).change_tick, final(world).change_tick),
            final(self).change_tick == final(world).change_tick,
            final(self).fetch == old(self).fetch,
            final(self).strategy == old(self).strategy,
            final(self).archetype_gen == old(self).archetype_gen,
    {
        if mutable {
            world.advance_change_tick();
        }
        let mut old_tick = self.change_tick;
        let new_tick = world.change_tick();
        if new_tick < old_tick {
            old_tick = 0;
        }
        self.change_tick = new_tick;
        (old_tick, new_tick)
    }
}

impl<Q, F> Query<Q, F, Entity> {
    /// Borrows the world for the query of a single entity, preparing the fetch for its
    /// archetype. A query that writes advances the world's change tick first.
    pub fn borrow<'w, V>(&'w mut self, world: &'w mut World<V>) -> (r: EntityBorrow<'w, Q::Prepared, F::Prepared, V>) where
        Q: Fetch<'w, V>,
        F: Fetch<'w, V>,
        requires
            old(world).wf(),
            old(self).fetch.spec_valid(),
            old(self).fetch.spec_mutable() ==> old(world).change_tick < u32::MAX,
        ensures
            *final(world) == ticked(*old(world), old(self).fetch.spec_mutable()),
            final(self).change_tick == final(world).change_tick,
            final(self).archetype_gen == final(world).archetype_gen,
            final(self).fetch == old(self).fetch,
            final(self).strategy == old(self).strategy,
            entity_state_ok(
                old(self).fetch,
                final(world),
                old(self).strategy,
                spec_old_tick(old(self).change_tick, final(world).change_tick),
                final(world).change_tick,
                r,
            ),
            r.ready(),
    {
        let mutable = self.fetch.mutable();
        let (old_tick, new_tick) = self.prepare_tick(world, mutable);
        let world: &'w World<V> = world;
        self.archetype_gen = world.archetype_gen();
        let this: &'w Query<Q, F, Entity> = self;
        let state = QueryBorrowState { old_tick, new_tick, world, fetch: &this.fetch };
        entity_state(this.strategy, &state)
    }
}


/// Every fetch prepared for an archetype of the world iterates over its slots to the end.
pub open spec fn world_iterable<'w, V, Q: Fetch<'w, V>, F: Fetch<'w, V>>(
    world: &'w World<V>,
    fetch: Filtered<Q, F>,
    old_tick: u32,
    new_tick: u32,
) -> bool {
    forall|id: usize, p: Filtered<Q::Prepared, F::Prepared>|
        id < world.archetypes@.len() && #[trigger] fetch.spec_prepared(borrow::prepare_data(world, id, old_tick, new_tick), p)
            ==> spec_items(p, all_slots(world.archetypes@[id as int])).0
}

impl<Q, F> Query<Q, F, Planar> {
    /// Borrows the world for the query, searching the archetypes anew where the world has
    /// created archetypes since the query last ran.
    pub fn borrow<'w, V>(&'w mut self, world: &'w mut World<V>) -> (r: QueryBorrow<'w, Q, F, V>) where
        Q: Fetch<'w, V>,
        F: Fetch<'w, V>,
        requires
            old(self).fetch.spec_mutable() ==> old(world).change_tick < u32::MAX,
            old(world).wf(),
            old(self).fetch.spec_valid(),
            old(world).archetype_gen <= old(self).archetype_gen ==> forall|i: int|
                0 <= i < old(self).strategy.archetypes@.len() ==> #[trigger] old(self).strategy.archetypes@[i]
                    < old(world).archetypes@.len(),
        ensures
            *final(world) == ticked(*old(world), old(self).fetch.spec_mutable()),
            final(self).change_tick == final(world).change_tick,
            final(self).archetype_gen == final(world).archetype_gen,
            final(self).fetch == old(self).fetch,
            final(world).archetype_gen > old(self).archetype_gen ==> planar_ids(final(world), old(self).fetch, final(self).strategy.archetypes@),
            final(world).archetype_gen <= old(self).archetype_gen ==> final(self).strategy.archetypes@ == old(self).strategy.archetypes@,
            r.archetypes@ == final(self).strategy.archetypes@,
            *r.state.world == *final(world),
            *r.state.fetch == old(self).fetch,
            r.state.old_tick == spec_old_tick(old(self).change_tick, final(world).change_tick),
            r.state.new_tick == final(world).change_tick,
            forall|i: int| 0 <= i < r.archetypes@.len() ==> #[trigger] r.archetypes@[i] < final(world).archetypes@.len(),
    {
        let mutable = self.fetch.mutable();
        let (old_tick, new_tick) = self.prepare_tick(world, mutable);
        let world: &'w World<V> = world;
        let gen = world.archetype_gen();
        if gen > self.archetype_gen {
            update_state(world, &self.fetch, &mut self.strategy.archetypes);
        }
        self.archetype_gen = gen;
        let this: &'w Query<Q, F, Planar> = self;
        QueryBorrow {
            archetypes: copy_ids(&this.strategy.archetypes),
            state: QueryBorrowState { old_tick, new_tick, world, fetch: &this.fetch },
        }
    }

    /// Collects the items of every entity the query visits, archetype after archetype.
    pub fn collect_vec<'w, V>(&'w mut self, world: &'w mut World<V>) -> (r: Vec<<Q::Prepared as PreparedFetch<'w>>::Item>) where
        Q: Fetch<'w, V>,
        F: Fetch<'w, V>,
        requires
            old(self).fetch.spec_mutable() ==> old(world).change_tick < u32::MAX,
            old(world).wf(),
            old(self).fetch.spec_valid(),
            old(world).archetype_gen <= old(self).archetype_gen ==> forall|i: int|
                0 <= i < old(self).strategy.archetypes@.len() ==> #[trigger] old(self).strategy.archetypes@[i]
                    < old(world).archetypes@.len(),
            world_iterable(&ticked(*old(world), old(self).fetch.spec_mutable()), old(self).fetch, spec_old_tick(old(self).change_tick, ticked(*old(world), old(self).fetch.spec_mutable()).change_tick), ticked(*old(world), old(self).fetch.spec_mutable()).change_tick),
        ensures
            *final(world) == ticked(*old(world), old(self).fetch.spec_mutable()),
            final(self).change_tick == final(world).change_tick,
            final(self).archetype_gen == final(world).archetype_gen,
            final(self).fetch == old(self).fetch,
            final(world).archetype_gen > old(self).archetype_gen ==> planar_ids(final(world), old(self).fetch, final(self).strategy.archetypes@),
            final(world).archetype_gen <= old(self).archetype_gen ==> final(self).strategy.archetypes@ == old(self).strategy.archetypes@,
            exists|parts: Seq<Seq<<Q::Prepared as PreparedFetch<'w>>::Item>>|
                parts.len() == final(self).strategy.archetypes@.len() && (forall|i: int| 0 <= i < parts.len() ==> arch_items_ok(
                    QueryBorrowState {
                        old_tick: spec_old_tick(old(self).change_tick, final(world).change_tick),
                        new_tick: final(world).change_tick,
                        world: final(world),
                        fetch: &old(self).fetch,
                    },
                    final(self).strategy.archetypes@[i],
                    #[trigger] parts[i],
                )) && r@ == concat_parts(parts),
    {
        let mut b = self.borrow(world);
        proof {
            assert forall|i: int, p: Filtered<Q::Prepared, F::Prepared>|
                0 <= i < b.archetypes@.len() && #[trigger] b.state.fetch.spec_prepared(b.state.data_for(b.archetypes@[i]), p)
                implies spec_items(p, all_slots(b.state.world.archetypes@[b.archetypes@[i] as int])).0 by {
                let id = b.archetypes@[i];
                assert(old(self).fetch.spec_prepared(borrow::prepare_data(b.state.world, id, b.state.old_tick, b.state.new_tick), p));
            }
        }
        proof {
            assert(crate::query::planar::planar_ok(b.state, b.archetypes@));
        }
        b.items()
    }
}

impl<Q, F> Query<Q, F, hierarchy::Dfs> {
    /// Borrows the world for a depth-first traversal from the strategy's root, recording the
    /// hierarchy anew where the world has created archetypes since the query last ran.
    ///
    /// Fails where the root does not exist, where the relation does not form a tree over the
    /// archetypes, where the root's archetype is not one of the recorded hierarchy, or where the
    /// query cannot be prepared for an archetype of the hierarchy. Where the hierarchy cannot be
    /// recorded, the query records it again at its next borrow.
    pub fn borrow<'w, V>(&'w mut self, world: &'w mut World<V>) -> (r: Result<hierarchy::DfsBorrow<'w, Q::Prepared, F::Prepared, V>, DfsError>) where
        Q: Fetch<'w, V>,
        F: Fetch<'w, V>,
        requires
            old(self).fetch.spec_mutable() ==> old(world).change_tick < u32::MAX,
            old(world).wf(),
            old(self).fetch.spec_valid(),
            old(world).archetype_gen <= old(self).archetype_gen ==> old(self).strategy.state.index_ok() && old(self).strategy.state.in_world(old(world)),
            world_iterable(&ticked(*old(world), old(self).fetch.spec_mutable()), old(self).fetch, spec_old_tick(old(self).change_tick, ticked(*old(world), old(self).fetch.spec_mutable()).change_tick), ticked(*old(world), old(self).fetch.spec_mutable()).change_tick),
        ensures
            *final(world) == ticked(*old(world), old(self).fetch.spec_mutable()),
            final(self).change_tick == final(world).change_tick,
            final(self).fetch == old(self).fetch,
            final(self).strategy.root == old(self).strategy.root,
            final(self).strategy.relation == old(self).strategy.relation,
            !final(world).alive(old(self).strategy.root) ==> r == Err::<hierarchy::DfsBorrow<'w, Q::Prepared, F::Prepared, V>, DfsError>(DfsError::NoSuchEntity(old(self).strategy.root)),
            final(world).archetype_gen <= old(self).archetype_gen ==> final(self).strategy.state == old(self).strategy.state
                && final(self).archetype_gen == old(self).archetype_gen,
            final(world).archetype_gen > old(self).archetype_gen ==> (r is Ok <==> {
                &&& hierarchy::dfs::hierarchy_ok(&*final(world), old(self).fetch, old(self).strategy.relation, old(self).strategy.root)
                &&& forall|i: int| 0 <= i < final(self).strategy.state.archetypes@.len() ==> borrow::arch_matches(old(self).fetch,
                    borrow::prepare_data(&*final(world), #[trigger] final(self).strategy.state.archetypes@[i], spec_old_tick(old(self).change_tick, final(world).change_tick), final(world).change_tick))
            }),
            final(world).archetype_gen <= old(self).archetype_gen ==> (r is Ok <==> {
                &&& final(world).alive(old(self).strategy.root)
                &&& old(self).strategy.state.archetypes_index@.contains_key(final(world).loc_of(old(self).strategy.root).arch_id)
                &&& forall|i: int| 0 <= i < old(self).strategy.state.archetypes@.len() ==> borrow::arch_matches(old(self).fetch,
                    borrow::prepare_data(&*final(world), #[trigger] old(self).strategy.state.archetypes@[i], spec_old_tick(old(self).change_tick, final(world).change_tick), final(world).change_tick))
            }),
            final(world).archetype_gen > old(self).archetype_gen && r is Ok ==> {
                &&& hierarchy::dfs::hierarchy_search(&*final(world), old(self).fetch, old(self).strategy.relation, old(self).strategy.root)
                    == Some((final(self).strategy.state.archetypes_index@.dom(), final(self).strategy.state.adj@.dom()))
                &&& final(self).archetype_gen == final(world).archetype_gen
                &&& final(self).strategy.state.adj_ok(final(world), old(self).fetch, old(self).strategy.relation)
                &&& final(self).strategy.state.archetypes@[0] == final(world).loc_of(old(self).strategy.root).arch_id
            },
            r matches Ok(b) ==> {
                &&& b.ready()
                &&& final(self).strategy.state.index_ok()
                &&& final(self).strategy.state.in_world(final(world))
                &&& b.adj == &final(self).strategy.state.adj
                &&& b.root_index == final(self).strategy.state.archetypes_index@[final(world).loc_of(old(self).strategy.root).arch_id]
                &&& b.root_slot == final(world).loc_of(old(self).strategy.root).slot
                &&& b.prepared@.len() == final(self).strategy.state.archetypes@.len()
                &&& forall|i: int| 0 <= i < b.prepared@.len() ==> ((#[trigger] b.prepared@[i]) matches Some(p)
                    && p.arch_id == final(self).strategy.state.archetypes@[i]
                    && *p.arch == final(world).archetypes@[p.arch_id as int]
                    && old(self).fetch.spec_prepared(
                        borrow::prepare_data(final(world), p.arch_id, spec_old_tick(old(self).change_tick, final(world).change_tick), final(world).change_tick),
                        p.fetch,
                    ))
            },
    {
        let mutable = self.fetch.mutable();
        let (old_tick, new_tick) = self.prepare_tick(world, mutable);
        let world: &'w World<V> = world;
        let gen = world.archetype_gen();
        if gen > self.archetype_gen {
            let relation = self.strategy.relation;
            let root = self.strategy.root;
            match hierarchy::Dfs::update_state(relation, root, &mut self.strategy.state, world, &self.fetch) {
                Ok(()) => {},
                Err(e) => {
                    return Err(e);
                },
            }
            self.archetype_gen = gen;
        }
        let this: &'w Query<Q, F, hierarchy::Dfs> = self;
        let state = QueryBorrowState { old_tick, new_tick, world, fetch: &this.fetch };
        hierarchy::DfsBorrow::new(state, &this.strategy)
    }
}

impl<Q, F> Query<Q, F, Dfs> {
    /// Borrows the world for a depth-first traversal of all hierarchies of the strategy's
    /// relation, recording them anew where the world has created archetypes since the query last
    /// ran.
    ///
    /// Fails where the query cannot be prepared for an archetype the traversal visits.
    pub fn borrow<'w, V>(&'w mut self, world: &'w mut World<V>) -> (r: Result<DfsBorrow<'w, Q::Prepared, F::Prepared, V>, DfsError>) where
        Q: Fetch<'w, V>,
        F: Fetch<'w, V>,
        requires
            old(self).fetch.spec_mutable() ==> old(world).change_tick < u32::MAX,
            old(world).wf(),
            old(world).archetypes@.len() <= children_limit(),
            old(self).fetch.spec_valid(),
            old(world).archetype_gen <= old(self).archetype_gen ==> old(self).strategy.state.records(&ticked(*old(world), old(self).fetch.spec_mutable()), old(self).strategy.relation)
                && forall|i: int| 0 <= i < old(self).strategy.state.archetypes@.len() ==> #[trigger] old(self).strategy.state.archetypes@[i] < old(world).archetypes@.len(),
            world_iterable(&ticked(*old(world), old(self).fetch.spec_mutable()), old(self).fetch, spec_old_tick(old(self).change_tick, ticked(*old(world), old(self).fetch.spec_mutable()).change_tick), ticked(*old(world), old(self).fetch.spec_mutable()).change_tick),
        ensures
            *final(world) == ticked(*old(world), old(self).fetch.spec_mutable()),
            final(self).change_tick == final(world).change_tick,
            final(self).archetype_gen == final(world).archetype_gen,
            final(self).fetch == old(self).fetch,
            final(self).strategy.relation == old(self).strategy.relation,
            final(world).archetype_gen <= old(self).archetype_gen ==> final(self).strategy.state == old(self).strategy.state,
            final(world).archetype_gen > old(self).archetype_gen ==> final(self).strategy.state.forest_ok(final(world), old(self).fetch, old(self).strategy.relation),
            r is Ok <==> forall|i: int| 0 <= i < final(self).strategy.state.archetypes@.len() ==> borrow::arch_matches(
                old(self).fetch,
                borrow::prepare_data(final(world), #[trigger] final(self).strategy.state.archetypes@[i], spec_old_tick(old(self).change_tick, final(world).change_tick), final(world).change_tick),
            ),
            r matches Ok(b) ==> {
                &&& b.ready()
                &&& b.edges == &final(self).strategy.state.edges
                &&& b.roots == &final(self).strategy.state.roots
                &&& b.archetypes_index == &final(self).strategy.state.archetypes_index
                &&& *b.world == *final(world)
                &&& b.prepared@.len() == final(self).strategy.state.archetypes@.len()
                &&& forall|i: int| 0 <= i < b.prepared@.len() ==> ((#[trigger] b.prepared@[i]) matches Some(p)
                    && p.arch_id == final(self).strategy.state.archetypes@[i]
                    && *p.arch == final(world).archetypes@[p.arch_id as int]
                    && old(self).fetch.spec_prepared(
                        borrow::prepare_data(final(world), p.arch_id, spec_old_tick(old(self).change_tick, final(world).change_tick), final(world).change_tick),
                        p.fetch,
                    ))
            },
    {
        let mutable = self.fetch.mutable();
        let (old_tick, new_tick) = self.prepare_tick(world, mutable);
        let world: &'w World<V> = world;
        let gen = world.archetype_gen();
        if gen > self.archetype_gen {
            let relation = self.strategy.relation;
            dfs::update_forest(&mut self.strategy.state, world, relation, &self.fetch);
            proof {
                dfs::lemma_visited_bounded(world, self.fetch, world.archetypes@.len());
            }
        }
        self.archetype_gen = gen;
        let this: &'w Query<Q, F, Dfs> = self;
        let state = QueryBorrowState { old_tick, new_tick, world, fetch: &this.fetch };
        DfsBorrow::new(state, &this.strategy)
    }
}

/// A borrow for a topological traversal: the archetypes in topological order.
pub type TopoBorrow<'w, Q, F, V> = QueryBorrow<'w, Q, F, V>;

/// The iterator of a topological traversal: the items of the archetypes in topological order.
pub type TopoIter<T> = crate::query::planar::QueryIter<T>;

impl<Q, F> Query<Q, F, Topo> {
    /// Borrows the world for a topological traversal, ordering the archetypes anew where the
    /// world has created archetypes since the query last ran.
    pub fn borrow<'w, V>(&'w mut self, world: &'w mut World<V>) -> (r: TopoBorrow<'w, Q, F, V>) where
        Q: Fetch<'w, V>,
        F: Fetch<'w, V>,
        requires
            old(self).fetch.spec_mutable() ==> old(world).change_tick < u32::MAX,
            old(world).wf(),
            old(self).fetch.spec_valid(),
            old(world).archetype_gen <= old(self).archetype_gen ==> old(self).strategy.state.ready(old(world)),
        ensures
            *final(world) == ticked(*old(world), old(self).fetch.spec_mutable()),
            final(self).change_tick == final(world).change_tick,
            final(self).archetype_gen == final(world).archetype_gen,
            final(self).fetch == old(self).fetch,
            final(self).strategy.relation == old(self).strategy.relation,
            final(self).strategy.state.ready(final(world)),
            final(world).archetype_gen <= old(self).archetype_gen ==> final(self).strategy.state == old(self).strategy.state,
            final(world).archetype_gen > old(self).archetype_gen ==> {
                &&& planar_ids(final(world), old(self).fetch, final(self).strategy.state.archetypes@)
                &&& final(self).strategy.state.order@ == topo::topo_deps(
                    topo::recorded_deps(final(world), old(self).strategy.relation, final(self).strategy.state.archetypes@),
                    final(self).strategy.state.archetypes_index@,
                    Set::empty(),
                    Seq::empty(),
                    final(self).strategy.state.archetypes@,
                    final(world).archetypes@.len(),
                ).1
            },
            r.archetypes@ == final(self).strategy.state.order@.map_values(|i: usize| final(self).strategy.state.archetypes@[i as int]),
            *r.state.world == *final(world),
            *r.state.fetch == old(self).fetch,
            r.state.old_tick == spec_old_tick(old(self).change_tick, final(world).change_tick),
            r.state.new_tick == final(world).change_tick,
            forall|i: int| 0 <= i < r.archetypes@.len() ==> #[trigger] r.archetypes@[i] < final(world).archetypes@.len(),
    {
        let mutable = self.fetch.mutable();
        let (old_tick, new_tick) = self.prepare_tick(world, mutable);
        let world: &'w World<V> = world;
        let gen = world.archetype_gen();
        if gen > self.archetype_gen {
            let relation = self.strategy.relation;
            self.strategy.state.update(relation, world, &self.fetch);
        }
        self.archetype_gen = gen;
        let this: &'w Query<Q, F, Topo> = self;
        QueryBorrow {
            archetypes: this.strategy.state.ordered_ids(world),
            state: QueryBorrowState { old_tick, new_tick, world, fetch: &this.fetch },
        }
    }
}

} // verus!
