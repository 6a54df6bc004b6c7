use vstd::prelude::*;

use crate::archetype::{Archetype, ArchetypeId};
use crate::fetch::base::{Fetch, FetchAccessData};
use crate::fetch::prepared::PreparedFetch;
use crate::filter::iter::{collect_items, lemma_collect_ordered, spec_collect, spec_items, FilterIter, Filtered};
use crate::query::borrow::{arch_matches, prepare_data, QueryBorrowState};
use crate::query::entity::{entity_state, entity_state_ok, EntityBorrow};
use crate::entity::Entity;
use crate::world::Error;
use crate::query::searcher::{has_all_keys, ArchetypeSearcher};
use crate::slice::Slice;
use crate::world::World;

verus! {

/// Whether a planar query visits the archetype of the given id: it holds the required
/// components and matches the fetch.
pub open spec fn planar_match<'w, V, Q: Fetch<'w, V>, F: Fetch<'w, V>>(world: &'w World<V>, fetch: Filtered<Q, F>, arch_id: ArchetypeId) -> bool {
    &&& has_all_keys(world.archetypes@[arch_id as int], fetch.spec_required())
    &&& fetch.spec_filter_arch(prepare_data(world, arch_id, 0, 0).spec_access_data())
}

/// The ids are increasing, lie in the world and are exactly those of the matched archetypes.
pub open spec fn planar_ids<'w, V, Q: Fetch<'w, V>, F: Fetch<'w, V>>(world: &'w World<V>, fetch: Filtered<Q, F>, ids: Seq<ArchetypeId>) -> bool {
    &&& forall|i: int, j: int| 0 <= i < j < ids.len() ==> ids[i] < ids[j]
    &&& forall|i: int| 0 <= i < ids.len() ==> #[trigger] ids[i] < world.archetypes@.len()
    &&& forall|id: usize| id < world.archetypes@.len() ==> (ids.contains(id) <==> #[trigger] planar_match(world, fetch, id))
}

/// Finds the archetypes a planar query visits.
pub fn update_state<'w, V, Q: Fetch<'w, V>, F: Fetch<'w, V>>(world: &'w World<V>, fetch: &Filtered<Q, F>, result: &mut Vec<ArchetypeId>)
    requires
        world.wf(),
    ensures
        planar_ids(world, *fetch, final(result)@),
{
    result.clear();
    let mut searcher = ArchetypeSearcher::new();
    fetch.searcher(&mut searcher);
    assert(searcher.required@ =~= fetch.spec_required());
    let ids = searcher.find_archetypes(&world.archetypes);
    let mut i: usize = 0;
    while i < ids.len()
        invariant
            0 <= i <= ids@.len(),
            world.wf(),
            searcher.required@ == fetch.spec_required(),
            forall|a: int, b: int| 0 <= a < b < ids@.len() ==> ids@[a] < ids@[b],
            forall|a: int| 0 <= a < ids@.len() ==> #[trigger] ids@[a] < world.archetypes@.len(),
            forall|id: usize| id < world.archetypes@.len() ==> (ids@.contains(id) <==> has_all_keys(
                #[trigger] world.archetypes@[id as int],
                searcher.required@,
            )),
            forall|a: int, b: int| 0 <= a < b < result@.len() ==> result@[a] < result@[b],
            forall|a: int| 0 <= a < result@.len() ==> exists|k: int| 0 <= k < i && ids@[k] == #[trigger] result@[a],
            forall|k: int| 0 <= k < i ==> (result@.contains(#[trigger] ids@[k]) <==> planar_match(world, *fetch, ids@[k])),
        decreases ids@.len() - i,
    {
        let id = ids[i];
        let arch: &'w Archetype<V> = &world.archetypes[id];
        let ghost before = result@;
        if fetch.filter_arch(FetchAccessData { world, arch, arch_id: id }) {
            proof {
                assert(ids@.contains(id));
                assert(prepare_data(world, id, 0, 0).spec_access_data() == FetchAccessData { world, arch, arch_id: id });
            }
            result.push(id);
            proof {
                assert forall|a: int, b: int| 0 <= a < b < result@.len() implies result@[a] < result@[b] by {
                    if b == result@.len() - 1 && a < b {
                        let k = choose|k: int| 0 <= k < i && ids@[k] == #[trigger] before[a];
                        assert(ids@[k] < ids@[i as int]);
                    }
                }
                assert forall|a: int| 0 <= a < result@.len() implies exists|k: int| 0 <= k < i + 1 && ids@[k] == #[trigger] result@[a] by {
                    if a < before.len() {
                        let k = choose|k: int| 0 <= k < i && ids@[k] == #[trigger] before[a];
                        assert(ids@[k] == result@[a]);
                    } else {
                        assert(ids@[i as int] == result@[a]);
                    }
                }
                assert forall|k: int| 0 <= k < i + 1 implies (result@.contains(#[trigger] ids@[k]) <==> planar_match(world, *fetch, ids@[k])) by {
                    if k < i {
                        if result@.contains(ids@[k]) && !before.contains(ids@[k]) {
                            let c = choose|c: int| 0 <= c < result@.len() && result@[c] == ids@[k];
                            assert(c == before.len());
                            assert(ids@[k] < ids@[i as int]);
                        }
                        if before.contains(ids@[k]) {
                            let c = choose|c: int| 0 <= c < before.len() && before[c] == ids@[k];
                            assert(result@[c] == ids@[k]);
                        }
                    } else {
                        assert(result@[result@.len() - 1] == ids@[k]);
                    }
                }
            }
        } else {
            proof {
                assert(prepare_data(world, id, 0, 0).spec_access_data() == FetchAccessData { world, arch, arch_id: id });
                assert forall|k: int| 0 <= k < i + 1 implies (result@.contains(#[trigger] ids@[k]) <==> planar_match(world, *fetch, ids@[k])) by {
                    if k == i && result@.contains(ids@[k]) {
                        let c = choose|c: int| 0 <= c < result@.len() && result@[c] == ids@[k];
                        let k2 = choose|k2: int| 0 <= k2 < i && ids@[k2] == #[trigger] result@[c];
                        assert(ids@[k2] < ids@[k]);
                    }
                }
            }
        }
        i += 1;
    }
    proof {
        assert forall|a: int| 0 <= a < result@.len() implies #[trigger] result@[a] < world.archetypes@.len() by {
            let k = choose|k: int| 0 <= k < i && ids@[k] == #[trigger] result@[a];
        }
        assert forall|id: usize| id < world.archetypes@.len() implies (result@.contains(id) <==> #[trigger] planar_match(world, *fetch, id)) by {
            if result@.contains(id) {
                let c = choose|c: int| 0 <= c < result@.len() && result@[c] == id;
                let k = choose|k: int| 0 <= k < i && ids@[k] == #[trigger] result@[c];
                assert(result@.contains(ids@[k]));
            }
            if planar_match(world, *fetch, id) {
                assert(ids@.contains(id));
                let k = choose|k: int| 0 <= k < ids@.len() && ids@[k] == id;
                assert(result@.contains(ids@[k]));
            }
        }
    }
}


/// The parts joined in order.
pub open spec fn concat_parts<T>(parts: Seq<Seq<T>>) -> Seq<T>
    decreases parts.len(),
{
    if parts.len() == 0 {
        Seq::empty()
    } else {
        concat_parts(parts.drop_last()) + parts.last()
    }
}

/// All slots of an archetype.
pub open spec fn all_slots<V>(arch: Archetype<V>) -> Slice {
    Slice { start: 0, end: arch.entities@.len() as usize }
}

/// The items a planar borrow yields for one archetype: none where the archetype is empty or not
/// visited; else those of an iteration over its slots by the fetch prepared for it.
pub open spec fn arch_items_ok<'w, V, Q: Fetch<'w, V>, F: Fetch<'w, V>>(
    state: QueryBorrowState<'w, Q, F, V>,
    arch_id: ArchetypeId,
    items: Seq<<Q::Prepared as PreparedFetch<'w>>::Item>,
) -> bool {
    let data = state.data_for(arch_id);
    if data.arch.entities@.len() == 0 || !arch_matches(*state.fetch, data) {
        items.len() == 0
    } else {
        exists|p: Filtered<Q::Prepared, F::Prepared>| #[trigger] state.fetch.spec_prepared(data, p)
            && spec_items(p, all_slots(*data.arch)) == (true, items)
    }
}

/// Every fetch prepared for a listed archetype iterates over its slots to the end.
pub open spec fn planar_ok<'w, V, Q: Fetch<'w, V>, F: Fetch<'w, V>>(state: QueryBorrowState<'w, Q, F, V>, ids: Seq<ArchetypeId>) -> bool {
    forall|i: int, p: Filtered<Q::Prepared, F::Prepared>|
        0 <= i < ids.len() && #[trigger] state.fetch.spec_prepared(state.data_for(ids[i]), p) ==> spec_items(
            p,
            all_slots(state.world.archetypes@[ids[i] as int]),
        ).0
}

/// A copy of a list of archetype ids.
pub fn copy_ids(ids: &Vec<ArchetypeId>) -> (r: Vec<ArchetypeId>)
    ensures
        r@ == ids@,
{
    let mut out: Vec<ArchetypeId> = Vec::new();
    let mut i: usize = 0;
    while i < ids.len()
        invariant
            0 <= i <= ids@.len(),
            out@ == ids@.subrange(0, i as int),
        decreases ids@.len() - i,
    {
        out.push(ids[i]);
        i += 1;
    }
    assert(out@ =~= ids@);
    out
}

/// A planar query borrowed for a world: the archetypes it visits and the borrow data.
pub struct QueryBorrow<'w, Q, F, V> {
    pub archetypes: Vec<ArchetypeId>,
    pub state: QueryBorrowState<'w, Q, F, V>,
}

/// The items of a query, handed out one at a time.
pub struct QueryIter<T> {
    pub items: Vec<T>,
    pub pos: usize,
}

impl<T: Copy> QueryIter<T> {
    /// The next item.
    pub fn next(&mut self) -> (r: Option<T>)
        ensures
            final(self).items == old(self).items,
            old(self).pos < old(self).items@.len() ==> r == Some(old(self).items@[old(self).pos as int])
                && final(self).pos == old(self).pos + 1,
            old(self).pos >= old(self).items@.len() ==> r is None && final(self).pos == old(self).pos,
    {
        if self.pos < self.items.len() {
            let v = self.items[self.pos];
            self.pos = self.pos + 1;
            Some(v)
        } else {
            None
        }
    }
}

impl<'w, V, Q: Fetch<'w, V>, F: Fetch<'w, V>> QueryBorrow<'w, Q, F, V> {
    /// The borrow can be used: the world is well formed, the fetch valid and the archetypes lie
    /// in the world.
    pub open spec fn ready(&self) -> bool {
        &&& self.state.world.wf()
        &&& self.state.fetch.spec_valid()
        &&& forall|i: int| 0 <= i < self.archetypes@.len() ==> #[trigger] self.archetypes@[i] < self.state.world.archetypes@.len()
    }

    /// The items of the visited archetype `arch_id`.
    fn archetype_items(&self, arch_id: ArchetypeId) -> (r: Vec<<Q::Prepared as PreparedFetch<'w>>::Item>)
        requires
            self.ready(),
            planar_ok(self.state, self.archetypes@),
            self.archetypes@.contains(arch_id),
        ensures
            arch_items_ok(self.state, arch_id, r@),
    {
        let world: &'w World<V> = self.state.world;
        let arch: &'w Archetype<V> = &world.archetypes[arch_id];
        if arch.is_empty() {
            return Vec::new();
        }
        match self.state.prepare_fetch(arch_id) {
            Some(p) => {
                let ghost data = self.state.data_for(arch_id);
                proof {
                    let i = choose|i: int| 0 <= i < self.archetypes@.len() && self.archetypes@[i] == arch_id;
                    assert(self.state.fetch.spec_prepared(self.state.data_for(self.archetypes@[i]), p.fetch));
                }
                let slots = arch.slots();
                assert(slots == all_slots(*data.arch));
                collect_items(p.fetch, slots)
            },
            None => Vec::new(),
        }
    }

    /// Every item of the query, archetype after archetype.
    pub fn items(&mut self) -> (r: Vec<<Q::Prepared as PreparedFetch<'w>>::Item>)
        requires
            old(self).ready(),
            planar_ok(old(self).state, old(self).archetypes@),
        ensures
            *final(self) == *old(self),
            exists|parts: Seq<Seq<<Q::Prepared as PreparedFetch<'w>>::Item>>|
                parts.len() == old(self).archetypes@.len() && (forall|i: int| 0 <= i < parts.len() ==> arch_items_ok(
                    old(self).state,
                    old(self).archetypes@[i],
                    #[trigger] parts[i],
                )) && r@ == concat_parts(parts),
    {
        let mut out: Vec<<Q::Prepared as PreparedFetch<'w>>::Item> = Vec::new();
        let ghost mut parts: Seq<Seq<<Q::Prepared as PreparedFetch<'w>>::Item>> = Seq::empty();
        let mut i: usize = 0;
        while i < self.archetypes.len()
            invariant
                0 <= i <= self.archetypes@.len(),
                self.ready(),
                planar_ok(self.state, self.archetypes@),
                *self == *old(self),
                parts.len() == i,
                forall|k: int| 0 <= k < i ==> arch_items_ok(self.state, self.archetypes@[k], #[trigger] parts[k]),
                out@ == concat_parts(parts),
            decreases self.archetypes@.len() - i,
        {
            let arch_id = self.archetypes[i];
            assert(self.archetypes@[i as int] == arch_id);
            let mut items = self.archetype_items(arch_id);
            let ghost part = items@;
            proof {
                let p2 = parts.push(part);
                assert(p2.drop_last() =~= parts);
                parts = p2;
            }
            out.append(&mut items);
            i += 1;
        }
        out
    }
}



/// A batch of slots of one archetype which a query yields side by side.
pub struct Chunk<'w, V> {
    pub arch_id: ArchetypeId,
    pub arch: &'w Archetype<V>,
    pub slots: Slice,
}

impl<'w, V> Chunk<'w, V> {
    /// The archetype of the batch.
    pub fn arch(&self) -> (r: &'w Archetype<V>)
        ensures
            r == self.arch,
    {
        self.arch
    }

    /// The slots of the batch.
    pub fn slots(&self) -> (r: Slice)
        ensures
            r == self.slots,
    {
        self.slots
    }

    /// Number of slots in the batch.
    pub fn len(&self) -> (r: usize)
        requires
            self.slots.wf(),
        ensures
            r == self.slots.end - self.slots.start,
    {
        self.slots.len()
    }

    /// Whether the batch holds no slot.
    pub fn is_empty(&self) -> (r: bool)
        ensures
            r == (self.slots.end <= self.slots.start),
    {
        self.slots.is_empty()
    }
}

/// The batches of a query, handed out one at a time.
pub struct BatchedIter<'w, V> {
    pub chunks: Vec<Chunk<'w, V>>,
    pub pos: usize,
}

impl<'w, V> BatchedIter<'w, V> {
    /// The next batch.
    pub fn next(&mut self) -> (r: Option<&Chunk<'w, V>>)
        ensures
            final(self).chunks == old(self).chunks,
            old(self).pos < old(self).chunks@.len() ==> r == Some(&old(self).chunks@[old(self).pos as int])
                && final(self).pos == old(self).pos + 1,
            old(self).pos >= old(self).chunks@.len() ==> r is None && final(self).pos == old(self).pos,
    {
        if self.pos < self.chunks.len() {
            let i = self.pos;
            self.pos = self.pos + 1;
            Some(&self.chunks[i])
        } else {
            None
        }
    }
}

/// The batches a planar borrow yields for one archetype: none where the archetype is empty or
/// not visited; else those of an iteration over its slots by the fetch prepared for it.
pub open spec fn arch_batches_ok<'w, V, Q: Fetch<'w, V>, F: Fetch<'w, V>>(
    state: QueryBorrowState<'w, Q, F, V>,
    arch_id: ArchetypeId,
    batches: Seq<Slice>,
) -> bool {
    let data = state.data_for(arch_id);
    if data.arch.entities@.len() == 0 || !arch_matches(*state.fetch, data) {
        batches.len() == 0
    } else {
        exists|p: Filtered<Q::Prepared, F::Prepared>| #[trigger] state.fetch.spec_prepared(data, p)
            && spec_collect(p, all_slots(*data.arch)) == (true, batches)
    }
}

/// The archetypes of a sequence of batches.
pub open spec fn chunk_ids<'w, V>(chunks: Seq<Chunk<'w, V>>) -> Seq<ArchetypeId> {
    chunks.map_values(|c: Chunk<'w, V>| c.arch_id)
}

/// The archetype of each batch, where the batches of archetype `ids[i]` are `parts[i]`.
pub open spec fn part_ids<T>(ids: Seq<ArchetypeId>, parts: Seq<Seq<T>>) -> Seq<ArchetypeId> {
    concat_parts(Seq::new(parts.len(), |i: int| Seq::new(parts[i].len(), |j: int| ids[i])))
}

/// The slices of a sequence of batches.
pub open spec fn chunk_slots<'w, V>(chunks: Seq<Chunk<'w, V>>) -> Seq<Slice> {
    chunks.map_values(|c: Chunk<'w, V>| c.slots)
}

impl<'w, V, Q: Fetch<'w, V>, F: Fetch<'w, V>> QueryBorrow<'w, Q, F, V> {
    /// Hands out every item of the query, archetype after archetype.
    pub fn iter(&mut self) -> (r: QueryIter<<Q::Prepared as PreparedFetch<'w>>::Item>)
        requires
            old(self).ready(),
            planar_ok(old(self).state, old(self).archetypes@),
        ensures
            *final(self) == *old(self),
            r.pos == 0,
            exists|parts: Seq<Seq<<Q::Prepared as PreparedFetch<'w>>::Item>>|
                parts.len() == old(self).archetypes@.len() && (forall|i: int| 0 <= i < parts.len() ==> arch_items_ok(
                    old(self).state,
                    old(self).archetypes@[i],
                    #[trigger] parts[i],
                )) && r.items@ == concat_parts(parts),
    {
        QueryIter { items: self.items(), pos: 0 }
    }

    /// The item of the entity `id`, prepared for its archetype alone, or why the entity does not
    /// match the query: as a borrow of the query for that single entity would give it.
    pub fn get(&mut self, id: Entity) -> (r: Result<<Q::Prepared as PreparedFetch<'w>>::Item, Error>)
        requires
            old(self).state.world.wf(),
            old(self).state.fetch.spec_valid(),
        ensures
            *final(self) == *old(self),
            exists|b: EntityBorrow<'w, Q::Prepared, F::Prepared, V>|
                #[trigger] entity_state_ok(*old(self).state.fetch, old(self).state.world, id, old(self).state.old_tick, old(self).state.new_tick, b)
                && r == (match b.prepared {
                    Ok((loc, p)) => Ok::<<Q::Prepared as PreparedFetch<'w>>::Item, Error>(p.fetch.spec_fetch(loc.slot as int)),
                    Err(e) => Err::<<Q::Prepared as PreparedFetch<'w>>::Item, Error>(e),
                }),
    {
        let mut b = entity_state(id, &self.state);
        b.get()
    }

    /// The first item of the query.
    pub fn first(&mut self) -> (r: Option<<Q::Prepared as PreparedFetch<'w>>::Item>)
        requires
            old(self).ready(),
            planar_ok(old(self).state, old(self).archetypes@),
        ensures
            *final(self) == *old(self),
            exists|parts: Seq<Seq<<Q::Prepared as PreparedFetch<'w>>::Item>>|
                parts.len() == old(self).archetypes@.len() && (forall|i: int| 0 <= i < parts.len() ==> arch_items_ok(
                    old(self).state,
                    old(self).archetypes@[i],
                    #[trigger] parts[i],
                )) && r == (if concat_parts(parts).len() > 0 {
                    Some(concat_parts(parts)[0])
                } else {
                    None
                }),
    {
        let mut items = self.items();
        if items.len() > 0 {
            Some(items.remove(0))
        } else {
            None
        }
    }

    /// Number of items of the query.
    pub fn count(&mut self) -> (r: usize)
        requires
            old(self).ready(),
            planar_ok(old(self).state, old(self).archetypes@),
        ensures
            *final(self) == *old(self),
            exists|parts: Seq<Seq<<Q::Prepared as PreparedFetch<'w>>::Item>>|
                parts.len() == old(self).archetypes@.len() && (forall|i: int| 0 <= i < parts.len() ==> arch_items_ok(
                    old(self).state,
                    old(self).archetypes@[i],
                    #[trigger] parts[i],
                )) && r == concat_parts(parts).len(),
    {
        self.items().len()
    }

    /// The batches of the visited archetype `arch_id`.
    fn archetype_batches(&self, arch_id: ArchetypeId) -> (r: Vec<Chunk<'w, V>>)
        requires
            self.ready(),
            self.archetypes@.contains(arch_id),
            forall|i: int, p: Filtered<Q::Prepared, F::Prepared>|
                0 <= i < self.archetypes@.len() && #[trigger] self.state.fetch.spec_prepared(self.state.data_for(self.archetypes@[i]), p)
                    ==> spec_collect(p, all_slots(self.state.world.archetypes@[self.archetypes@[i] as int])).0,
        ensures
            arch_batches_ok(self.state, arch_id, chunk_slots(r@)),
            forall|k: int| 0 <= k < r@.len() ==> (#[trigger] r@[k]).arch_id == arch_id && *r@[k].arch == self.state.world.archetypes@[arch_id as int]
                && r@[k].slots.start <= r@[k].slots.end && r@[k].slots.end <= r@[k].arch.entities@.len(),
    {
        let world: &'w World<V> = self.state.world;
        let arch: &'w Archetype<V> = &world.archetypes[arch_id];
        if arch.is_empty() {
            let r: Vec<Chunk<'w, V>> = Vec::new();
            assert(chunk_slots(r@) =~= Seq::<Slice>::empty());
            return r;
        }
        match self.state.prepare_fetch(arch_id) {
            Some(p) => {
                let ghost data = self.state.data_for(arch_id);
                proof {
                    let i = choose|i: int| 0 <= i < self.archetypes@.len() && self.archetypes@[i] == arch_id;
                    assert(self.state.fetch.spec_prepared(self.state.data_for(self.archetypes@[i]), p.fetch));
                }
                let slots = arch.slots();
                assert(slots == all_slots(*data.arch));
                let batches = FilterIter::new(slots, p.fetch).collect_vec();
                proof {
                    lemma_collect_ordered(p.fetch, slots);
                }
                let mut out: Vec<Chunk<'w, V>> = Vec::new();
                let mut k: usize = 0;
                while k < batches.len()
                    invariant
                        0 <= k <= batches@.len(),
                        arch_id < world.archetypes@.len(),
                        *arch == world.archetypes@[arch_id as int],
                        chunk_slots(out@) == batches@.subrange(0, k as int),
                        forall|j: int| 0 <= j < batches@.len() ==> slots.contains_slice(#[trigger] batches@[j]),
                        slots == all_slots(*arch),
                        forall|j: int| 0 <= j < out@.len() ==> (#[trigger] out@[j]).arch_id == arch_id && *out@[j].arch == world.archetypes@[arch_id as int]
                            && out@[j].slots.start <= out@[j].slots.end && out@[j].slots.end <= out@[j].arch.entities@.len(),
                    decreases batches@.len() - k,
                {
                    let ghost before = out@;
                    out.push(Chunk { arch_id, arch, slots: batches[k] });
                    proof {
                        assert(chunk_slots(out@) =~= chunk_slots(before).push(batches@[k as int]));
                        assert(chunk_slots(out@) =~= batches@.subrange(0, k + 1));
                    }
                    k += 1;
                }
                assert(batches@.subrange(0, k as int) =~= batches@);
                out
            },
            None => {
                let r: Vec<Chunk<'w, V>> = Vec::new();
                assert(chunk_slots(r@) =~= Seq::<Slice>::empty());
                r
            },
        }
    }

    /// Hands out the batches of the query, archetype after archetype.
    pub fn iter_batched(&mut self) -> (r: BatchedIter<'w, V>)
        requires
            old(self).ready(),
            forall|i: int, p: Filtered<Q::Prepared, F::Prepared>|
                0 <= i < old(self).archetypes@.len() && #[trigger] old(self).state.fetch.spec_prepared(old(self).state.data_for(old(self).archetypes@[i]), p)
                    ==> spec_collect(p, all_slots(old(self).state.world.archetypes@[old(self).archetypes@[i] as int])).0,
        ensures
            *final(self) == *old(self),
            r.pos == 0,
            forall|k: int| 0 <= k < r.chunks@.len() ==> (#[trigger] r.chunks@[k]).arch_id < old(self).state.world.archetypes@.len()
                && *r.chunks@[k].arch == old(self).state.world.archetypes@[r.chunks@[k].arch_id as int]
                && r.chunks@[k].slots.start <= r.chunks@[k].slots.end && r.chunks@[k].slots.end <= r.chunks@[k].arch.entities@.len(),
            exists|parts: Seq<Seq<Slice>>|
                parts.len() == old(self).archetypes@.len() && (forall|i: int| 0 <= i < parts.len() ==> arch_batches_ok(
                    old(self).state,
                    old(self).archetypes@[i],
                    #[trigger] parts[i],
                )) && chunk_slots(r.chunks@) == concat_parts(parts)
                && chunk_ids(r.chunks@) == part_ids(old(self).archetypes@, parts),
    {
        let mut out: Vec<Chunk<'w, V>> = Vec::new();
        let ghost mut parts: Seq<Seq<Slice>> = Seq::empty();
        let ghost mut idparts: Seq<Seq<ArchetypeId>> = Seq::empty();
        let mut i: usize = 0;
        while i < self.archetypes.len()
            invariant
                0 <= i <= self.archetypes@.len(),
                self.ready(),
                *self == *old(self),
                forall|i: int, p: Filtered<Q::Prepared, F::Prepared>|
                    0 <= i < self.archetypes@.len() && #[trigger] self.state.fetch.spec_prepared(self.state.data_for(self.archetypes@[i]), p)
                        ==> spec_collect(p, all_slots(self.state.world.archetypes@[self.archetypes@[i] as int])).0,
                parts.len() == i,
                forall|k: int| 0 <= k < i ==> arch_batches_ok(self.state, self.archetypes@[k], #[trigger] parts[k]),
                chunk_slots(out@) == concat_parts(parts),
                idparts.len() == i,
                forall|k: int| 0 <= k < i ==> #[trigger] idparts[k] == Seq::new(parts[k].len(), |j: int| self.archetypes@[k]),
                chunk_ids(out@) == concat_parts(idparts),
                forall|k: int| 0 <= k < out@.len() ==> (#[trigger] out@[k]).arch_id < self.state.world.archetypes@.len()
                    && *out@[k].arch == self.state.world.archetypes@[out@[k].arch_id as int]
                    && out@[k].slots.start <= out@[k].slots.end && out@[k].slots.end <= out@[k].arch.entities@.len(),
            decreases self.archetypes@.len() - i,
        {
            let arch_id = self.archetypes[i];
            assert(self.archetypes@[i as int] == arch_id);
            let mut chunks = self.archetype_batches(arch_id);
            let ghost part = chunk_slots(chunks@);
            let ghost out0 = out@;
            let ghost idpart = chunk_ids(chunks@);
            proof {
                let p2 = parts.push(part);
                assert(p2.drop_last() =~= parts);
                parts = p2;
                assert(idpart =~= Seq::new(part.len(), |j: int| arch_id));
                let q2 = idparts.push(idpart);
                assert(q2.drop_last() =~= idparts);
                idparts = q2;
            }
            out.append(&mut chunks);
            proof {
                assert(chunk_slots(out@) =~= chunk_slots(out0) + part);
                assert(chunk_ids(out@) =~= chunk_ids(out0) + idpart);
            }
            i += 1;
        }
        proof {
            assert(idparts =~= Seq::new(parts.len(), |k: int| Seq::new(parts[k].len(), |j: int| self.archetypes@[k])));
        }
        BatchedIter { chunks: out, pos: 0 }
    }
}

} // verus!
