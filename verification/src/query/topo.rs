use vstd::prelude::*;

use std::collections::{BTreeMap, BTreeSet};

use crate::archetype::{relation_keys, Archetype, ArchetypeId};
use crate::entity::{ComponentKey, Entity};
use crate::fetch::base::{Fetch, FetchAccessData};
use crate::filter::iter::Filtered;
use crate::query::borrow::prepare_data;
use crate::query::planar::planar_match;
use crate::query::searcher::ArchetypeSearcher;
use crate::world::World;

verus! {

broadcast use {vstd::std_specs::btree::group_btree_axioms, vstd::laws_cmp::group_laws_cmp};

/// The archetypes an archetype depends on: those of the targets of its relations of the given
/// kind, in order, where the target exists.
pub open spec fn arch_deps<V>(world: &World<V>, relation: Entity, arch_id: ArchetypeId) -> Seq<usize> {
    target_archetypes(world, relation_keys(world.archetypes@[arch_id as int].components@, relation))
}

/// The archetypes of the existing targets of `rels`, in order.
pub open spec fn target_archetypes<V>(world: &World<V>, rels: Seq<ComponentKey>) -> Seq<usize>
    decreases rels.len(),
{
    if rels.len() == 0 {
        Seq::empty()
    } else {
        let rest = target_archetypes(world, rels.drop_last());
        let k = rels.last();
        if k.target is Some && world.alive(k.target->0) {
            rest.push(world.loc_of(k.target->0).arch_id)
        } else {
            rest
        }
    }
}

/// The dependencies recorded for `a`; none where it has no entry.
pub open spec fn deps_of(deps: Map<usize, Seq<usize>>, a: usize) -> Seq<usize> {
    if deps.contains_key(a) {
        deps[a]
    } else {
        Seq::empty()
    }
}

/// A depth-first visit of `a` for a topological order: unless it was visited, it is marked
/// visited, its dependencies are visited in order, and then its position (where it has one) is
/// appended to the order. The visit goes at most `fuel` levels deep.
pub open spec fn topo_visit(
    deps: Map<usize, Seq<usize>>,
    index: Map<usize, usize>,
    visited: Set<usize>,
    order: Seq<usize>,
    a: usize,
    fuel: nat,
) -> (Set<usize>, Seq<usize>)
    decreases fuel, 0nat, 0nat,
{
    if visited.contains(a) || fuel == 0 {
        (visited, order)
    } else {
        let r = topo_deps(deps, index, visited.insert(a), order, deps_of(deps, a), (fuel - 1) as nat);
        (r.0, if index.contains_key(a) {
            r.1.push(index[a])
        } else {
            r.1
        })
    }
}

/// Visits each of `ds` in order. See [`topo_visit`].
pub open spec fn topo_deps(
    deps: Map<usize, Seq<usize>>,
    index: Map<usize, usize>,
    visited: Set<usize>,
    order: Seq<usize>,
    ds: Seq<usize>,
    fuel: nat,
) -> (Set<usize>, Seq<usize>)
    decreases fuel, 1nat, ds.len(),
{
    if ds.len() == 0 {
        (visited, order)
    } else {
        let r = topo_visit(deps, index, visited, order, ds[0], fuel);
        topo_deps(deps, index, r.0, r.1, ds.drop_first(), fuel)
    }
}

/// `x` is a position the index holds.
pub open spec fn index_value(index: Map<usize, usize>, x: usize) -> bool {
    exists|b: usize| index.contains_key(b) && index[b] == x
}

/// `r` is `order` with positions the index holds appended.
pub open spec fn appends_indices(index: Map<usize, usize>, order: Seq<usize>, r: Seq<usize>) -> bool {
    &&& order.len() <= r.len()
    &&& forall|k: int| 0 <= k < order.len() ==> r[k] == order[k]
    &&& forall|k: int| order.len() <= k < r.len() ==> index_value(index, #[trigger] r[k])
}

proof fn lemma_appends_trans(index: Map<usize, usize>, a: Seq<usize>, b: Seq<usize>, c: Seq<usize>)
    requires
        appends_indices(index, a, b),
        appends_indices(index, b, c),
    ensures
        appends_indices(index, a, c),
{
    assert forall|k: int| a.len() <= k < c.len() implies index_value(index, #[trigger] c[k]) by {
        if k < b.len() {
            assert(c[k] == b[k]);
        }
    }
}

/// A visit only appends positions the index holds.
pub proof fn lemma_visit_appends(deps: Map<usize, Seq<usize>>, index: Map<usize, usize>, visited: Set<usize>, order: Seq<usize>, a: usize, fuel: nat)
    ensures
        appends_indices(index, order, topo_visit(deps, index, visited, order, a, fuel).1),
    decreases fuel, 0nat, 0nat,
{
    if !(visited.contains(a) || fuel == 0) {
        let r = topo_deps(deps, index, visited.insert(a), order, deps_of(deps, a), (fuel - 1) as nat);
        lemma_deps_appends(deps, index, visited.insert(a), order, deps_of(deps, a), (fuel - 1) as nat);
        let out = topo_visit(deps, index, visited, order, a, fuel).1;
        if index.contains_key(a) {
            assert(out == r.1.push(index[a]));
            assert(index_value(index, index[a]));
            assert(appends_indices(index, r.1, out)) by {
                assert(out[r.1.len() as int] == index[a]);
            }
            lemma_appends_trans(index, order, r.1, out);
        }
    } else {
        assert(appends_indices(index, order, order));
    }
}

/// Visits of several archetypes only append positions the index holds.
pub proof fn lemma_deps_appends(deps: Map<usize, Seq<usize>>, index: Map<usize, usize>, visited: Set<usize>, order: Seq<usize>, ds: Seq<usize>, fuel: nat)
    ensures
        appends_indices(index, order, topo_deps(deps, index, visited, order, ds, fuel).1),
    decreases fuel, 1nat, ds.len(),
{
    if ds.len() > 0 {
        let r = topo_visit(deps, index, visited, order, ds[0], fuel);
        lemma_visit_appends(deps, index, visited, order, ds[0], fuel);
        lemma_deps_appends(deps, index, r.0, r.1, ds.drop_first(), fuel);
        lemma_appends_trans(index, order, r.1, topo_deps(deps, index, visited, order, ds, fuel).1);
    } else {
        assert(appends_indices(index, order, order));
    }
}

/// Visits `arch_id` for a topological order. See [`topo_visit`].
fn sort(
    order: &mut Vec<usize>,
    visited: &mut BTreeSet<usize>,
    index: &BTreeMap<usize, usize>,
    deps: &BTreeMap<usize, Vec<usize>>,
    arch_id: ArchetypeId,
    fuel: usize,
)
    ensures
        ({
            let r = topo_visit(deps@.map_values(|v: Vec<usize>| v@), index@, old(visited)@, old(order)@, arch_id, fuel as nat);
            final(visited)@ == r.0 && final(order)@ == r.1
        }),
    decreases fuel, 0nat, 0nat,
{
    let ghost dm = deps@.map_values(|v: Vec<usize>| v@);
    if fuel == 0 {
        return;
    }
    if !visited.insert(arch_id) {
        return;
    }
    match deps.get(&arch_id) {
        Some(ds) => {
            assert(deps_of(dm, arch_id) == ds@);
            sort_all(order, visited, index, deps, ds, fuel - 1);
        },
        None => {
            assert(deps_of(dm, arch_id) == Seq::<usize>::empty());
        },
    }
    match index.get(&arch_id) {
        Some(i) => {
            order.push(*i);
        },
        None => {},
    }
}

/// Visits each of `ds` in order for a topological order. See [`topo_deps`].
fn sort_all(
    order: &mut Vec<usize>,
    visited: &mut BTreeSet<usize>,
    index: &BTreeMap<usize, usize>,
    deps: &BTreeMap<usize, Vec<usize>>,
    ds: &Vec<usize>,
    fuel: usize,
)
    ensures
        ({
            let r = topo_deps(deps@.map_values(|v: Vec<usize>| v@), index@, old(visited)@, old(order)@, ds@, fuel as nat);
            final(visited)@ == r.0 && final(order)@ == r.1
        }),
    decreases fuel, 1nat, ds@.len(),
{
    let ghost dm = deps@.map_values(|v: Vec<usize>| v@);
    let ghost goal = topo_deps(dm, index@, old(visited)@, old(order)@, ds@, fuel as nat);
    let mut i: usize = 0;
    assert(ds@.skip(0) =~= ds@);
    while i < ds.len()
        invariant
            0 <= i <= ds@.len(),
            dm == deps@.map_values(|v: Vec<usize>| v@),
            goal == topo_deps(dm, index@, visited@, order@, ds@.skip(i as int), fuel as nat),
        decreases ds@.len() - i,
    {
        assert(ds@.skip(i as int)[0] == ds@[i as int]);
        assert(ds@.skip(i as int).drop_first() =~= ds@.skip(i + 1));
        sort(order, visited, index, deps, ds[i], fuel);
        i += 1;
    }
    assert(ds@.skip(i as int).len() == 0);
}

/// The recorded archetypes of a topological traversal, their positions, and the order in which
/// to visit them: each after the archetypes of its relations' targets.
#[derive(Debug)]
pub struct TopoState {
    pub archetypes: Vec<ArchetypeId>,
    pub order: Vec<usize>,
    pub archetypes_index: BTreeMap<usize, usize>,
}

/// The dependencies of the recorded archetypes: for each one with any, its dependencies.
pub open spec fn recorded_deps<V>(world: &World<V>, relation: Entity, ids: Seq<ArchetypeId>) -> Map<usize, Seq<usize>> {
    Map::new(|a: usize| ids.contains(a) && arch_deps(world, relation, a).len() > 0, |a: usize| arch_deps(world, relation, a))
}

/// Finds the archetypes of the targets of an archetype's relations of the given kind.
fn find_deps<V>(world: &World<V>, relation: Entity, arch_id: ArchetypeId) -> (r: Vec<usize>)
    requires
        world.wf(),
        arch_id < world.archetypes@.len(),
    ensures
        r@ == arch_deps(world, relation, arch_id),
{
    let rels = world.archetypes[arch_id].relations_like(relation);
    let mut out: Vec<usize> = Vec::new();
    let mut i: usize = 0;
    while i < rels.len()
        invariant
            0 <= i <= rels@.len(),
            world.wf(),
            out@ == target_archetypes(world, rels@.take(i as int)),
        decreases rels@.len() - i,
    {
        let k = rels[i];
        assert(rels@.take(i + 1).drop_last() =~= rels@.take(i as int));
        match k.target {
            Some(t) => match world.location(t) {
                Ok(loc) => {
                    out.push(loc.arch_id);
                },
                Err(_) => {},
            },
            None => {},
        }
        i += 1;
    }
    assert(rels@.take(i as int) =~= rels@);
    out
}

impl TopoState {
    /// The order lists positions of recorded archetypes, and those lie in the world.
    pub open spec fn ready<V>(&self, world: &World<V>) -> bool {
        &&& forall|k: int| 0 <= k < self.order@.len() ==> #[trigger] self.order@[k] < self.archetypes@.len()
        &&& forall|i: int| 0 <= i < self.archetypes@.len() ==> #[trigger] self.archetypes@[i] < world.archetypes@.len()
    }

    /// The recorded archetypes in the order to visit them.
    pub fn ordered_ids<V>(&self, world: &World<V>) -> (r: Vec<ArchetypeId>)
        requires
            self.ready(world),
        ensures
            r@ == self.order@.map_values(|i: usize| self.archetypes@[i as int]),
            forall|k: int| 0 <= k < r@.len() ==> #[trigger] r@[k] < world.archetypes@.len(),
    {
        let mut out: Vec<ArchetypeId> = Vec::new();
        let mut k: usize = 0;
        while k < self.order.len()
            invariant
                0 <= k <= self.order@.len(),
                self.ready(world),
                out@ == self.order@.take(k as int).map_values(|i: usize| self.archetypes@[i as int]),
            decreases self.order@.len() - k,
        {
            let i = self.order[k];
            assert(i < self.archetypes@.len());
            out.push(self.archetypes[i]);
            proof {
                assert(self.order@.take(k + 1) =~= self.order@.take(k as int).push(i));
                assert(out@ =~= self.order@.take(k + 1).map_values(|i: usize| self.archetypes@[i as int]));
            }
            k += 1;
        }
        assert(self.order@.take(k as int) =~= self.order@);
        proof {
            assert forall|j: int| 0 <= j < out@.len() implies #[trigger] out@[j] < world.archetypes@.len() by {
                assert(self.order@[j] < self.archetypes@.len());
            }
        }
        out
    }

    /// Nothing recorded.
    pub fn new() -> (r: TopoState)
        ensures
            r.archetypes@.len() == 0,
            r.order@.len() == 0,
            r.archetypes_index@ == Map::<usize, usize>::empty(),
    {
        TopoState { archetypes: Vec::new(), order: Vec::new(), archetypes_index: BTreeMap::new() }
    }

    /// Forgets everything.
    pub fn clear(&mut self)
        ensures
            final(self).archetypes@.len() == 0,
            final(self).order@.len() == 0,
            final(self).archetypes_index@ == Map::<usize, usize>::empty(),
    {
        self.archetypes.clear();
        self.archetypes_index.clear();
        self.order.clear();
    }

    /// Records the archetypes the query visits, in increasing order, and orders them
    /// topologically by the relation: a depth-first visit from each archetype, in turn, places
    /// the archetypes of its relations' targets first. An archetype visited again (in a cycle)
    /// is not visited twice.
    pub fn update<'w, V, Q: Fetch<'w, V>, F: Fetch<'w, V>>(&mut self, relation: Entity, world: &'w World<V>, fetch: &Filtered<Q, F>)
        requires
            world.wf(),
        ensures
            forall|i: int, j: int| 0 <= i < j < final(self).archetypes@.len() ==> final(self).archetypes@[i] < final(self).archetypes@[j],
            forall|i: int| 0 <= i < final(self).archetypes@.len() ==> #[trigger] final(self).archetypes@[i] < world.archetypes@.len(),
            forall|id: usize| id < world.archetypes@.len() ==> (final(self).archetypes@.contains(id) <==> #[trigger] planar_match(world, *fetch, id)),
            forall|i: int| 0 <= i < final(self).archetypes@.len() ==> final(self).archetypes_index@.contains_key(#[trigger] final(self).archetypes@[i])
                && final(self).archetypes_index@[final(self).archetypes@[i]] == i,
            forall|a: usize| #[trigger] final(self).archetypes_index@.contains_key(a) ==> final(self).archetypes@.contains(a),
            final(self).ready(world),
            final(self).order@ == topo_deps(
                recorded_deps(world, relation, final(self).archetypes@),
                final(self).archetypes_index@,
                Set::empty(),
                Seq::empty(),
                final(self).archetypes@,
                world.archetypes@.len(),
            ).1,
    {
        self.clear();
        let mut searcher = ArchetypeSearcher::new();
        fetch.searcher(&mut searcher);
        assert(searcher.required@ =~= fetch.spec_required());
        let ids = searcher.find_archetypes(&world.archetypes);
        let mut deps: BTreeMap<usize, Vec<usize>> = BTreeMap::new();
        let mut i: usize = 0;
        while i < ids.len()
            invariant
                0 <= i <= ids@.len(),
                world.wf(),
                searcher.required@ == fetch.spec_required(),
                forall|a: int, b: int| 0 <= a < b < ids@.len() ==> ids@[a] < ids@[b],
                forall|a: int| 0 <= a < ids@.len() ==> #[trigger] ids@[a] < world.archetypes@.len(),
                forall|id: usize| id < world.archetypes@.len() ==> (ids@.contains(id) <==> crate::query::searcher::has_all_keys(
                    #[trigger] world.archetypes@[id as int],
                    searcher.required@,
                )),
                self.order@.len() == 0,
                forall|a: int, b: int| 0 <= a < b < self.archetypes@.len() ==> self.archetypes@[a] < self.archetypes@[b],
                forall|a: int| 0 <= a < self.archetypes@.len() ==> exists|k: int| 0 <= k < i && ids@[k] == #[trigger] self.archetypes@[a],
                forall|k: int| 0 <= k < i ==> (self.archetypes@.contains(#[trigger] ids@[k]) <==> planar_match(world, *fetch, ids@[k])),
                forall|a: int| 0 <= a < self.archetypes@.len() ==> self.archetypes_index@.contains_key(#[trigger] self.archetypes@[a])
                    && self.archetypes_index@[self.archetypes@[a]] == a,
                forall|a: usize| #[trigger] self.archetypes_index@.contains_key(a) ==> self.archetypes@.contains(a),
                deps@.map_values(|v: Vec<usize>| v@) == recorded_deps(world, relation, self.archetypes@),
            decreases ids@.len() - i,
        {
            let id = ids[i];
            let arch: &'w Archetype<V> = &world.archetypes[id];
            let ghost before = self.archetypes@;
            let ghost dbefore = deps@;
            if fetch.filter_arch(FetchAccessData { world, arch, arch_id: id }) {
                proof {
                    assert(ids@.contains(id));
                    assert(prepare_data(world, id, 0, 0).spec_access_data() == FetchAccessData { world, arch, arch_id: id });
                    assert(!before.contains(id)) by {
                        if before.contains(id) {
                            let c = choose|c: int| 0 <= c < before.len() && before[c] == id;
                            let k = choose|k: int| 0 <= k < i && ids@[k] == #[trigger] before[c];
                        }
                    }
                }
                let idx = self.archetypes.len();
                self.archetypes.push(id);
                self.archetypes_index.insert(id, idx);
                let ds = find_deps(world, relation, id);
                if ds.len() > 0 {
                    deps.insert(id, ds);
                }
                proof {
                    let a2 = self.archetypes@;
                    assert forall|a: int, b: int| 0 <= a < b < a2.len() implies a2[a] < a2[b] by {
                        if b == a2.len() - 1 && a < b {
                            let k = choose|k: int| 0 <= k < i && ids@[k] == #[trigger] before[a];
                            assert(ids@[k] < ids@[i as int]);
                        }
                    }
                    assert forall|a: int| 0 <= a < a2.len() implies exists|k: int| 0 <= k < i + 1 && ids@[k] == #[trigger] a2[a] by {
                        if a < before.len() {
                            let k = choose|k: int| 0 <= k < i && ids@[k] == #[trigger] before[a];
                            assert(ids@[k] == a2[a]);
                        } else {
                            assert(ids@[i as int] == a2[a]);
                        }
                    }
                    assert forall|k: int| 0 <= k < i + 1 implies (a2.contains(#[trigger] ids@[k]) <==> planar_match(world, *fetch, ids@[k])) by {
                        if k < i {
                            if a2.contains(ids@[k]) && !before.contains(ids@[k]) {
                                let c = choose|c: int| 0 <= c < a2.len() && a2[c] == ids@[k];
                                assert(c == before.len());
                                assert(ids@[k] < ids@[i as int]);
                            }
                            if before.contains(ids@[k]) {
                                let c = choose|c: int| 0 <= c < before.len() && before[c] == ids@[k];
                                assert(a2[c] == ids@[k]);
                            }
                        } else {
                            assert(a2[a2.len() - 1] == ids@[k]);
                        }
                    }
                    assert forall|a: int| 0 <= a < a2.len() implies self.archetypes_index@.contains_key(#[trigger] a2[a])
                        && self.archetypes_index@[a2[a]] == a by {
                        if a < before.len() {
                            assert(a2[a] != id);
                        }
                    }
                    assert forall|a: usize| #[trigger] self.archetypes_index@.contains_key(a) implies a2.contains(a) by {
                        if a == id {
                            assert(a2[a2.len() - 1] == id);
                        } else {
                            let c = choose|c: int| 0 <= c < before.len() && before[c] == a;
                            assert(a2[c] == a);
                        }
                    }
                    assert forall|a: usize| #[trigger] before.contains(a) implies a2.contains(a) by {
                        let c = choose|c: int| 0 <= c < before.len() && before[c] == a;
                        assert(a2[c] == a);
                    }
                    assert(a2.contains(id)) by {
                        assert(a2[a2.len() - 1] == id);
                    }
                    assert forall|a: usize| #[trigger] a2.contains(a) implies (before.contains(a) || a == id) by {
                        let c = choose|c: int| 0 <= c < a2.len() && a2[c] == a;
                        if c < before.len() {
                            assert(before[c] == a);
                        }
                    }
                    let m0 = dbefore.map_values(|v: Vec<usize>| v@);
                    let m1 = deps@.map_values(|v: Vec<usize>| v@);
                    let m2 = recorded_deps(world, relation, a2);
                    assert(m0 == recorded_deps(world, relation, before));
                    assert(ds@ == arch_deps(world, relation, id));
                    assert forall|a: usize| #[trigger] m1.contains_key(a) <==> m2.contains_key(a) by {
                        broadcast use vstd::set::group_set_axioms;
                        assert(m1.dom() == deps@.dom());
                        assert(m0.dom() == dbefore.dom());
                        if a != id {
                            assert(deps@.contains_key(a) == dbefore.contains_key(a));
                            assert(a2.contains(a) == before.contains(a));
                        }
                    }
                    assert forall|a: usize| #[trigger] m1.contains_key(a) implies m1[a] == m2[a] by {
                        broadcast use vstd::set::group_set_axioms;
                        assert(m1.dom() == deps@.dom());
                        assert(m0.dom() == dbefore.dom());
                        if a != id {
                            assert(deps@[a] == dbefore[a]);
                            assert(m0[a] == m2[a]);
                        }
                    }
                    assert(m1 =~= m2);
                }
            } else {
                proof {
                    assert(prepare_data(world, id, 0, 0).spec_access_data() == FetchAccessData { world, arch, arch_id: id });
                    assert forall|k: int| 0 <= k < i + 1 implies (self.archetypes@.contains(#[trigger] ids@[k]) <==> planar_match(world, *fetch, ids@[k])) by {
                        if k == i && self.archetypes@.contains(ids@[k]) {
                            let c = choose|c: int| 0 <= c < self.archetypes@.len() && self.archetypes@[c] == ids@[k];
                            let k2 = choose|k2: int| 0 <= k2 < i && ids@[k2] == #[trigger] self.archetypes@[c];
                            assert(ids@[k2] < ids@[k]);
                        }
                    }
                }
            }
            i += 1;
        }
        proof {
            assert forall|a: int| 0 <= a < self.archetypes@.len() implies #[trigger] self.archetypes@[a] < world.archetypes@.len() by {
                let k = choose|k: int| 0 <= k < i && ids@[k] == #[trigger] self.archetypes@[a];
            }
            assert forall|id: usize| id < world.archetypes@.len() implies (self.archetypes@.contains(id) <==> #[trigger] planar_match(world, *fetch, id)) by {
                if self.archetypes@.contains(id) {
                    let c = choose|c: int| 0 <= c < self.archetypes@.len() && self.archetypes@[c] == id;
                    let k = choose|k: int| 0 <= k < i && ids@[k] == #[trigger] self.archetypes@[c];
                    assert(self.archetypes@.contains(ids@[k]));
                }
                if planar_match(world, *fetch, id) {
                    assert(ids@.contains(id));
                    let k = choose|k: int| 0 <= k < ids@.len() && ids@[k] == id;
                    assert(self.archetypes@.contains(ids@[k]));
                }
            }
        }
        let fuel = world.archetypes.len();
        let mut visited: BTreeSet<usize> = BTreeSet::new();
        let mut order: Vec<usize> = Vec::new();
        sort_all(&mut order, &mut visited, &self.archetypes_index, &deps, &self.archetypes, fuel);
        proof {
            let dm = deps@.map_values(|v: Vec<usize>| v@);
            lemma_deps_appends(dm, self.archetypes_index@, Set::empty(), Seq::empty(), self.archetypes@, fuel as nat);
            assert forall|k: int| 0 <= k < order@.len() implies #[trigger] order@[k] < self.archetypes@.len() by {
                assert(index_value(self.archetypes_index@, order@[k]));
                let b = choose|b: usize| self.archetypes_index@.contains_key(b) && self.archetypes_index@[b] == order@[k];
                assert(self.archetypes@.contains(b));
                let c = choose|c: int| 0 <= c < self.archetypes@.len() && self.archetypes@[c] == b;
            }
        }
        self.order = order;
    }
}

/// The dependencies admit a rank below `n` which every dependency lowers: they form no cycle.
pub open spec fn ranked(deps: Map<usize, Seq<usize>>, rank: spec_fn(usize) -> nat, n: nat) -> bool {
    &&& forall|x: usize| #[trigger] rank(x) < n
    &&& forall|x: usize, k: int| 0 <= k < deps_of(deps, x).len() ==> rank(#[trigger] deps_of(deps, x)[k]) < rank(x)
}

/// Where `x` has a position, the order holds it at a place after the positions of all of `x`'s
/// dependencies which have one.
pub open spec fn placed(deps: Map<usize, Seq<usize>>, index: Map<usize, usize>, order: Seq<usize>, x: usize) -> bool {
    index.contains_key(x) ==> exists|j: int| 0 <= j < order.len() && order[j] == index[x] && forall|k: int|
        0 <= k < deps_of(deps, x).len() && index.contains_key(#[trigger] deps_of(deps, x)[k]) ==> exists|i: int|
            0 <= i < j && order[i] == index[deps_of(deps, x)[k]]
}

/// Every archetype of `done` is placed, and so are its dependencies.
pub open spec fn all_placed(deps: Map<usize, Seq<usize>>, index: Map<usize, usize>, order: Seq<usize>, done: Set<usize>) -> bool {
    forall|x: usize| #[trigger] done.contains(x) ==> placed(deps, index, order, x) && forall|k: int|
        0 <= k < deps_of(deps, x).len() ==> done.contains(#[trigger] deps_of(deps, x)[k])
}

/// Placing survives appending to the order.
proof fn lemma_placed_prefix(deps: Map<usize, Seq<usize>>, index: Map<usize, usize>, order: Seq<usize>, longer: Seq<usize>, done: Set<usize>)
    requires
        all_placed(deps, index, order, done),
        order.is_prefix_of(longer),
    ensures
        all_placed(deps, index, longer, done),
{
    assert forall|x: usize| #[trigger] done.contains(x) implies placed(deps, index, longer, x) by {
        if index.contains_key(x) {
            let j = choose|j: int| 0 <= j < order.len() && order[j] == index[x] && forall|k: int|
                0 <= k < deps_of(deps, x).len() && index.contains_key(#[trigger] deps_of(deps, x)[k]) ==> exists|i: int|
                    0 <= i < j && order[i] == index[deps_of(deps, x)[k]];
            assert(longer[j] == order[j]);
            assert forall|k: int| 0 <= k < deps_of(deps, x).len() && index.contains_key(#[trigger] deps_of(deps, x)[k]) implies exists|i: int|
                0 <= i < j && longer[i] == index[deps_of(deps, x)[k]] by {
                let i = choose|i: int| 0 <= i < j && order[i] == index[deps_of(deps, x)[k]];
                assert(longer[i] == order[i]);
            }
        }
    }
}

/// A visit of `a` from a state whose visited archetypes are the placed ones and those on the
/// stack (all ranked above `a`) leaves `a` placed among the placed ones, and adds nothing to
/// the stack.
proof fn lemma_visit_placed(
    deps: Map<usize, Seq<usize>>,
    index: Map<usize, usize>,
    rank: spec_fn(usize) -> nat,
    n: nat,
    done: Set<usize>,
    stack: Set<usize>,
    visited: Set<usize>,
    order: Seq<usize>,
    a: usize,
    fuel: nat,
)
    requires
        ranked(deps, rank, n),
        visited == done.union(stack),
        done.disjoint(stack),
        all_placed(deps, index, order, done),
        forall|s: usize| #[trigger] stack.contains(s) ==> rank(s) > rank(a),
        rank(a) < fuel,
    ensures
        ({
            let r = topo_visit(deps, index, visited, order, a, fuel);
            &&& r.0 == r.0.difference(stack).union(stack)
            &&& done.subset_of(r.0.difference(stack))
            &&& r.0.difference(stack).contains(a)
            &&& all_placed(deps, index, r.1, r.0.difference(stack))
            &&& order.is_prefix_of(r.1)
        }),
    decreases fuel, 0nat, 0nat,
{
    let r = topo_visit(deps, index, visited, order, a, fuel);
    if visited.contains(a) {
        assert(!stack.contains(a));
        assert(r.0.difference(stack) =~= done);
        assert(r.0 =~= r.0.difference(stack).union(stack));
        assert(order.is_prefix_of(r.1)) by {
            assert(order.subrange(0, order.len() as int) =~= order);
        }
    } else {
        let v1 = visited.insert(a);
        let s1 = stack.insert(a);
        let ds = deps_of(deps, a);
        assert(v1 =~= done.union(s1));
        assert forall|k: int| 0 <= k < ds.len() implies rank(#[trigger] ds[k]) < (fuel - 1) as nat by {
            assert(rank(ds[k]) < rank(a));
        }
        assert forall|k: int, s: usize| 0 <= k < ds.len() && #[trigger] s1.contains(s) implies rank(s) > rank(#[trigger] ds[k]) by {
            assert(rank(ds[k]) < rank(a));
        }
        lemma_deps_placed(deps, index, rank, n, done, s1, v1, order, ds, (fuel - 1) as nat);
        let r2 = topo_deps(deps, index, v1, order, ds, (fuel - 1) as nat);
        let d2 = r2.0.difference(s1);
        let d3 = r2.0.difference(stack);
        assert(r.0 == r2.0);
        assert(d3 =~= d2.insert(a));
        assert(r.0 =~= d3.union(stack));
        if index.contains_key(a) {
            assert(r.1 == r2.1.push(index[a]));
            assert(r2.1.is_prefix_of(r.1)) by {
                assert(r.1.subrange(0, r2.1.len() as int) =~= r2.1);
            }
            lemma_placed_prefix(deps, index, r2.1, r.1, d2);
            let j = r2.1.len() as int;
            assert(r.1[j] == index[a]);
            assert forall|k: int| 0 <= k < ds.len() && index.contains_key(#[trigger] ds[k]) implies exists|i: int|
                0 <= i < j && r.1[i] == index[ds[k]] by {
                assert(d2.contains(ds[k]));
                assert(placed(deps, index, r2.1, ds[k]));
                let i = choose|i: int| 0 <= i < r2.1.len() && r2.1[i] == index[ds[k]] && forall|m: int|
                    0 <= m < deps_of(deps, ds[k]).len() && index.contains_key(#[trigger] deps_of(deps, ds[k])[m]) ==> exists|i2: int|
                        0 <= i2 < i && r2.1[i2] == index[deps_of(deps, ds[k])[m]];
                assert(r.1[i] == r2.1[i]);
            }
            assert(placed(deps, index, r.1, a));
            assert(order.is_prefix_of(r.1)) by {
                assert(r.1.subrange(0, order.len() as int) =~= r2.1.subrange(0, order.len() as int));
            }
        } else {
            assert(r.1 == r2.1);
        }
        assert forall|x: usize| #[trigger] d3.contains(x) implies placed(deps, index, r.1, x) && forall|k: int|
            0 <= k < deps_of(deps, x).len() ==> d3.contains(#[trigger] deps_of(deps, x)[k]) by {
            if x != a {
                assert(d2.contains(x));
            }
        }
    }
}

/// Visits of each of `ds` in order, from a state as in [`lemma_visit_placed`], leave all of
/// them placed.
proof fn lemma_deps_placed(
    deps: Map<usize, Seq<usize>>,
    index: Map<usize, usize>,
    rank: spec_fn(usize) -> nat,
    n: nat,
    done: Set<usize>,
    stack: Set<usize>,
    visited: Set<usize>,
    order: Seq<usize>,
    ds: Seq<usize>,
    fuel: nat,
)
    requires
        ranked(deps, rank, n),
        visited == done.union(stack),
        done.disjoint(stack),
        all_placed(deps, index, order, done),
        forall|k: int, s: usize| 0 <= k < ds.len() && #[trigger] stack.contains(s) ==> rank(s) > rank(#[trigger] ds[k]),
        forall|k: int| 0 <= k < ds.len() ==> rank(#[trigger] ds[k]) < fuel,
    ensures
        ({
            let r = topo_deps(deps, index, visited, order, ds, fuel);
            &&& r.0 == r.0.difference(stack).union(stack)
            &&& done.subset_of(r.0.difference(stack))
            &&& forall|k: int| 0 <= k < ds.len() ==> r.0.difference(stack).contains(#[trigger] ds[k])
            &&& all_placed(deps, index, r.1, r.0.difference(stack))
            &&& order.is_prefix_of(r.1)
        }),
    decreases fuel, 1nat, ds.len(),
{
    let r = topo_deps(deps, index, visited, order, ds, fuel);
    if ds.len() == 0 {
        assert(r.0.difference(stack) =~= done);
        assert(r.0 =~= r.0.difference(stack).union(stack));
        assert(order.is_prefix_of(r.1)) by {
            assert(order.subrange(0, order.len() as int) =~= order);
        }
    } else {
        let a = ds[0];
        assert(forall|s: usize| #[trigger] stack.contains(s) ==> rank(s) > rank(ds[0]));
        lemma_visit_placed(deps, index, rank, n, done, stack, visited, order, a, fuel);
        let r1 = topo_visit(deps, index, visited, order, a, fuel);
        let d1 = r1.0.difference(stack);
        assert(d1.disjoint(stack));
        let rest = ds.drop_first();
        assert forall|k: int, s: usize| 0 <= k < rest.len() && #[trigger] stack.contains(s) implies rank(s) > rank(#[trigger] rest[k]) by {
            assert(rest[k] == ds[k + 1]);
        }
        assert forall|k: int| 0 <= k < rest.len() implies rank(#[trigger] rest[k]) < fuel by {
            assert(rest[k] == ds[k + 1]);
        }
        lemma_deps_placed(deps, index, rank, n, d1, stack, r1.0, r1.1, rest, fuel);
        assert(r == topo_deps(deps, index, r1.0, r1.1, rest, fuel));
        assert forall|k: int| 0 <= k < ds.len() implies r.0.difference(stack).contains(#[trigger] ds[k]) by {
            if k > 0 {
                assert(ds[k] == rest[k - 1]);
            }
        }
        assert(order.is_prefix_of(r.1)) by {
            assert(r.1.subrange(0, order.len() as int) =~= r1.1.subrange(0, order.len() as int));
        }
    }
}

/// Law: where the dependencies form no cycle, a topological order of `archs` holds each of them
/// that has a position after the positions of all its dependencies.
pub proof fn lemma_topo_order(deps: Map<usize, Seq<usize>>, index: Map<usize, usize>, archs: Seq<usize>, rank: spec_fn(usize) -> nat, n: nat)
    requires
        ranked(deps, rank, n),
    ensures
        forall|k: int| 0 <= k < archs.len() ==> placed(deps, index, topo_deps(deps, index, Set::empty(), Seq::empty(), archs, n).1, #[trigger] archs[k]),
{
    let done = Set::<usize>::empty();
    let stack = Set::<usize>::empty();
    assert(Set::<usize>::empty() =~= done.union(stack));
    lemma_deps_placed(deps, index, rank, n, done, stack, Set::empty(), Seq::empty(), archs, n);
}

/// Visits the entities in topological order of their archetypes by a relation: the
/// archetypes of an archetype's relations' targets come first. Archetypes in a cycle are
/// visited once.
#[derive(Debug)]
pub struct Topo {
    pub relation: Entity,
    pub state: TopoState,
}

impl Topo {
    /// A topological traversal of `relation` which has not searched the world yet.
    pub fn new(relation: Entity) -> (r: Topo)
        ensures
            r.relation == relation,
            r.state.archetypes@.len() == 0,
            r.state.order@.len() == 0,
            r.state.archetypes_index@ == Map::<usize, usize>::empty(),
    {
        Topo { relation, state: TopoState::new() }
    }
}

} // verus!
