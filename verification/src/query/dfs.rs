use vstd::prelude::*;

use std::collections::BTreeMap;

use crate::archetype::{relation_keys, keys_sorted, is_relation_of, Archetype, ArchetypeId};
use crate::entity::{key_lt, ComponentKey, Entity};
use crate::fetch::base::{Fetch, FetchAccessData};
use crate::filter::iter::Filtered;
use crate::query::borrow::prepare_data;
use crate::query::children::{child_positions, children_limit, children_new, children_push, Children};
use crate::hierarchy::dfs::archetypes_access;
use crate::schedule::access::{Access, AccessKind};
use crate::world::World;

verus! {

broadcast use {vstd::std_specs::btree::group_btree_axioms, vstd::laws_cmp::group_laws_cmp};

/// Whether the query visits the archetype `a` of the world.
pub open spec fn forest_visits<'w, V, Q: Fetch<'w, V>, F: Fetch<'w, V>>(world: &'w World<V>, fetch: Filtered<Q, F>, a: int) -> bool {
    fetch.spec_filter_arch(prepare_data(world, a as usize, 0, 0).spec_access_data())
}

/// The archetypes among the first `n` of the world which the query visits, in order.
pub open spec fn visited_upto<'w, V, Q: Fetch<'w, V>, F: Fetch<'w, V>>(world: &'w World<V>, fetch: Filtered<Q, F>, n: nat) -> Seq<ArchetypeId>
    decreases n,
{
    if n == 0 {
        Seq::empty()
    } else {
        let prev = visited_upto(world, fetch, (n - 1) as nat);
        if forest_visits(world, fetch, n - 1) {
            prev.push((n - 1) as usize)
        } else {
            prev
        }
    }
}

/// The key of the relation from a child to `parent`.
pub open spec fn edge_key(relation: Entity, parent: usize) -> ComponentKey {
    ComponentKey { id: relation, target: Some(Entity { id: parent }) }
}

/// Whether the entities of the archetype are children of `parent`.
pub open spec fn has_edge<V>(arch: Archetype<V>, relation: Entity, parent: usize) -> bool {
    relation_keys(arch.components@, relation).contains(edge_key(relation, parent))
}

/// The positions in `archs` of the archetypes whose entities are children of `parent`, in
/// order.
pub open spec fn edge_positions<V>(world: &World<V>, archs: Seq<ArchetypeId>, relation: Entity, parent: usize) -> Seq<usize>
    decreases archs.len(),
{
    if archs.len() == 0 {
        Seq::empty()
    } else {
        let prev = edge_positions(world, archs.drop_last(), relation, parent);
        if has_edge(world.archetypes@[archs.last() as int], relation, parent) {
            prev.push((archs.len() - 1) as usize)
        } else {
            prev
        }
    }
}

/// The positions in `archs` of the archetypes whose entities have no relation of the kind: the
/// roots of the forest.
pub open spec fn root_positions<V>(world: &World<V>, archs: Seq<ArchetypeId>, relation: Entity) -> Seq<usize>
    decreases archs.len(),
{
    if archs.len() == 0 {
        Seq::empty()
    } else {
        let prev = root_positions(world, archs.drop_last(), relation);
        if relation_keys(world.archetypes@[archs.last() as int].components@, relation).len() == 0 {
            prev.push((archs.len() - 1) as usize)
        } else {
            prev
        }
    }
}

/// The sorted keys of an archetype stay sorted when only the relations of one kind are kept.
pub proof fn lemma_relation_keys_sorted(keys: Seq<ComponentKey>, relation: Entity)
    requires
        keys_sorted(keys),
    ensures
        keys_sorted(relation_keys(keys, relation)),
    decreases keys.len(),
{
    reveal_with_fuel(Seq::filter, 1);
    if keys.len() > 0 {
        let prev = keys.drop_last();
        assert(keys_sorted(prev));
        lemma_relation_keys_sorted(prev, relation);
        let pf = relation_keys(prev, relation);
        let f = relation_keys(keys, relation);
        if is_relation_of(relation)(keys.last()) {
            assert(f == pf.push(keys.last()));
            assert forall|i: int, j: int| 0 <= i < j < f.len() implies key_lt(#[trigger] f[i], #[trigger] f[j]) by {
                if j == f.len() - 1 {
                    prev.lemma_filter_contains_rev(is_relation_of(relation), f[i]);
                    let k = choose|k: int| 0 <= k < prev.len() && prev[k] == f[i];
                    assert(keys[k] == prev[k]);
                    assert(key_lt(keys[k], keys[keys.len() - 1]));
                } else {
                    assert(f[i] == pf[i] && f[j] == pf[j]);
                }
            }
        } else {
            assert(f == pf);
        }
    }
}

/// A key is not less than itself.
pub proof fn lemma_key_lt_irreflexive(k: ComponentKey)
    ensures
        !key_lt(k, k),
{
}

/// The archetypes a forest traversal visits, where each entity's children are, and which
/// archetypes hold roots.
#[derive(Debug)]
pub struct ForestState {
    /// For each entity with children, the positions of the archetypes holding them.
    pub edges: BTreeMap<usize, Children>,
    /// The visited archetypes, in world order.
    pub archetypes: Vec<ArchetypeId>,
    /// The position of each visited archetype.
    pub archetypes_index: BTreeMap<usize, usize>,
    /// The positions of the archetypes whose entities have no parent.
    pub roots: Vec<usize>,
}

impl ForestState {
    /// Nothing is recorded.
    pub fn new() -> (r: ForestState)
        ensures
            r.archetypes@.len() == 0,
            r.roots@.len() == 0,
            r.edges@ == Map::<usize, Children>::empty(),
            r.archetypes_index@ == Map::<usize, usize>::empty(),
    {
        ForestState { edges: BTreeMap::new(), archetypes: Vec::new(), archetypes_index: BTreeMap::new(), roots: Vec::new() }
    }

    /// The state records exactly what [`ForestState::update`] finds in the world.
    pub open spec fn forest_ok<'w, V, Q: Fetch<'w, V>, F: Fetch<'w, V>>(&self, world: &'w World<V>, fetch: Filtered<Q, F>, relation: Entity) -> bool {
        &&& self.archetypes@ == visited_upto(world, fetch, world.archetypes@.len())
        &&& self.records(world, relation)
    }

    /// The index, edges and roots agree with the recorded archetypes.
    pub open spec fn records<V>(&self, world: &World<V>, relation: Entity) -> bool {
        &&& forall|i: int| 0 <= i < self.archetypes@.len() ==> self.archetypes_index@.contains_key(#[trigger] self.archetypes@[i])
            && self.archetypes_index@[self.archetypes@[i]] == i
        &&& forall|a: usize| #[trigger] self.archetypes_index@.contains_key(a) ==> self.archetypes_index@[a] < self.archetypes@.len()
            && self.archetypes@[self.archetypes_index@[a] as int] == a
        &&& forall|t: usize| #[trigger] self.edges@.contains_key(t) <==> edge_positions(world, self.archetypes@, relation, t).len() > 0
        &&& forall|t: usize| #[trigger] self.edges@.contains_key(t) ==> child_positions(self.edges@[t]) == edge_positions(world, self.archetypes@, relation, t)
        &&& self.roots@ == root_positions(world, self.archetypes@, relation)
    }
}

/// Recording one more archetype extends the positions of each parent's children by the new
/// position exactly where the archetype holds children of that parent.
proof fn lemma_edge_positions_push<V>(world: &World<V>, archs: Seq<ArchetypeId>, a: ArchetypeId, relation: Entity, t: usize)
    ensures
        edge_positions(world, archs.push(a), relation, t) == if has_edge(world.archetypes@[a as int], relation, t) {
            edge_positions(world, archs, relation, t).push(archs.len() as usize)
        } else {
            edge_positions(world, archs, relation, t)
        },
        root_positions(world, archs.push(a), relation) == if relation_keys(world.archetypes@[a as int].components@, relation).len() == 0 {
            root_positions(world, archs, relation).push(archs.len() as usize)
        } else {
            root_positions(world, archs, relation)
        },
{
    assert(archs.push(a).drop_last() =~= archs);
}

/// The positions of a parent's children are increasing and lie below the number of archetypes.
proof fn lemma_edge_positions_bounded<V>(world: &World<V>, archs: Seq<ArchetypeId>, relation: Entity, t: usize)
    ensures
        edge_positions(world, archs, relation, t).len() <= archs.len(),
        forall|k: int| 0 <= k < edge_positions(world, archs, relation, t).len() ==> #[trigger] edge_positions(world, archs, relation, t)[k] < archs.len(),
    decreases archs.len(),
{
    if archs.len() > 0 {
        lemma_edge_positions_bounded(world, archs.drop_last(), relation, t);
    }
}

/// Records the archetypes the query visits, where the children of each entity are, and which
/// archetypes hold roots.
pub fn update_forest<'w, V, Q: Fetch<'w, V>, F: Fetch<'w, V>>(
    state: &mut ForestState,
    world: &'w World<V>,
    relation: Entity,
    fetch: &Filtered<Q, F>,
)
    requires
        world.wf(),
        world.archetypes@.len() <= children_limit(),
    ensures
        final(state).forest_ok(world, *fetch, relation),
{
    state.edges.clear();
    state.archetypes.clear();
    state.archetypes_index.clear();
    state.roots.clear();
    let n = world.archetypes.len();
    let mut arch_id: usize = 0;
    proof {
        assert forall|t: usize| edge_positions(world, state.archetypes@, relation, t).len() == 0 by {
        }
    }
    while arch_id < n
        invariant
            world.wf(),
            n == world.archetypes@.len(),
            n <= children_limit(),
            0 <= arch_id <= n,
            state.archetypes@ == visited_upto(world, *fetch, arch_id as nat),
            state.archetypes@.len() <= arch_id,
            forall|i: int| 0 <= i < state.archetypes@.len() ==> #[trigger] state.archetypes@[i] < arch_id,
            state.records(world, relation),
        decreases n - arch_id,
    {
        let arch: &'w Archetype<V> = &world.archetypes[arch_id];
        proof {
            assert(visited_upto(world, *fetch, (arch_id + 1) as nat) == if forest_visits(world, *fetch, arch_id as int) {
                visited_upto(world, *fetch, arch_id as nat).push(arch_id)
            } else {
                visited_upto(world, *fetch, arch_id as nat)
            });
            assert(prepare_data(world, arch_id, 0, 0).spec_access_data() == FetchAccessData { world, arch, arch_id });
        }
        if fetch.filter_arch(FetchAccessData { world, arch, arch_id }) {
            let ghost before = *state;
            let index = state.archetypes.len();
            state.archetypes.push(arch_id);
            state.archetypes_index.insert(arch_id, index);
            let keys = arch.relations_like(relation);
            proof {
                assert(world.archetypes@[arch_id as int].wf());
                lemma_relation_keys_sorted(arch.components@, relation);
                assert forall|t: usize| #[trigger] edge_positions(world, state.archetypes@, relation, t) == if has_edge(*arch, relation, t) {
                    edge_positions(world, before.archetypes@, relation, t).push(index)
                } else {
                    edge_positions(world, before.archetypes@, relation, t)
                } by {
                    lemma_edge_positions_push(world, before.archetypes@, arch_id, relation, t);
                }
                lemma_edge_positions_push(world, before.archetypes@, arch_id, relation, 0);
                assert forall|i: int| 0 <= i < state.archetypes@.len() implies state.archetypes_index@.contains_key(#[trigger] state.archetypes@[i])
                    && state.archetypes_index@[state.archetypes@[i]] == i by {
                    if i < before.archetypes@.len() {
                        assert(before.archetypes@[i] < arch_id);
                    }
                }
                assert forall|t: usize| #[trigger] edge_positions(world, before.archetypes@, relation, t).len() <= index by {
                    lemma_edge_positions_bounded(world, before.archetypes@, relation, t);
                }
            }
            let mut j: usize = 0;
            while j < keys.len()
                invariant
                    world.wf(),
                    n == world.archetypes@.len(),
                    n <= children_limit(),
                    arch_id < n,
                    *arch == world.archetypes@[arch_id as int],
                    keys@ == relation_keys(arch.components@, relation),
                    keys_sorted(keys@),
                    0 <= j <= keys@.len(),
                    index == before.archetypes@.len(),
                    index < arch_id + 1,
                    state.archetypes@ == before.archetypes@.push(arch_id),
                    state.roots@ == before.roots@,
                    state.archetypes_index@ == before.archetypes_index@.insert(arch_id, index),
                    before.records(world, relation),
                    !before.archetypes_index@.contains_key(arch_id),
                    forall|t: usize| #[trigger] state.edges@.contains_key(t) <==> (edge_positions(world, before.archetypes@, relation, t).len() > 0
                        || keys@.subrange(0, j as int).contains(edge_key(relation, t))),
                    forall|t: usize| #[trigger] state.edges@.contains_key(t) ==> child_positions(state.edges@[t]) == if keys@.subrange(0, j as int).contains(edge_key(relation, t)) {
                        edge_positions(world, before.archetypes@, relation, t).push(index)
                    } else {
                        edge_positions(world, before.archetypes@, relation, t)
                    },
                    forall|t: usize| #[trigger] edge_positions(world, before.archetypes@, relation, t).len() <= index,
                decreases keys@.len() - j,
            {
                let key = keys[j];
                proof {
                    reveal_with_fuel(Seq::filter, 1);
                    arch.components@.lemma_filter_pred(is_relation_of(relation), j as int);
                }
                proof {
                    assert(is_relation_of(relation)(keys@[j as int]));
                }
                let target = key.target.unwrap();
                let t = target.id;
                let ghost prior = keys@.subrange(0, j as int);
                proof {
                    assert(key == edge_key(relation, t));
                    if prior.contains(key) {
                        let k = choose|k: int| 0 <= k < prior.len() && prior[k] == key;
                        assert(key_lt(keys@[k], keys@[j as int]));
                        lemma_key_lt_irreflexive(key);
                    }
                    lemma_edge_positions_bounded(world, before.archetypes@, relation, t);
                }
                let mut list = match state.edges.remove(&t) {
                    Some(l) => l,
                    None => children_new(),
                };
                proof {
                    assert(child_positions(list) == edge_positions(world, before.archetypes@, relation, t));
                }
                children_push(&mut list, index);
                state.edges.insert(t, list);
                proof {
                    let now = keys@.subrange(0, j + 1);
                    assert(now == prior.push(key));
                    assert forall|u: usize| #[trigger] now.contains(edge_key(relation, u)) == (prior.contains(edge_key(relation, u)) || u == t) by {
                        if u == t {
                            assert(now[j as int] == edge_key(relation, u));
                        }
                        if now.contains(edge_key(relation, u)) && u != t {
                            let k = choose|k: int| 0 <= k < now.len() && now[k] == edge_key(relation, u);
                            assert(k < j);
                            assert(prior[k] == edge_key(relation, u));
                        }
                        if prior.contains(edge_key(relation, u)) {
                            let k = choose|k: int| 0 <= k < prior.len() && prior[k] == edge_key(relation, u);
                            assert(now[k] == edge_key(relation, u));
                        }
                    }
                }
                j += 1;
            }
            proof {
                assert(keys@.subrange(0, j as int) =~= keys@);
                assert forall|t: usize| #[trigger] state.edges@.contains_key(t) <==> edge_positions(world, state.archetypes@, relation, t).len() > 0 by {
                    lemma_edge_positions_push(world, before.archetypes@, arch_id, relation, t);
                }
                assert forall|t: usize| #[trigger] state.edges@.contains_key(t) implies child_positions(state.edges@[t]) == edge_positions(world, state.archetypes@, relation, t) by {
                    lemma_edge_positions_push(world, before.archetypes@, arch_id, relation, t);
                }
            }
            if keys.len() == 0 {
                state.roots.push(index);
            }
            proof {
                lemma_edge_positions_push(world, before.archetypes@, arch_id, relation, 0);
                assert(state.roots@ == root_positions(world, state.archetypes@, relation));
                assert(forall|a: usize| #[trigger] state.archetypes_index@.contains_key(a) ==> state.archetypes_index@[a] < state.archetypes@.len()
                    && state.archetypes@[state.archetypes_index@[a] as int] == a);
                assert(forall|t: usize| #[trigger] state.edges@.contains_key(t) <==> edge_positions(world, state.archetypes@, relation, t).len() > 0);
                assert(forall|t: usize| #[trigger] state.edges@.contains_key(t) ==> child_positions(state.edges@[t]) == edge_positions(world, state.archetypes@, relation, t));
            }
        } else {
            proof {
                assert(!forest_visits(world, *fetch, arch_id as int));
            }
        }
        arch_id += 1;
    }
}

/// A traversal of all hierarchies of a relation depth first, from every entity without a parent.
#[derive(Debug)]
pub struct Dfs {
    /// The relation from children to their parents.
    pub relation: Entity,
    /// What the traversal last found in the world.
    pub state: ForestState,
}

impl Dfs {
    /// Traverses the hierarchies of `relation` depth first.
    pub fn new(relation: Entity) -> (r: Dfs)
        ensures
            r.relation == relation,
            r.state.archetypes@.len() == 0,
            r.state.roots@.len() == 0,
            r.state.edges@ == Map::<usize, Children>::empty(),
            r.state.archetypes_index@ == Map::<usize, usize>::empty(),
    {
        Dfs { relation, state: ForestState::new() }
    }

    /// The accesses of a traversal: those of the fetch to each archetype it visits, then a shared
    /// access to the world.
    pub fn access<'w, V, Q: Fetch<'w, V>, F: Fetch<'w, V>>(&self, world: &'w World<V>, fetch: &Filtered<Q, F>) -> (r: Vec<Access>)
        requires
            world.wf(),
            world.archetypes@.len() <= children_limit(),
        ensures
            r@ == archetypes_access(world, *fetch, visited_upto(world, *fetch, world.archetypes@.len())).push(
                Access { kind: AccessKind::World, mutable: false },
            ),
    {
        let mut state = ForestState::new();
        update_forest(&mut state, world, self.relation, fetch);
        let mut out: Vec<Access> = Vec::new();
        let mut i: usize = 0;
        proof {
            lemma_visited_bounded(world, *fetch, world.archetypes@.len());
        }
        while i < state.archetypes.len()
            invariant
                0 <= i <= state.archetypes@.len(),
                world.wf(),
                state.archetypes@ == visited_upto(world, *fetch, world.archetypes@.len()),
                forall|k: int| 0 <= k < state.archetypes@.len() ==> #[trigger] state.archetypes@[k] < world.archetypes@.len(),
                out@ == archetypes_access(world, *fetch, state.archetypes@.subrange(0, i as int)),
            decreases state.archetypes@.len() - i,
        {
            let arch_id = state.archetypes[i];
            let arch: &'w Archetype<V> = &world.archetypes[arch_id];
            proof {
                assert(state.archetypes@.subrange(0, i + 1).drop_last() =~= state.archetypes@.subrange(0, i as int));
                assert(prepare_data(world, arch_id, 0, 0).spec_access_data() == FetchAccessData { world, arch, arch_id });
            }
            fetch.access(FetchAccessData { world, arch, arch_id }, &mut out);
            i += 1;
        }
        assert(state.archetypes@.subrange(0, i as int) =~= state.archetypes@);
        out.push(Access { kind: AccessKind::World, mutable: false });
        out
    }
}

/// The visited archetypes lie in the world.
pub proof fn lemma_visited_bounded<'w, V, Q: Fetch<'w, V>, F: Fetch<'w, V>>(world: &'w World<V>, fetch: Filtered<Q, F>, n: nat)
    ensures
        forall|k: int| 0 <= k < visited_upto(world, fetch, n).len() ==> #[trigger] visited_upto(world, fetch, n)[k] < n,
        visited_upto(world, fetch, n).len() <= n,
    decreases n,
{
    if n > 0 {
        lemma_visited_bounded(world, fetch, (n - 1) as nat);
    }
}

} // verus!
