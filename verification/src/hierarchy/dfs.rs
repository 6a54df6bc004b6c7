use vstd::prelude::*;

use std::collections::BTreeMap;

use crate::archetype::{Archetype, ArchetypeId};
use crate::entity::{ComponentKey, Entity};
use crate::fetch::base::{Fetch, FetchAccessData};
use crate::filter::iter::Filtered;
use crate::query::borrow::prepare_data;
use crate::query::searcher::{has_all_keys, matching_upto, ArchetypeSearcher};
use crate::schedule::access::{Access, AccessKind};
use crate::world::World;

verus! {

broadcast use {vstd::std_specs::btree::group_btree_axioms, vstd::laws_cmp::group_laws_cmp};

/// Why a hierarchy cannot be traversed.
#[derive(Debug, Clone, Copy, PartialEq, Eq, Structural)]
pub enum DfsError {
    /// The root does not exist.
    NoSuchEntity(Entity),
    /// The archetype was reached twice: the relation does not form a tree over archetypes.
    Cycle(ArchetypeId),
    /// The entity was reached twice: the relation does not form a tree over entities.
    Revisited(Entity),
    /// The root lies in an archetype which the recorded hierarchy does not hold.
    Outdated(Entity),
    /// The query cannot be prepared for an archetype of the hierarchy.
    NoMatch(ArchetypeId),
}

/// The archetypes of a hierarchy in the order they were found, and for each visited entity the
/// archetypes of its children.
#[derive(Debug)]
pub struct DfsState {
    pub archetypes: Vec<ArchetypeId>,
    pub archetypes_index: BTreeMap<usize, usize>,
    pub adj: BTreeMap<usize, Vec<usize>>,
}

/// The key of the relation from a child to `parent`.
pub open spec fn child_key(relation: Entity, parent: Entity) -> ComponentKey {
    ComponentKey { id: relation, target: Some(parent) }
}

/// Whether the archetype holds children of `parent` that the query visits.
pub open spec fn child_match<'w, V, Q: Fetch<'w, V>, F: Fetch<'w, V>>(
    world: &'w World<V>,
    fetch: Filtered<Q, F>,
    relation: Entity,
    parent: Entity,
    arch_id: ArchetypeId,
) -> bool {
    &&& has_all_keys(world.archetypes@[arch_id as int], fetch.spec_required().push(child_key(relation, parent)))
    &&& fetch.spec_filter_arch(prepare_data(world, arch_id, 0, 0).spec_access_data())
}

/// The number of ids below `k` which are not in `dom`.
pub open spec fn missing_count(dom: Set<usize>, k: usize) -> nat
    decreases k,
{
    if k == 0 {
        0
    } else {
        missing_count(dom, (k - 1) as usize) + if dom.contains((k - 1) as usize) {
            0nat
        } else {
            1nat
        }
    }
}

/// The search of the hierarchy under `id`, from the recorded archetypes `recorded` and the
/// visited entities `visited`: each archetype holding children of `id` which the query visits,
/// in increasing order, is recorded and its entities searched in turn, then `id` is visited.
/// `None` where the search reaches an archetype already recorded, or an entity already visited;
/// else the recorded archetypes and visited entities after it.
pub open spec fn hier_visit<'w, V, Q: Fetch<'w, V>, F: Fetch<'w, V>>(
    world: &'w World<V>,
    fetch: Filtered<Q, F>,
    required: Seq<ComponentKey>,
    relation: Entity,
    recorded: Set<usize>,
    visited: Set<usize>,
    id: Entity,
) -> Option<(Set<usize>, Set<usize>)>
    decreases missing_count(recorded, world.archetypes@.len() as usize), 1int, 0int,
{
    let cands = matching_upto(world.archetypes@, required.push(child_key(relation, id)), world.archetypes@.len());
    match hier_cands(world, fetch, required, relation, recorded, visited, cands) {
        Some((r2, v2)) => if v2.contains(id.id) {
            None
        } else {
            Some((r2, v2.insert(id.id)))
        },
        None => None,
    }
}

/// The search of the candidate archetypes `cands`, in order. See [`hier_visit`].
pub open spec fn hier_cands<'w, V, Q: Fetch<'w, V>, F: Fetch<'w, V>>(
    world: &'w World<V>,
    fetch: Filtered<Q, F>,
    required: Seq<ComponentKey>,
    relation: Entity,
    recorded: Set<usize>,
    visited: Set<usize>,
    cands: Seq<usize>,
) -> Option<(Set<usize>, Set<usize>)>
    decreases missing_count(recorded, world.archetypes@.len() as usize), 0int, cands.len(),
{
    let n = world.archetypes@.len() as usize;
    if cands.len() == 0 {
        Some((recorded, visited))
    } else {
        let a = cands[0];
        if !fetch.spec_filter_arch(prepare_data(world, a, 0, 0).spec_access_data()) {
            hier_cands(world, fetch, required, relation, recorded, visited, cands.drop_first())
        } else if recorded.contains(a) {
            None
        } else if missing_count(recorded.insert(a), n) < missing_count(recorded, n) {
            match hier_ents(world, fetch, required, relation, recorded.insert(a), visited, world.archetypes@[a as int].entities@) {
                Some((r2, v2)) => if missing_count(r2, n) < missing_count(recorded, n) {
                    hier_cands(world, fetch, required, relation, r2, v2, cands.drop_first())
                } else {
                    None
                },
                None => None,
            }
        } else {
            None
        }
    }
}

/// The search under each of the entities `es`, in order. See [`hier_visit`].
pub open spec fn hier_ents<'w, V, Q: Fetch<'w, V>, F: Fetch<'w, V>>(
    world: &'w World<V>,
    fetch: Filtered<Q, F>,
    required: Seq<ComponentKey>,
    relation: Entity,
    recorded: Set<usize>,
    visited: Set<usize>,
    es: Seq<Entity>,
) -> Option<(Set<usize>, Set<usize>)>
    decreases missing_count(recorded, world.archetypes@.len() as usize), 2int, es.len(),
{
    let n = world.archetypes@.len() as usize;
    if es.len() == 0 {
        Some((recorded, visited))
    } else {
        match hier_visit(world, fetch, required, relation, recorded, visited, es[0]) {
            Some((r2, v2)) => if missing_count(r2, n) <= missing_count(recorded, n) {
                hier_ents(world, fetch, required, relation, r2, v2, es.drop_first())
            } else {
                None
            },
            None => None,
        }
    }
}

/// Every entity of an archetype recorded in `r2` but not in `rec` is in `v2`.
pub open spec fn covers<V>(world: &World<V>, rec: Set<usize>, r2: Set<usize>, v2: Set<usize>) -> bool {
    forall|a: usize, s: int| #![trigger r2.contains(a), world.archetypes@[a as int].entities@[s]]
        r2.contains(a) && !rec.contains(a) && a < world.archetypes@.len() && 0 <= s < world.archetypes@[a as int].entities@.len()
            ==> v2.contains(world.archetypes@[a as int].entities@[s].id)
}

/// The search only adds to the recorded archetypes and visited entities, visits `id`, and
/// visits every entity of each archetype it records.
proof fn lemma_visit_covers<'w, V, Q: Fetch<'w, V>, F: Fetch<'w, V>>(
    world: &'w World<V>,
    fetch: Filtered<Q, F>,
    required: Seq<ComponentKey>,
    relation: Entity,
    rec: Set<usize>,
    vis: Set<usize>,
    id: Entity,
)
    requires
        hier_visit(world, fetch, required, relation, rec, vis, id) is Some,
    ensures
        ({
            let (r2, v2) = hier_visit(world, fetch, required, relation, rec, vis, id)->0;
            rec.subset_of(r2) && vis.subset_of(v2) && v2.contains(id.id) && covers(world, rec, r2, v2)
        }),
    decreases missing_count(rec, world.archetypes@.len() as usize), 1int, 0int,
{
    let cands = matching_upto(world.archetypes@, required.push(child_key(relation, id)), world.archetypes@.len());
    lemma_cands_covers(world, fetch, required, relation, rec, vis, cands);
}

proof fn lemma_cands_covers<'w, V, Q: Fetch<'w, V>, F: Fetch<'w, V>>(
    world: &'w World<V>,
    fetch: Filtered<Q, F>,
    required: Seq<ComponentKey>,
    relation: Entity,
    rec: Set<usize>,
    vis: Set<usize>,
    cands: Seq<usize>,
)
    requires
        hier_cands(world, fetch, required, relation, rec, vis, cands) is Some,
    ensures
        ({
            let (r2, v2) = hier_cands(world, fetch, required, relation, rec, vis, cands)->0;
            rec.subset_of(r2) && vis.subset_of(v2) && covers(world, rec, r2, v2)
        }),
    decreases missing_count(rec, world.archetypes@.len() as usize), 0int, cands.len(),
{
    let n = world.archetypes@.len() as usize;
    if cands.len() > 0 {
        let a = cands[0];
        if !fetch.spec_filter_arch(prepare_data(world, a, 0, 0).spec_access_data()) {
            lemma_cands_covers(world, fetch, required, relation, rec, vis, cands.drop_first());
        } else {
            let ents = world.archetypes@[a as int].entities@;
            let (r2, v2) = hier_ents(world, fetch, required, relation, rec.insert(a), vis, ents)->0;
            lemma_ents_covers(world, fetch, required, relation, rec.insert(a), vis, ents);
            lemma_cands_covers(world, fetch, required, relation, r2, v2, cands.drop_first());
            let (r3, v3) = hier_cands(world, fetch, required, relation, r2, v2, cands.drop_first())->0;
            assert forall|b: usize, s: int| #![trigger r3.contains(b), world.archetypes@[b as int].entities@[s]]
                r3.contains(b) && !rec.contains(b) && b < world.archetypes@.len() && 0 <= s < world.archetypes@[b as int].entities@.len()
                implies v3.contains(world.archetypes@[b as int].entities@[s].id) by {
                if b == a {
                    assert(v2.contains(ents[s].id));
                } else if r2.contains(b) {
                    assert(v2.contains(world.archetypes@[b as int].entities@[s].id));
                }
            }
        }
    }
}

proof fn lemma_ents_covers<'w, V, Q: Fetch<'w, V>, F: Fetch<'w, V>>(
    world: &'w World<V>,
    fetch: Filtered<Q, F>,
    required: Seq<ComponentKey>,
    relation: Entity,
    rec: Set<usize>,
    vis: Set<usize>,
    es: Seq<Entity>,
)
    requires
        hier_ents(world, fetch, required, relation, rec, vis, es) is Some,
    ensures
        ({
            let (r2, v2) = hier_ents(world, fetch, required, relation, rec, vis, es)->0;
            rec.subset_of(r2) && vis.subset_of(v2) && covers(world, rec, r2, v2)
                && forall|k: int| 0 <= k < es.len() ==> v2.contains(#[trigger] es[k].id)
        }),
    decreases missing_count(rec, world.archetypes@.len() as usize), 2int, es.len(),
{
    if es.len() > 0 {
        let (r1, v1) = hier_visit(world, fetch, required, relation, rec, vis, es[0])->0;
        lemma_visit_covers(world, fetch, required, relation, rec, vis, es[0]);
        lemma_ents_covers(world, fetch, required, relation, r1, v1, es.drop_first());
        let (r2, v2) = hier_ents(world, fetch, required, relation, r1, v1, es.drop_first())->0;
        assert forall|k: int| 0 <= k < es.len() implies v2.contains(#[trigger] es[k].id) by {
            if k > 0 {
                assert(es.drop_first()[k - 1] == es[k]);
            }
        }
        assert forall|b: usize, s: int| #![trigger r2.contains(b), world.archetypes@[b as int].entities@[s]]
            r2.contains(b) && !rec.contains(b) && b < world.archetypes@.len() && 0 <= s < world.archetypes@[b as int].entities@.len()
            implies v2.contains(world.archetypes@[b as int].entities@[s].id) by {
            if r1.contains(b) {
                assert(v1.contains(world.archetypes@[b as int].entities@[s].id));
            }
        }
    }
}

/// The recorded archetypes and visited entities of the search of the hierarchy under `root`,
/// from the root's archetype; `None` where the search reaches an archetype or an entity twice.
pub open spec fn hierarchy_search<'w, V, Q: Fetch<'w, V>, F: Fetch<'w, V>>(world: &'w World<V>, fetch: Filtered<Q, F>, relation: Entity, root: Entity) -> Option<(Set<usize>, Set<usize>)> {
    hier_visit(world, fetch, fetch.spec_required(), relation, Set::empty().insert(world.loc_of(root).arch_id), Set::empty(), root)
}

/// Law: where the search of the hierarchy under `root` succeeds, it records the root's
/// archetype, visits the root, and visits every entity of every other archetype it records.
pub proof fn lemma_search_covers<'w, V, Q: Fetch<'w, V>, F: Fetch<'w, V>>(world: &'w World<V>, fetch: Filtered<Q, F>, relation: Entity, root: Entity)
    requires
        hierarchy_search(world, fetch, relation, root) is Some,
    ensures
        ({
            let (rec, vis) = hierarchy_search(world, fetch, relation, root)->0;
            &&& rec.contains(world.loc_of(root).arch_id)
            &&& vis.contains(root.id)
            &&& forall|a: usize, s: int| #![trigger rec.contains(a), world.archetypes@[a as int].entities@[s]]
                rec.contains(a) && a != world.loc_of(root).arch_id && a < world.archetypes@.len()
                    && 0 <= s < world.archetypes@[a as int].entities@.len() ==> vis.contains(world.archetypes@[a as int].entities@[s].id)
        }),
{
    let start = Set::<usize>::empty().insert(world.loc_of(root).arch_id);
    lemma_visit_covers(world, fetch, fetch.spec_required(), relation, start, Set::empty(), root);
    let (rec, vis) = hierarchy_search(world, fetch, relation, root)->0;
    assert forall|a: usize, s: int| #![trigger rec.contains(a), world.archetypes@[a as int].entities@[s]]
        rec.contains(a) && a != world.loc_of(root).arch_id && a < world.archetypes@.len()
            && 0 <= s < world.archetypes@[a as int].entities@.len() implies vis.contains(world.archetypes@[a as int].entities@[s].id) by {
        assert(!start.contains(a));
    }
}

/// The search of the hierarchy under `root` succeeds: the root exists, and the search from the
/// root's archetype reaches no archetype twice (nor an entity twice).
pub open spec fn hierarchy_ok<'w, V, Q: Fetch<'w, V>, F: Fetch<'w, V>>(world: &'w World<V>, fetch: Filtered<Q, F>, relation: Entity, root: Entity) -> bool {
    &&& world.alive(root)
    &&& hierarchy_search(world, fetch, relation, root) is Some
}

proof fn lemma_missing_insert(dom: Set<usize>, x: usize, k: usize)
    requires
        !dom.contains(x),
    ensures
        x < k ==> missing_count(dom.insert(x), k) + 1 == missing_count(dom, k),
        x >= k ==> missing_count(dom.insert(x), k) == missing_count(dom, k),
    decreases k,
{
    if k > 0 {
        lemma_missing_insert(dom, x, (k - 1) as usize);
        assert(dom.insert(x).contains((k - 1) as usize) == (dom.contains((k - 1) as usize) || x == (k - 1) as usize));
    }
}

proof fn lemma_missing_subset(a: Set<usize>, b: Set<usize>, k: usize)
    requires
        a.subset_of(b),
    ensures
        missing_count(b, k) <= missing_count(a, k),
    decreases k,
{
    if k > 0 {
        lemma_missing_subset(a, b, (k - 1) as usize);
    }
}

proof fn lemma_prefix_index<T>(a: Seq<T>, b: Seq<T>, j: int)
    requires
        a.is_prefix_of(b),
        0 <= j < a.len(),
    ensures
        a[j] == b[j],
{
    assert(a[j] == b.subrange(0, a.len() as int)[j]);
}

impl DfsState {
    /// No archetype is recorded.
    pub fn new() -> (r: DfsState)
        ensures
            r.archetypes@.len() == 0,
            r.archetypes_index@ == Map::<usize, usize>::empty(),
            r.adj@ == Map::<usize, Vec<usize>>::empty(),
    {
        DfsState { archetypes: Vec::new(), archetypes_index: BTreeMap::new(), adj: BTreeMap::new() }
    }

    /// The index maps each recorded archetype to its position, and nothing else.
    pub open spec fn index_ok(&self) -> bool {
        &&& forall|i: int| 0 <= i < self.archetypes@.len() ==> self.archetypes_index@.contains_key(#[trigger] self.archetypes@[i])
            && self.archetypes_index@[self.archetypes@[i]] == i
        &&& forall|a: usize| #[trigger] self.archetypes_index@.contains_key(a) ==> self.archetypes_index@[a] < self.archetypes@.len()
            && self.archetypes@[self.archetypes_index@[a] as int] == a
    }

    /// Every recorded archetype lies in the world.
    pub open spec fn in_world<V>(&self, world: &World<V>) -> bool {
        forall|i: int| 0 <= i < self.archetypes@.len() ==> #[trigger] self.archetypes@[i] < world.archetypes@.len()
    }

    /// Each visited entity lists exactly the recorded positions of the archetypes holding its
    /// children.
    pub open spec fn adj_ok<'w, V, Q: Fetch<'w, V>, F: Fetch<'w, V>>(&self, world: &'w World<V>, fetch: Filtered<Q, F>, relation: Entity) -> bool {
        forall|e: usize| #[trigger] self.adj@.contains_key(e) ==> {
            &&& forall|k: int| 0 <= k < self.adj@[e]@.len() ==> #[trigger] self.adj@[e]@[k] < self.archetypes@.len()
            &&& forall|a: usize| a < world.archetypes@.len() ==> ((#[trigger] child_match(world, fetch, relation, Entity { id: e }, a)) <==> (exists|k: int|
                0 <= k < self.adj@[e]@.len() && self.archetypes@[self.adj@[e]@[k] as int] == a))
        }
    }

    /// Records an archetype if it is new, returning its position.
    pub fn insert_arch(&mut self, arch_id: ArchetypeId) -> (r: usize)
        requires
            old(self).index_ok(),
        ensures
            final(self).index_ok(),
            final(self).adj == old(self).adj,
            old(self).archetypes_index@.contains_key(arch_id) ==> r == old(self).archetypes_index@[arch_id] && *final(self) == *old(self),
            !old(self).archetypes_index@.contains_key(arch_id) ==> r == old(self).archetypes@.len()
                && final(self).archetypes@ == old(self).archetypes@.push(arch_id)
                && final(self).archetypes_index@ == old(self).archetypes_index@.insert(arch_id, r),
    {
        match self.archetypes_index.get(&arch_id) {
            Some(i) => *i,
            None => {
                let idx = self.archetypes.len();
                self.archetypes.push(arch_id);
                self.archetypes_index.insert(arch_id, idx);
                idx
            },
        }
    }

    /// Forgets everything.
    pub fn clear(&mut self)
        ensures
            final(self).archetypes@.len() == 0,
            final(self).archetypes_index@ == Map::<usize, usize>::empty(),
            final(self).adj@ == Map::<usize, Vec<usize>>::empty(),
    {
        self.archetypes.clear();
        self.archetypes_index.clear();
        self.adj.clear();
    }
}

/// The archetypes of `ch` are exactly those among the first `i` candidates which hold children
/// of `parent` that the query visits.
pub open spec fn children_upto<'w, V, Q: Fetch<'w, V>, F: Fetch<'w, V>>(
    world: &'w World<V>,
    fetch: Filtered<Q, F>,
    relation: Entity,
    parent: Entity,
    candidates: Seq<usize>,
    i: int,
    ch: Seq<usize>,
    archs: Seq<usize>,
) -> bool {
    forall|a: usize| a < world.archetypes@.len() ==> ((#[trigger] child_match(world, fetch, relation, parent, a) && (exists|c: int|
        0 <= c < i && candidates[c] == a)) <==> (exists|k: int| 0 <= k < ch.len() && archs[ch[k] as int] == a))
}

proof fn lemma_children_upto<'w, V, Q: Fetch<'w, V>, F: Fetch<'w, V>>(
    world: &'w World<V>,
    fetch: Filtered<Q, F>,
    relation: Entity,
    parent: Entity,
    candidates: Seq<usize>,
    i: int,
    ch: Seq<usize>,
    archs: Seq<usize>,
    a: usize,
)
    requires
        children_upto(world, fetch, relation, parent, candidates, i, ch, archs),
        a < world.archetypes@.len(),
    ensures
        (child_match(world, fetch, relation, parent, a) && (exists|c: int| 0 <= c < i && candidates[c] == a)) <==> (exists|k: int|
            0 <= k < ch.len() && archs[ch[k] as int] == a),
{
}

#[verifier::rlimit(100)]
#[verifier::spinoff_prover]
/// Visits the children of `id`: records each archetype holding children of `id` which the query
/// visits, visits the entities of that archetype in turn, and lists the archetypes for `id`.
fn visit_children<'w, V, Q: Fetch<'w, V>, F: Fetch<'w, V>>(
    world: &'w World<V>,
    fetch: &Filtered<Q, F>,
    required: &Vec<ComponentKey>,
    relation: Entity,
    result: &mut DfsState,
    id: Entity,
) -> (r: Result<(), DfsError>)
    requires
        world.wf(),
        required@ == fetch.spec_required(),
        old(result).index_ok(),
        old(result).in_world(world),
        old(result).adj_ok(world, *fetch, relation),
    ensures
        final(result).index_ok(),
        final(result).in_world(world),
        final(result).adj_ok(world, *fetch, relation),
        old(result).archetypes@.is_prefix_of(final(result).archetypes@),
        old(result).archetypes_index@.dom().subset_of(final(result).archetypes_index@.dom()),
        forall|a: usize| #[trigger] old(result).archetypes_index@.contains_key(a) ==> final(result).archetypes_index@[a] == old(result).archetypes_index@[a],
        old(result).adj@.dom().subset_of(final(result).adj@.dom()),
        r is Ok ==> final(result).adj@.contains_key(id.id),
        hier_visit(world, *fetch, required@, relation, old(result).archetypes_index@.dom(), old(result).adj@.dom(), id) == (if r is Ok {
            Some((final(result).archetypes_index@.dom(), final(result).adj@.dom()))
        } else {
            None::<(Set<usize>, Set<usize>)>
        }),
    decreases missing_count(old(result).archetypes_index@.dom(), world.archetypes@.len() as usize),
{
    let mut searcher = ArchetypeSearcher { required: required.clone() };
    assert(searcher.required@ =~= required@);
    searcher.add_required(ComponentKey::new(relation, Some(id)));
    let candidates = searcher.find_archetypes(&world.archetypes);
    let n_arch = world.archetypes.len();
    let ghost n = n_arch;
    let ghost m0 = missing_count(old(result).archetypes_index@.dom(), n);
    let ghost s0 = old(result).archetypes_index@.dom();
    let ghost a0 = old(result).adj@.dom();
    proof {
        assert(candidates@.skip(0) =~= candidates@);
    }
    let mut children: Vec<usize> = Vec::new();
    let ghost mut pushed = false;
    let mut i: usize = 0;
    while i < candidates.len()
        invariant
            0 <= i <= candidates@.len(),
            world.wf(),
            n == world.archetypes@.len(),
            n as usize == n,
            required@ == fetch.spec_required(),
            searcher.required@ == fetch.spec_required().push(child_key(relation, id)),
            forall|a: int, b: int| 0 <= a < b < candidates@.len() ==> candidates@[a] < candidates@[b],
            forall|a: int| 0 <= a < candidates@.len() ==> #[trigger] candidates@[a] < n,
            forall|x: usize| x < n ==> (candidates@.contains(x) <==> has_all_keys(#[trigger] world.archetypes@[x as int], searcher.required@)),
            result.index_ok(),
            result.in_world(world),
            result.adj_ok(world, *fetch, relation),
            old(result).archetypes@.is_prefix_of(result.archetypes@),
            old(result).archetypes_index@.dom().subset_of(result.archetypes_index@.dom()),
            forall|a: usize| #[trigger] old(result).archetypes_index@.contains_key(a) ==> result.archetypes_index@[a] == old(result).archetypes_index@[a],
            old(result).adj@.dom().subset_of(result.adj@.dom()),
            m0 == missing_count(old(result).archetypes_index@.dom(), n),
            missing_count(result.archetypes_index@.dom(), n) <= m0,
            pushed ==> missing_count(result.archetypes_index@.dom(), n) < m0,
            forall|k: int| 0 <= k < children@.len() ==> #[trigger] children@[k] < result.archetypes@.len(),
            children_upto(world, *fetch, relation, id, candidates@, i as int, children@, result.archetypes@),
            candidates@ == matching_upto(world.archetypes@, required@.push(child_key(relation, id)), world.archetypes@.len()),
            s0 == old(result).archetypes_index@.dom(),
            a0 == old(result).adj@.dom(),
            hier_cands(world, *fetch, required@, relation, s0, a0, candidates@) == hier_cands(
                world, *fetch, required@, relation, result.archetypes_index@.dom(), result.adj@.dom(), candidates@.skip(i as int)),
        decreases candidates@.len() - i,
    {
        let arch_id = candidates[i];
        let ghost si = result.archetypes_index@.dom();
        let ghost ai = result.adj@.dom();
        proof {
            let ks = candidates@.skip(i as int);
            assert(ks[0] == arch_id);
            assert(ks.drop_first() =~= candidates@.skip(i + 1));
        }
        let arch: &'w Archetype<V> = &world.archetypes[arch_id];
        let ghost pre = result.archetypes@;
        let ghost ch0 = children@;
        assert(forall|k: int| 0 <= k < ch0.len() ==> #[trigger] ch0[k] < pre.len());
        assert(children_upto(world, *fetch, relation, id, candidates@, i as int, ch0, pre));
        if fetch.filter_arch(FetchAccessData { world, arch, arch_id }) {
            proof {
                assert(prepare_data(world, arch_id, 0, 0).spec_access_data() == FetchAccessData { world, arch, arch_id });
                assert(candidates@.contains(arch_id));
                assert(child_match(world, *fetch, relation, id, arch_id));
            }
            if result.archetypes_index.contains_key(&arch_id) {
                proof {
                    assert(hier_cands(world, *fetch, required@, relation, si, ai, candidates@.skip(i as int)) is None);
                }
                return Err(DfsError::Cycle(arch_id));
            }
            let ghost dom_before = result.archetypes_index@.dom();
            let idx = result.insert_arch(arch_id);
            proof {
                lemma_missing_insert(dom_before, arch_id, n);
                assert(result.archetypes_index@.dom() == dom_before.insert(arch_id));
                pushed = true;
            }
            let ghost s1 = result.archetypes_index@.dom();
            proof {
                assert(arch.entities@.skip(0) =~= arch.entities@);
            }
            let ghost arch_at = result.archetypes@;
            assert(pre.is_prefix_of(arch_at));
            let mut j: usize = 0;
            while j < arch.entities.len()
                invariant
                    0 <= j <= arch.entities@.len(),
                    i < candidates@.len(),
                    world.wf(),
                    n == world.archetypes@.len(),
                    n as usize == n,
                    required@ == fetch.spec_required(),
                    idx < arch_at.len(),
                    arch_at[idx as int] == arch_id,
                    arch_at.is_prefix_of(result.archetypes@),
                    result.index_ok(),
                    result.in_world(world),
                    result.adj_ok(world, *fetch, relation),
                    old(result).archetypes@.is_prefix_of(result.archetypes@),
                    old(result).archetypes_index@.dom().subset_of(result.archetypes_index@.dom()),
                    forall|a: usize| #[trigger] old(result).archetypes_index@.contains_key(a) ==> result.archetypes_index@[a] == old(result).archetypes_index@[a],
                    old(result).adj@.dom().subset_of(result.adj@.dom()),
                    missing_count(result.archetypes_index@.dom(), n) < m0,
                    m0 == missing_count(old(result).archetypes_index@.dom(), n),
                    pre.is_prefix_of(arch_at),
                    forall|k: int| 0 <= k < ch0.len() ==> #[trigger] ch0[k] < pre.len(),
                    children_upto(world, *fetch, relation, id, candidates@, i as int, ch0, pre),
                    *arch == world.archetypes@[arch_id as int],
                    candidates@ == matching_upto(world.archetypes@, required@.push(child_key(relation, id)), world.archetypes@.len()),
                    s0 == old(result).archetypes_index@.dom(),
                    a0 == old(result).adj@.dom(),
                    candidates@.skip(i as int)[0] == arch_id,
                    candidates@.skip(i as int).drop_first() == candidates@.skip(i + 1),
                    fetch.spec_filter_arch(prepare_data(world, arch_id, 0, 0).spec_access_data()),
                    !si.contains(arch_id),
                    s1 == si.insert(arch_id),
                    arch_id < n,
                    missing_count(s1, n) < missing_count(si, n),
                    s1.subset_of(result.archetypes_index@.dom()),
                    hier_cands(world, *fetch, required@, relation, s0, a0, candidates@) == hier_cands(
                        world, *fetch, required@, relation, si, ai, candidates@.skip(i as int)),
                    hier_ents(world, *fetch, required@, relation, s1, ai, arch.entities@) == hier_ents(
                        world, *fetch, required@, relation, result.archetypes_index@.dom(), result.adj@.dom(), arch.entities@.skip(j as int)),
                decreases arch.entities@.len() - j,
            {
                let e = arch.entities[j];
                let ghost before = *result;
                proof {
                    let es = arch.entities@.skip(j as int);
                    assert(es[0] == e);
                    assert(es.drop_first() =~= arch.entities@.skip(j + 1));
                }
                match visit_children(world, fetch, required, relation, result, e) {
                    Ok(()) => {},
                    Err(err) => {
                        proof {
                            assert(hier_ents(world, *fetch, required@, relation, s1, ai, arch.entities@) is None);
                            assert(hier_cands(world, *fetch, required@, relation, si, ai, candidates@.skip(i as int)) is None);
                        }
                        return Err(err);
                    },
                }
                proof {
                    lemma_missing_subset(before.archetypes_index@.dom(), result.archetypes_index@.dom(), n);
                }
                j += 1;
            }
            proof {
                assert(arch.entities@.skip(j as int) =~= Seq::<Entity>::empty());
                lemma_missing_subset(s1, result.archetypes_index@.dom(), n);
                assert(hier_cands(world, *fetch, required@, relation, si, ai, candidates@.skip(i as int)) == hier_cands(
                    world, *fetch, required@, relation, result.archetypes_index@.dom(), result.adj@.dom(), candidates@.skip(i + 1)));
            }
            let ghost children_before = children@;
            assert(children_before == ch0);
            children.push(idx);
            proof {
                assert forall|k: int| 0 <= k < children@.len() implies #[trigger] children@[k] < result.archetypes@.len() by {
                    if k < children_before.len() {
                        assert(children_before[k] < arch_at.len());
                    }
                }
                assert forall|a: usize| a < n implies ((#[trigger] child_match(world, *fetch, relation, id, a) && (exists|c: int|
                    0 <= c < i + 1 && candidates@[c] == a)) <==> (exists|k: int| 0 <= k < children@.len() && result.archetypes@[children@[k] as int] == a)) by {
                    lemma_children_upto(world, *fetch, relation, id, candidates@, i as int, ch0, pre, a);
                    if exists|k: int| 0 <= k < children@.len() && result.archetypes@[children@[k] as int] == a {
                        let k = choose|k: int| 0 <= k < children@.len() && result.archetypes@[children@[k] as int] == a;
                        if k < children_before.len() {
                            assert(children@[k] == children_before[k]);
                            assert(children_before[k] < pre.len());
                            lemma_prefix_index(pre, arch_at, children_before[k] as int);
                            lemma_prefix_index(arch_at, result.archetypes@, children_before[k] as int);
                            assert(pre[children_before[k] as int] == result.archetypes@[children_before[k] as int]);
                            assert(0 <= k < ch0.len() && pre[ch0[k] as int] == a);
                            assert(exists|k2: int| 0 <= k2 < ch0.len() && pre[ch0[k2] as int] == a);
                            assert(a < n);
                            lemma_children_upto(world, *fetch, relation, id, candidates@, i as int, ch0, pre, a);
                            assert(child_match(world, *fetch, relation, id, a) && (exists|c: int| 0 <= c < i && candidates@[c] == a));
                            let c = choose|c: int| 0 <= c < i && candidates@[c] == a;
                            assert(0 <= c < i + 1 && candidates@[c] == a);
                        } else {
                            assert(candidates@[i as int] == a);
                        }
                    }
                    if child_match(world, *fetch, relation, id, a) && (exists|c: int| 0 <= c < i + 1 && candidates@[c] == a) {
                        let c = choose|c: int| 0 <= c < i + 1 && candidates@[c] == a;
                        if c < i {
                            assert(exists|c2: int| 0 <= c2 < i && candidates@[c2] == a);
                            lemma_children_upto(world, *fetch, relation, id, candidates@, i as int, ch0, pre, a);
                            let k = choose|k: int| 0 <= k < children_before.len() && pre[children_before[k] as int] == a;
                            assert(children_before[k] < pre.len());
                            lemma_prefix_index(pre, arch_at, children_before[k] as int);
                            lemma_prefix_index(arch_at, result.archetypes@, children_before[k] as int);
                            assert(children@[k] == children_before[k]);
                            assert(result.archetypes@[children@[k] as int] == a);
                        } else {
                            assert(children@[children_before.len() as int] == idx);
                        }
                    }
                }
            }
        } else {
            proof {
                assert(prepare_data(world, arch_id, 0, 0).spec_access_data() == FetchAccessData { world, arch, arch_id });
                assert(!child_match(world, *fetch, relation, id, arch_id));
                assert(hier_cands(world, *fetch, required@, relation, si, ai, candidates@.skip(i as int)) == hier_cands(
                    world, *fetch, required@, relation, si, ai, candidates@.skip(i + 1)));
                assert forall|a: usize| a < n implies ((#[trigger] child_match(world, *fetch, relation, id, a) && (exists|c: int|
                    0 <= c < i + 1 && candidates@[c] == a)) <==> (exists|k: int| 0 <= k < children@.len() && result.archetypes@[children@[k] as int] == a)) by {
                    lemma_children_upto(world, *fetch, relation, id, candidates@, i as int, ch0, pre, a);
                    if child_match(world, *fetch, relation, id, a) && (exists|c: int| 0 <= c < i + 1 && candidates@[c] == a) {
                        let c = choose|c: int| 0 <= c < i + 1 && candidates@[c] == a;
                        assert(candidates@[i as int] == arch_id);
                        assert(c < i);
                        assert(exists|c2: int| 0 <= c2 < i && candidates@[c2] == a);
                        assert(exists|k: int| 0 <= k < children@.len() && result.archetypes@[children@[k] as int] == a);
                    }
                    if exists|k: int| 0 <= k < children@.len() && result.archetypes@[children@[k] as int] == a {
                        assert(child_match(world, *fetch, relation, id, a) && (exists|c: int| 0 <= c < i && candidates@[c] == a));
                        let c = choose|c: int| 0 <= c < i && candidates@[c] == a;
                        assert(0 <= c < i + 1 && candidates@[c] == a);
                    }
                }
            }
        }
        assert(children_upto(world, *fetch, relation, id, candidates@, (i + 1) as int, children@, result.archetypes@));
        i += 1;
    }
    proof {
        assert(candidates@.skip(i as int) =~= Seq::<usize>::empty());
    }
    if result.adj.contains_key(&id.id) {
        return Err(DfsError::Revisited(id));
    }
    let ghost before = *result;
    let ghost ch = children@;
    proof {
        assert forall|a: usize| a < n implies ((#[trigger] child_match(world, *fetch, relation, id, a)) <==> (exists|k: int|
            0 <= k < ch.len() && before.archetypes@[ch[k] as int] == a)) by {
            lemma_children_upto(world, *fetch, relation, id, candidates@, i as int, ch, before.archetypes@, a);
            if child_match(world, *fetch, relation, id, a) {
                assert(has_all_keys(world.archetypes@[a as int], searcher.required@));
                assert(candidates@.contains(a));
                let c = choose|c: int| 0 <= c < candidates@.len() && candidates@[c] == a;
                assert(exists|c2: int| 0 <= c2 < i && candidates@[c2] == a);
            }
        }
    }
    result.adj.insert(id.id, children);
    proof {
        assert(result.adj@.dom() =~= before.adj@.dom().insert(id.id));
        assert(result.adj@.contains_key(id.id) && result.adj@[id.id]@ == ch);
        assert(forall|e: usize| e != id.id ==> result.adj@.contains_key(e) == before.adj@.contains_key(e));
        assert forall|e: usize| #[trigger] result.adj@.contains_key(e) implies {
            &&& forall|k: int| 0 <= k < result.adj@[e]@.len() ==> #[trigger] result.adj@[e]@[k] < result.archetypes@.len()
            &&& forall|a: usize| a < world.archetypes@.len() ==> ((#[trigger] child_match(world, *fetch, relation, Entity { id: e }, a)) <==> (exists|k: int|
                0 <= k < result.adj@[e]@.len() && result.archetypes@[result.adj@[e]@[k] as int] == a))
        } by {
            if e == id.id {
                assert(Entity { id: e } == id);
                assert(result.adj@[e]@ == ch);
            } else {
                assert(before.adj@.contains_key(e));
                assert(result.adj@[e] == before.adj@[e]);
            }
        }
    }
    Ok(())
}


/// Iterates a hierarchy in depth-first order from a root, following a relation from children to
/// parents.
#[derive(Debug)]
pub struct Dfs {
    pub root: Entity,
    pub relation: Entity,
    pub archetype_gen: u32,
    pub state: DfsState,
}

/// The accesses of a fetch to each of the archetypes, in order.
pub open spec fn archetypes_access<'w, V, Q: Fetch<'w, V>, F: Fetch<'w, V>>(world: &'w World<V>, fetch: Filtered<Q, F>, ids: Seq<usize>) -> Seq<Access>
    decreases ids.len(),
{
    if ids.len() == 0 {
        Seq::empty()
    } else {
        archetypes_access(world, fetch, ids.drop_last()) + fetch.spec_access(prepare_data(world, ids.last(), 0, 0).spec_access_data())
    }
}

impl Dfs {
    /// A traversal of `relation` from `root` which has not searched the world yet.
    pub fn new(relation: Entity, root: Entity) -> (r: Dfs)
        ensures
            r.root == root,
            r.relation == relation,
            r.archetype_gen == 0,
            r.state.archetypes@.len() == 0,
            r.state.archetypes_index@ == Map::<usize, usize>::empty(),
            r.state.adj@ == Map::<usize, Vec<usize>>::empty(),
    {
        Dfs { relation, root, archetype_gen: 0, state: DfsState::new() }
    }

    /// Records the archetypes of the hierarchy under `root`, the archetype of the root first,
    /// and for each visited entity the archetypes of its children.
    pub fn update_state<'w, V, Q: Fetch<'w, V>, F: Fetch<'w, V>>(
        relation: Entity,
        root: Entity,
        result: &mut DfsState,
        world: &'w World<V>,
        fetch: &Filtered<Q, F>,
    ) -> (r: Result<(), DfsError>)
        requires
            world.wf(),
        ensures
            !world.alive(root) ==> r == Err::<(), DfsError>(DfsError::NoSuchEntity(root)),
            r is Ok <==> hierarchy_ok(world, *fetch, relation, root),
            r is Ok ==> {
                &&& hierarchy_search(world, *fetch, relation, root) == Some((final(result).archetypes_index@.dom(), final(result).adj@.dom()))
                &&& final(result).index_ok()
                &&& final(result).in_world(world)
                &&& final(result).adj_ok(world, *fetch, relation)
                &&& final(result).archetypes@.len() > 0
                &&& final(result).archetypes@[0] == world.loc_of(root).arch_id
                &&& final(result).adj@.contains_key(root.id)
            },
    {
        result.clear();
        let mut searcher = ArchetypeSearcher::new();
        fetch.searcher(&mut searcher);
        assert(searcher.required@ =~= fetch.spec_required());
        let loc = match world.location(root) {
            Ok(l) => l,
            Err(_) => {
                return Err(DfsError::NoSuchEntity(root));
            },
        };
        proof {
            assert(result.index_ok());
        }
        result.insert_arch(loc.arch_id);
        proof {
            assert(result.archetypes_index@.dom() =~= Set::<usize>::empty().insert(loc.arch_id));
            assert(result.adj@.dom() =~= Set::<usize>::empty());
            assert(result.in_world(world));
            assert(result.adj_ok(world, *fetch, relation));
        }
        let ghost first = result.archetypes@;
        let r = visit_children(world, fetch, &searcher.required, relation, result, root);
        proof {
            if r is Ok {
                lemma_prefix_index(first, result.archetypes@, 0);
            }
        }
        r
    }

    /// The accesses of a traversal: those of the fetch to each archetype of the hierarchy, then a
    /// shared access to the world.
    pub fn access<'w, V, Q: Fetch<'w, V>, F: Fetch<'w, V>>(&self, world: &'w World<V>, fetch: &Filtered<Q, F>) -> (r: Result<Vec<Access>, DfsError>)
        requires
            world.wf(),
        ensures
            !world.alive(self.root) ==> r == Err::<Vec<Access>, DfsError>(DfsError::NoSuchEntity(self.root)),
            r is Ok <==> hierarchy_ok(world, *fetch, self.relation, self.root),
            r matches Ok(v) ==> exists|s: DfsState| #[trigger] s.index_ok() && s.in_world(world) && s.adj_ok(world, *fetch, self.relation)
                && s.archetypes@.len() > 0 && s.archetypes@[0] == world.loc_of(self.root).arch_id
                && hierarchy_search(world, *fetch, self.relation, self.root) == Some((s.archetypes_index@.dom(), s.adj@.dom()))
                && v@ == archetypes_access(world, *fetch, s.archetypes@).push(Access { kind: AccessKind::World, mutable: false }),
    {
        let mut state = DfsState::new();
        match Self::update_state(self.relation, self.root, &mut state, world, fetch) {
            Ok(()) => {},
            Err(e) => {
                return Err(e);
            },
        }
        let mut out: Vec<Access> = Vec::new();
        let mut i: usize = 0;
        while i < state.archetypes.len()
            invariant
                0 <= i <= state.archetypes@.len(),
                world.wf(),
                state.in_world(world),
                out@ == archetypes_access(world, *fetch, state.archetypes@.subrange(0, i as int)),
            decreases state.archetypes@.len() - i,
        {
            let arch_id = state.archetypes[i];
            let arch: &'w Archetype<V> = &world.archetypes[arch_id];
            proof {
                assert(state.archetypes@.subrange(0, i + 1).drop_last() =~= state.archetypes@.subrange(0, i as int));
                assert(prepare_data(world, arch_id, 0, 0).spec_access_data() == FetchAccessData { world, arch, arch_id });
            }
            fetch.access(FetchAccessData { world, arch, arch_id }, &mut out);
            i += 1;
        }
        assert(state.archetypes@.subrange(0, i as int) =~= state.archetypes@);
        out.push(Access { kind: AccessKind::World, mutable: false });
        Ok(out)
    }
}

} // verus!
