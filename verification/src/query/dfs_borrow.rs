use vstd::prelude::*;

use std::collections::BTreeMap;

use crate::archetype::Archetype;
use crate::entity::Entity;
use crate::fetch::base::{small_slots, Fetch};
use crate::fetch::prepared::PreparedFetch;
use crate::filter::iter::{batch_rows, collect_rows, lemma_rows_items, spec_rows};
use crate::hierarchy::dfs_borrow::{root_ok, root_rows, single, take_at, DfsIter};
use crate::query::borrow::{arch_matches, PreparedArchetype, QueryBorrowState};
use crate::hierarchy::dfs::DfsError;
use crate::query::dfs::{Dfs, ForestState};
use crate::query::world_iterable;
use crate::slice::Slice;
use crate::world::World;
use crate::query::children::{child_positions, children_slice, Children};
use crate::query::planar::all_slots;

verus! {

broadcast use {vstd::std_specs::btree::group_btree_axioms, vstd::laws_cmp::group_laws_cmp};

/// The number of entries of `s` which are still present.
pub open spec fn count_some<T>(s: Seq<Option<T>>) -> nat
    decreases s.len(),
{
    if s.len() == 0 {
        0
    } else {
        count_some(s.drop_last()) + if s.last() is Some {
            1nat
        } else {
            0nat
        }
    }
}

/// Taking a present entry leaves one fewer.
pub proof fn lemma_count_take<T>(s: Seq<Option<T>>, c: int)
    requires
        0 <= c < s.len(),
        s[c] is Some,
    ensures
        count_some(s.update(c, None)) + 1 == count_some(s),
    decreases s.len(),
{
    if c == s.len() - 1 {
        assert(s.update(c, None).drop_last() =~= s.drop_last());
    } else {
        lemma_count_take(s.drop_last(), c);
        assert(s.update(c, None).drop_last() =~= s.drop_last().update(c, None));
    }
}

/// The positions of the archetypes holding the children of the entity in `slot`, in the order a
/// traversal enters them: reversed where `rev`.
pub open spec fn forest_kids_of<V>(edges: Map<usize, Children>, arch: Archetype<V>, slot: usize, rev: bool) -> Seq<usize> {
    if slot < arch.entities@.len() && edges.contains_key(arch.entities@[slot as int].id) {
        let k = child_positions(edges[arch.entities@[slot as int].id]);
        if rev {
            k.reverse()
        } else {
            k
        }
    } else {
        Seq::empty()
    }
}

/// Every fetch still prepared iterates over the slots of its archetype to the end.
pub open spec fn forest_rows_ok<'w, Q: PreparedFetch<'w>, F: PreparedFetch<'w>, V>(pre: Seq<Option<PreparedArchetype<'w, Q, F, V>>>) -> bool {
    forall|c: int| 0 <= c < pre.len() && (#[trigger] pre[c]) is Some ==> spec_rows(pre[c]->0.fetch, all_slots(*pre[c]->0.arch)).0
}

/// The steps of a depth-first traversal from `rows`, the rows of `arch`: each row is followed by
/// the steps of the archetypes holding its children, before the next row. A step holds the row's
/// item, the position of its parent's step (`parent` for the rows themselves), the archetype and
/// the slot it came from; the first step lies at position `base`. Each archetype is entered at
/// most once, taken from `pre`; the second part is what is left of `pre`.
pub open spec fn forest_rows<'w, Q: PreparedFetch<'w>, F: PreparedFetch<'w>, V>(
    edges: Map<usize, Children>,
    rev: bool,
    pre: Seq<Option<PreparedArchetype<'w, Q, F, V>>>,
    arch: Archetype<V>,
    rows: Seq<(usize, Q::Item)>,
    parent: Option<usize>,
    base: int,
) -> (Seq<(Q::Item, Option<usize>)>, Seq<Option<PreparedArchetype<'w, Q, F, V>>>)
    decreases count_some(pre), 1int, rows.len(),
{
    if rows.len() == 0 {
        (Seq::empty(), pre)
    } else {
        let slot = rows[0].0;
        let item = rows[0].1;
        let kids = forest_kids::<Q, F, V>(edges, rev, pre, forest_kids_of(edges, arch, slot, rev), Some(base as usize), base + 1);
        if count_some(kids.1) <= count_some(pre) {
            let rest = forest_rows::<Q, F, V>(edges, rev, kids.1, arch, rows.drop_first(), parent, base + 1 + kids.0.len());
            (seq![(item, parent)] + kids.0 + rest.0, rest.1)
        } else {
            (seq![(item, parent)] + kids.0, kids.1)
        }
    }
}

/// The steps of a depth-first traversal of the archetypes at the positions `kids`, in order:
/// those of every row each archetype yields. See [`forest_rows`].
pub open spec fn forest_kids<'w, Q: PreparedFetch<'w>, F: PreparedFetch<'w>, V>(
    edges: Map<usize, Children>,
    rev: bool,
    pre: Seq<Option<PreparedArchetype<'w, Q, F, V>>>,
    kids: Seq<usize>,
    parent: Option<usize>,
    base: int,
) -> (Seq<(Q::Item, Option<usize>)>, Seq<Option<PreparedArchetype<'w, Q, F, V>>>)
    decreases count_some(pre), 0int, kids.len(),
{
    if kids.len() == 0 {
        (Seq::empty(), pre)
    } else {
        let c = kids[0] as int;
        if c < pre.len() && pre[c] is Some && count_some(pre.update(c, None)) < count_some(pre) {
            let p = pre[c]->0;
            let sub = forest_rows::<Q, F, V>(edges, rev, pre.update(c, None), *p.arch, spec_rows(p.fetch, all_slots(*p.arch)).1, parent, base);
            if count_some(sub.1) < count_some(pre) {
                let rest = forest_kids::<Q, F, V>(edges, rev, sub.1, kids.drop_first(), parent, base + sub.0.len());
                (sub.0 + rest.0, rest.1)
            } else {
                sub
            }
        } else {
            forest_kids::<Q, F, V>(edges, rev, pre, kids.drop_first(), parent, base)
        }
    }
}

/// A traversal only takes archetypes from `pre`: it leaves no more than it was given, keeps the
/// length, and leaves every fetch it does not take as it was.
pub proof fn lemma_forest_rows_count<'w, Q: PreparedFetch<'w>, F: PreparedFetch<'w>, V>(
    edges: Map<usize, Children>,
    rev: bool,
    pre: Seq<Option<PreparedArchetype<'w, Q, F, V>>>,
    arch: Archetype<V>,
    rows: Seq<(usize, Q::Item)>,
    parent: Option<usize>,
    base: int,
)
    ensures
        ({
            let r = forest_rows::<Q, F, V>(edges, rev, pre, arch, rows, parent, base);
            &&& count_some(r.1) <= count_some(pre)
            &&& r.1.len() == pre.len()
            &&& forall|c: int| 0 <= c < pre.len() && (#[trigger] r.1[c]) is Some ==> r.1[c] == pre[c]
        }),
    decreases count_some(pre), 1int, rows.len(),
{
    if rows.len() > 0 {
        let slot = rows[0].0;
        let kids = forest_kids::<Q, F, V>(edges, rev, pre, forest_kids_of(edges, arch, slot, rev), Some(base as usize), base + 1);
        lemma_forest_kids_count::<Q, F, V>(edges, rev, pre, forest_kids_of(edges, arch, slot, rev), Some(base as usize), base + 1);
        lemma_forest_rows_count::<Q, F, V>(edges, rev, kids.1, arch, rows.drop_first(), parent, base + 1 + kids.0.len());
    }
}

/// See [`lemma_forest_rows_count`].
pub proof fn lemma_forest_kids_count<'w, Q: PreparedFetch<'w>, F: PreparedFetch<'w>, V>(
    edges: Map<usize, Children>,
    rev: bool,
    pre: Seq<Option<PreparedArchetype<'w, Q, F, V>>>,
    kids: Seq<usize>,
    parent: Option<usize>,
    base: int,
)
    ensures
        ({
            let r = forest_kids::<Q, F, V>(edges, rev, pre, kids, parent, base);
            &&& count_some(r.1) <= count_some(pre)
            &&& r.1.len() == pre.len()
            &&& forall|c: int| 0 <= c < pre.len() && (#[trigger] r.1[c]) is Some ==> r.1[c] == pre[c]
        }),
    decreases count_some(pre), 0int, kids.len(),
{
    if kids.len() > 0 {
        let c = kids[0] as int;
        if c < pre.len() && pre[c] is Some && count_some(pre.update(c, None)) < count_some(pre) {
            let p = pre[c]->0;
            let pre2 = pre.update(c, None);
            let sub = forest_rows::<Q, F, V>(edges, rev, pre2, *p.arch, spec_rows(p.fetch, all_slots(*p.arch)).1, parent, base);
            lemma_forest_rows_count::<Q, F, V>(edges, rev, pre2, *p.arch, spec_rows(p.fetch, all_slots(*p.arch)).1, parent, base);
            if count_some(sub.1) < count_some(pre) {
                lemma_forest_kids_count::<Q, F, V>(edges, rev, sub.1, kids.drop_first(), parent, base + sub.0.len());
            }
        } else {
            lemma_forest_kids_count::<Q, F, V>(edges, rev, pre, kids.drop_first(), parent, base);
        }
    }
}

/// The positions of a list, reversed where `rev`.
fn ordered(list: &[usize], rev: bool) -> (r: Vec<usize>)
    ensures
        r@ == if rev {
            list@.reverse()
        } else {
            list@
        },
{
    let mut out: Vec<usize> = Vec::new();
    let n = list.len();
    let mut i: usize = 0;
    while i < n
        invariant
            n == list@.len(),
            0 <= i <= n,
            out@.len() == i,
            forall|k: int| 0 <= k < i ==> #[trigger] out@[k] == if rev {
                list@[n - 1 - k]
            } else {
                list@[k]
            },
        decreases n - i,
    {
        if rev {
            out.push(list[n - 1 - i]);
        } else {
            out.push(list[i]);
        }
        i += 1;
    }
    proof {
        if rev {
            assert(out@ =~= list@.reverse());
        } else {
            assert(out@ =~= list@);
        }
    }
    out
}

/// The positions of the archetypes holding the children of the entity in `slot`, in the order a
/// traversal enters them.
fn kids_at<V>(edges: &BTreeMap<usize, Children>, arch: &Archetype<V>, slot: usize, rev: bool) -> (r: Vec<usize>)
    ensures
        r@ == forest_kids_of(edges@, *arch, slot, rev),
{
    match arch.entity(slot) {
        Some(e) => match edges.get(&e.id) {
            Some(list) => ordered(children_slice(list), rev),
            None => Vec::new(),
        },
        None => Vec::new(),
    }
}

/// Appends the steps of [`forest_rows`] to `out`, taking the archetypes it enters from
/// `prepared`.
fn walk_rows<'w, Q: PreparedFetch<'w>, F: PreparedFetch<'w>, V>(
    edges: &BTreeMap<usize, Children>,
    rev: bool,
    prepared: &mut Vec<Option<PreparedArchetype<'w, Q, F, V>>>,
    arch: &'w Archetype<V>,
    rows: Vec<(usize, Q::Item)>,
    parent: Option<usize>,
    out: &mut Vec<(Q::Item, Option<usize>)>,
)
    requires
        forest_rows_ok(old(prepared)@),
    ensures
        forest_rows_ok(final(prepared)@),
        ({
            let r = forest_rows::<Q, F, V>(edges@, rev, old(prepared)@, *arch, rows@, parent, old(out)@.len() as int);
            final(out)@ == old(out)@ + r.0 && final(prepared)@ == r.1
        }),
    decreases count_some(old(prepared)@), 1int, rows@.len(),
{
    let ghost goal = forest_rows::<Q, F, V>(edges@, rev, old(prepared)@, *arch, rows@, parent, old(out)@.len() as int);
    let ghost out0 = old(out)@;
    let ghost len0 = rows@.len();
    let ghost count0 = count_some(old(prepared)@);
    let mut rows = rows;
    while rows.len() > 0
        invariant
            forest_rows_ok(prepared@),
            rows@.len() <= len0,
            count_some(prepared@) <= count0,
            count0 == count_some(old(prepared)@),
            ({
                let r = forest_rows::<Q, F, V>(edges@, rev, prepared@, *arch, rows@, parent, out@.len() as int);
                out0 + goal.0 == out@ + r.0 && goal.1 == r.1
            }),
        decreases rows@.len(),
    {
        let ghost pre0 = prepared@;
        let ghost rows0 = rows@;
        let ghost o0 = out@;
        let (slot, item) = rows.remove(0);
        assert(rows@ =~= rows0.drop_first());
        let pos = out.len();
        out.push((item, parent));
        let kids = kids_at(edges, arch, slot, rev);
        let ghost kids_spec = forest_kids::<Q, F, V>(edges@, rev, pre0, kids@, Some(pos), pos + 1);
        proof {
            lemma_forest_kids_count::<Q, F, V>(edges@, rev, pre0, kids@, Some(pos), pos + 1);
        }
        walk_kids(edges, rev, prepared, &kids, Some(pos), out);
        proof {
            assert(out@ =~= o0 + seq![(item, parent)] + kids_spec.0);
            assert(prepared@ == kids_spec.1);
            let rest = forest_rows::<Q, F, V>(edges@, rev, kids_spec.1, *arch, rows@, parent, pos + 1 + kids_spec.0.len());
            assert(forest_rows::<Q, F, V>(edges@, rev, pre0, *arch, rows0, parent, pos as int).0 == seq![(item, parent)] + kids_spec.0 + rest.0);
            assert(o0 + (seq![(item, parent)] + kids_spec.0 + rest.0) =~= out@ + rest.0);
        }
    }
    proof {
        let r = forest_rows::<Q, F, V>(edges@, rev, prepared@, *arch, rows@, parent, out@.len() as int);
        assert(r.0.len() == 0 && r.1 == prepared@);
        assert(out0 + goal.0 =~= out@);
    }
}

/// Appends the steps of [`forest_kids`] to `out`, taking the archetypes it enters from
/// `prepared`.
fn walk_kids<'w, Q: PreparedFetch<'w>, F: PreparedFetch<'w>, V>(
    edges: &BTreeMap<usize, Children>,
    rev: bool,
    prepared: &mut Vec<Option<PreparedArchetype<'w, Q, F, V>>>,
    kids: &Vec<usize>,
    parent: Option<usize>,
    out: &mut Vec<(Q::Item, Option<usize>)>,
)
    requires
        forest_rows_ok(old(prepared)@),
    ensures
        forest_rows_ok(final(prepared)@),
        ({
            let r = forest_kids::<Q, F, V>(edges@, rev, old(prepared)@, kids@, parent, old(out)@.len() as int);
            final(out)@ == old(out)@ + r.0 && final(prepared)@ == r.1
        }),
    decreases count_some(old(prepared)@), 0int, kids@.len(),
{
    let ghost goal = forest_kids::<Q, F, V>(edges@, rev, old(prepared)@, kids@, parent, old(out)@.len() as int);
    let ghost out0 = old(out)@;
    let ghost count0 = count_some(old(prepared)@);
    let mut i: usize = 0;
    assert(kids@.skip(0) =~= kids@);
    while i < kids.len()
        invariant
            0 <= i <= kids@.len(),
            forest_rows_ok(prepared@),
            count_some(prepared@) <= count0,
            count0 == count_some(old(prepared)@),
            ({
                let r = forest_kids::<Q, F, V>(edges@, rev, prepared@, kids@.skip(i as int), parent, out@.len() as int);
                out0 + goal.0 == out@ + r.0 && goal.1 == r.1
            }),
        decreases kids@.len() - i,
    {
        let ghost pre0 = prepared@;
        let ghost o0 = out@;
        let ghost ks = kids@.skip(i as int);
        assert(ks[0] == kids@[i as int]);
        assert(ks.drop_first() =~= kids@.skip(i + 1));
        let c = kids[i];
        if c < prepared.len() {
            match take_at(prepared, c) {
                Some(p) => {
                    proof {
                        lemma_count_take(pre0, c as int);
                    }
                    let arch_c: &'w Archetype<V> = p.arch;
                    let fetch = p.fetch;
                    let slots = arch_c.slots();
                    assert(slots == all_slots(*arch_c));
                    assert(spec_rows(fetch, slots).0);
                    let rows = collect_rows(fetch, slots);
                    proof {
                        lemma_forest_rows_count::<Q, F, V>(edges@, rev, prepared@, *arch_c, rows@, parent, o0.len() as int);
                        assert forall|k: int| 0 <= k < prepared@.len() && (#[trigger] prepared@[k]) is Some implies spec_rows(
                            prepared@[k]->0.fetch,
                            all_slots(*prepared@[k]->0.arch),
                        ).0 by {
                            assert(prepared@[k] == pre0[k]);
                        }
                    }
                    walk_rows(edges, rev, prepared, arch_c, rows, parent, out);
                },
                None => {
                    assert(prepared@ =~= pre0);
                },
            }
        }
        proof {
            assert(out@ =~= o0 + (out@.subrange(o0.len() as int, out@.len() as int)));
            let r = forest_kids::<Q, F, V>(edges@, rev, pre0, ks, parent, o0.len() as int);
            let rest = forest_kids::<Q, F, V>(edges@, rev, prepared@, kids@.skip(i + 1), parent, out@.len() as int);
            assert(o0 + r.0 == out@ + rest.0 && r.1 == rest.1) by {
                if (c as int) < pre0.len() && pre0[c as int] is Some {
                    let p = pre0[c as int]->0;
                    let sub = forest_rows::<Q, F, V>(edges@, rev, pre0.update(c as int, None), *p.arch, spec_rows(p.fetch, all_slots(*p.arch)).1, parent, o0.len() as int);
                    assert(out@ =~= o0 + sub.0);
                    assert(o0 + (sub.0 + rest.0) =~= out@ + rest.0);
                } else {
                    assert(out@ =~= o0);
                }
            }
        }
        i += 1;
    }
    proof {
        assert(kids@.skip(i as int) =~= Seq::<usize>::empty());
        assert(out0 + goal.0 =~= out@);
    }
}

/// Law: in the steps of a depth-first traversal, the parent of each step is `parent` or a step
/// that comes before it.
pub proof fn lemma_forest_rows_parents<'w, Q: PreparedFetch<'w>, F: PreparedFetch<'w>, V>(
    edges: Map<usize, Children>,
    rev: bool,
    pre: Seq<Option<PreparedArchetype<'w, Q, F, V>>>,
    arch: Archetype<V>,
    rows: Seq<(usize, Q::Item)>,
    parent: Option<usize>,
    base: int,
)
    requires
        0 <= base,
        base + forest_rows::<Q, F, V>(edges, rev, pre, arch, rows, parent, base).0.len() <= usize::MAX,
    ensures
        ({
            let nodes = forest_rows::<Q, F, V>(edges, rev, pre, arch, rows, parent, base).0;
            forall|k: int| 0 <= k < nodes.len() ==> (#[trigger] nodes[k]).1 == parent || (nodes[k].1 is Some && base <= nodes[k].1->0 < base + k)
        }),
    decreases count_some(pre), 1int, rows.len(),
{
    if rows.len() > 0 {
        let slot = rows[0].0;
        let item = rows[0].1;
        let kids = forest_kids::<Q, F, V>(edges, rev, pre, forest_kids_of(edges, arch, slot, rev), Some(base as usize), base + 1);
        let nodes = forest_rows::<Q, F, V>(edges, rev, pre, arch, rows, parent, base).0;
        lemma_forest_kids_count::<Q, F, V>(edges, rev, pre, forest_kids_of(edges, arch, slot, rev), Some(base as usize), base + 1);
        let rest = forest_rows::<Q, F, V>(edges, rev, kids.1, arch, rows.drop_first(), parent, base + 1 + kids.0.len());
        assert(nodes == seq![(item, parent)] + kids.0 + rest.0);
        lemma_forest_kids_parents::<Q, F, V>(edges, rev, pre, forest_kids_of(edges, arch, slot, rev), Some(base as usize), base + 1);
        lemma_forest_rows_parents::<Q, F, V>(edges, rev, kids.1, arch, rows.drop_first(), parent, base + 1 + kids.0.len());
        assert forall|k: int| 0 <= k < nodes.len() implies (#[trigger] nodes[k]).1 == parent || (nodes[k].1 is Some && base <= nodes[k].1->0 < base + k) by {
            if k == 0 {
            } else if k < 1 + kids.0.len() {
                assert(nodes[k] == kids.0[k - 1]);
            } else {
                assert(nodes[k] == rest.0[k - 1 - kids.0.len()]);
            }
        }
    }
}

/// Law: in the steps of a depth-first traversal of archetypes, the parent of each step is
/// `parent` or a step that comes before it.
pub proof fn lemma_forest_kids_parents<'w, Q: PreparedFetch<'w>, F: PreparedFetch<'w>, V>(
    edges: Map<usize, Children>,
    rev: bool,
    pre: Seq<Option<PreparedArchetype<'w, Q, F, V>>>,
    kids: Seq<usize>,
    parent: Option<usize>,
    base: int,
)
    requires
        0 <= base,
        base + forest_kids::<Q, F, V>(edges, rev, pre, kids, parent, base).0.len() <= usize::MAX,
    ensures
        ({
            let nodes = forest_kids::<Q, F, V>(edges, rev, pre, kids, parent, base).0;
            forall|k: int| 0 <= k < nodes.len() ==> (#[trigger] nodes[k]).1 == parent || (nodes[k].1 is Some && base <= nodes[k].1->0 < base + k)
        }),
    decreases count_some(pre), 0int, kids.len(),
{
    if kids.len() > 0 {
        let c = kids[0] as int;
        let nodes = forest_kids::<Q, F, V>(edges, rev, pre, kids, parent, base).0;
        if c < pre.len() && pre[c] is Some && count_some(pre.update(c, None)) < count_some(pre) {
            let p = pre[c]->0;
            let pre2 = pre.update(c, None);
            let rows = spec_rows(p.fetch, all_slots(*p.arch)).1;
            let sub = forest_rows::<Q, F, V>(edges, rev, pre2, *p.arch, rows, parent, base);
            lemma_forest_rows_count::<Q, F, V>(edges, rev, pre2, *p.arch, rows, parent, base);
            if count_some(sub.1) < count_some(pre) {
                let rest = forest_kids::<Q, F, V>(edges, rev, sub.1, kids.drop_first(), parent, base + sub.0.len());
                assert(nodes == sub.0 + rest.0);
                lemma_forest_rows_parents::<Q, F, V>(edges, rev, pre2, *p.arch, rows, parent, base);
                lemma_forest_kids_parents::<Q, F, V>(edges, rev, sub.1, kids.drop_first(), parent, base + sub.0.len());
                assert forall|k: int| 0 <= k < nodes.len() implies (#[trigger] nodes[k]).1 == parent || (nodes[k].1 is Some && base <= nodes[k].1->0 < base + k) by {
                    if k < sub.0.len() {
                        assert(nodes[k] == sub.0[k]);
                    } else {
                        assert(nodes[k] == rest.0[k - sub.0.len()]);
                    }
                }
            } else {
                lemma_forest_rows_parents::<Q, F, V>(edges, rev, pre2, *p.arch, rows, parent, base);
            }
        } else {
            lemma_forest_kids_parents::<Q, F, V>(edges, rev, pre, kids.drop_first(), parent, base);
        }
    }
}

/// The positions of the root archetypes, in the order a traversal enters them: reversed where
/// `rev`.
pub open spec fn roots_in_order(roots: Seq<usize>, rev: bool) -> Seq<usize> {
    if rev {
        roots.reverse()
    } else {
        roots
    }
}

/// A query borrowed for a depth-first traversal of the hierarchies of a relation: a fetch
/// prepared for each visited archetype, the archetypes holding the children of each entity, and
/// the archetypes holding the roots.
pub struct DfsBorrow<'w, Q, F, V> {
    pub prepared: Vec<Option<PreparedArchetype<'w, Q, F, V>>>,
    pub edges: &'w BTreeMap<usize, Children>,
    pub roots: &'w Vec<usize>,
    pub archetypes_index: &'w BTreeMap<usize, usize>,
    pub world: &'w World<V>,
}

impl<'w, Q: PreparedFetch<'w>, F: PreparedFetch<'w>, V> DfsBorrow<'w, Q, F, V> {
    /// The borrow can be traversed: every prepared fetch iterates over its archetype to the end
    /// and can fetch any single slot of it, and the index tells where each visited archetype
    /// lies.
    pub open spec fn ready(&self) -> bool {
        &&& self.world.wf()
        &&& forest_rows_ok(self.prepared@)
        &&& forall|c: int, slot: usize| 0 <= c < self.prepared@.len() && (#[trigger] self.prepared@[c]) is Some
            && slot < self.prepared@[c]->0.arch.entities@.len() ==> #[trigger] root_ok(self.prepared@[c]->0, slot)
        &&& forall|a: usize| #[trigger] self.archetypes_index@.contains_key(a) ==> self.archetypes_index@[a] < self.prepared@.len()
            && (self.prepared@[self.archetypes_index@[a] as int] matches Some(p) && p.arch_id == a
                && *p.arch == self.world.archetypes@[a as int])
    }

    /// The steps of a traversal of all hierarchies: the entities of each root archetype, each
    /// followed depth first by the entities under it; each with its item and the position of its
    /// parent's step. Where `rev`, the archetypes under an entity, and the root archetypes, are
    /// entered last first.
    pub open spec fn spec_steps(&self, rev: bool) -> Seq<(Q::Item, Option<usize>)> {
        forest_kids::<Q, F, V>(self.edges@, rev, self.prepared@, roots_in_order(self.roots@, rev), None, 0).0
    }

    /// The steps of a traversal of the hierarchy under `root`: the root, where the query yields
    /// it, then depth first the entities under it. Empty where `root` does not exist or the
    /// traversal does not visit its archetype.
    pub open spec fn spec_steps_from(&self, root: Entity, rev: bool) -> Seq<(Q::Item, Option<usize>)> {
        if !self.world.alive(root) || !self.archetypes_index@.contains_key(self.world.loc_of(root).arch_id) {
            Seq::empty()
        } else {
            let loc = self.world.loc_of(root);
            let idx = self.archetypes_index@[loc.arch_id] as int;
            match self.prepared@[idx] {
                Some(p) => forest_rows::<Q, F, V>(self.edges@, rev, self.prepared@.update(idx, None), *p.arch, root_rows(p, loc.slot), None, 0).0,
                None => Seq::empty(),
            }
        }
    }

    /// The steps of a traversal of all hierarchies, in order.
    fn steps(self, rev: bool) -> (r: Vec<(Q::Item, Option<usize>)>)
        requires
            self.ready(),
        ensures
            r@ == self.spec_steps(rev),
    {
        let edges: &'w BTreeMap<usize, Children> = self.edges;
        let roots = ordered(self.roots.as_slice(), rev);
        let mut prepared = self.prepared;
        let mut out: Vec<(Q::Item, Option<usize>)> = Vec::new();
        walk_kids(edges, rev, &mut prepared, &roots, None, &mut out);
        assert(out@ =~= Seq::<(Q::Item, Option<usize>)>::empty() + self.spec_steps(rev));
        out
    }

    /// The steps of a traversal of the hierarchy under `root`, in order.
    fn steps_from(self, root: Entity, rev: bool) -> (r: Vec<(Q::Item, Option<usize>)>)
        requires
            self.ready(),
        ensures
            r@ == self.spec_steps_from(root, rev),
    {
        let world: &'w World<V> = self.world;
        let mut out: Vec<(Q::Item, Option<usize>)> = Vec::new();
        let loc = match world.location(root) {
            Ok(l) => l,
            Err(_) => {
                return out;
            },
        };
        let idx = match self.archetypes_index.get(&loc.arch_id) {
            Some(i) => *i,
            None => {
                return out;
            },
        };
        let edges: &'w BTreeMap<usize, Children> = self.edges;
        let slot = loc.slot;
        let ghost pre0 = self.prepared@;
        let mut prepared = self.prepared;
        match take_at(&mut prepared, idx) {
            Some(p) => {
                assert(root_ok(p, slot));
                let arch: &'w Archetype<V> = p.arch;
                let rows = single_rows(p, slot);
                proof {
                    assert forall|c: int| 0 <= c < prepared@.len() && (#[trigger] prepared@[c]) is Some implies spec_rows(
                        prepared@[c]->0.fetch,
                        all_slots(*prepared@[c]->0.arch),
                    ).0 by {
                        assert(prepared@[c] == pre0[c]);
                    }
                }
                walk_rows(edges, rev, &mut prepared, arch, rows, None, &mut out);
                assert(out@ =~= Seq::<(Q::Item, Option<usize>)>::empty() + self.spec_steps_from(root, rev));
            },
            None => {},
        }
        out
    }

    /// Iterates all hierarchies in depth-first order: each entity directly before the entities
    /// under it. As a stack of batches does, it enters the root archetypes, and the archetypes
    /// under an entity, last first.
    pub fn iter(self) -> (r: DfsIter<Q::Item>)
        requires
            self.ready(),
        ensures
            r.remaining() == self.spec_steps(true).map_values(|s: (Q::Item, Option<usize>)| s.0),
    {
        let steps = self.steps(true);
        items_of(steps)
    }

    /// Iterates the hierarchy under `root` in depth-first order, as [`DfsBorrow::iter`] does;
    /// empty where `root` does not exist or the traversal does not visit its archetype.
    pub fn iter_from(self, root: Entity) -> (r: DfsIter<Q::Item>)
        requires
            self.ready(),
        ensures
            r.remaining() == self.spec_steps_from(root, true).map_values(|s: (Q::Item, Option<usize>)| s.0),
    {
        let steps = self.steps_from(root, true);
        items_of(steps)
    }

    /// Traverses all hierarchies depth first, entering archetypes in order, visiting each entity
    /// with the value returned for its parent (`value` for the roots) and returning the values of
    /// the visits in order.
    pub fn traverse<T, G: Fn(Q::Item, &T) -> T>(self, value: &T, func: G) -> (r: Vec<T>)
        requires
            self.ready(),
            forall|x: Q::Item, v: &T| func.requires((x, v)),
        ensures
            r@.len() == self.spec_steps(false).len(),
            forall|k: int| 0 <= k < r@.len() ==> match (#[trigger] self.spec_steps(false)[k]).1 {
                None => func.ensures((self.spec_steps(false)[k].0, value), r@[k]),
                Some(q) => q < k && func.ensures((self.spec_steps(false)[k].0, &r@[q as int]), r@[k]),
            },
    {
        let ghost all = self.spec_steps(false);
        let steps = self.steps(false);
        assert(steps.len() == steps@.len());
        proof {
            lemma_forest_kids_parents::<Q, F, V>(self.edges@, false, self.prepared@, roots_in_order(self.roots@, false), None, 0);
        }
        visit_steps(steps, value, func)
    }

    /// Traverses the hierarchy under `root` depth first, as [`DfsBorrow::traverse`] does; no
    /// visit where `root` does not exist or the traversal does not visit its archetype.
    pub fn traverse_from<T, G: Fn(Q::Item, &T) -> T>(self, root: Entity, value: &T, func: G) -> (r: Vec<T>)
        requires
            self.ready(),
            forall|x: Q::Item, v: &T| func.requires((x, v)),
        ensures
            r@.len() == self.spec_steps_from(root, false).len(),
            forall|k: int| 0 <= k < r@.len() ==> match (#[trigger] self.spec_steps_from(root, false)[k]).1 {
                None => func.ensures((self.spec_steps_from(root, false)[k].0, value), r@[k]),
                Some(q) => q < k && func.ensures((self.spec_steps_from(root, false)[k].0, &r@[q as int]), r@[k]),
            },
    {
        let ghost all = self.spec_steps_from(root, false);
        let steps = self.steps_from(root, false);
        assert(steps.len() == steps@.len());
        proof {
            if self.world.alive(root) && self.archetypes_index@.contains_key(self.world.loc_of(root).arch_id) {
                let loc = self.world.loc_of(root);
                let idx = self.archetypes_index@[loc.arch_id] as int;
                if self.prepared@[idx] is Some {
                    let p = self.prepared@[idx]->0;
                    lemma_forest_rows_parents::<Q, F, V>(self.edges@, false, self.prepared@.update(idx, None), *p.arch, root_rows(p, loc.slot), None, 0);
                }
            }
        }
        visit_steps(steps, value, func)
    }
}

/// The rows of a single slot, where the fetch yields it.
fn single_rows<'w, Q: PreparedFetch<'w>, F: PreparedFetch<'w>, V>(p: PreparedArchetype<'w, Q, F, V>, slot: usize) -> (r: Vec<(usize, Q::Item)>)
    requires
        root_ok(p, slot),
    ensures
        r@ == root_rows(p, slot),
{
    let arch: &'w Archetype<V> = p.arch;
    let mut fetch = p.fetch;
    let ghost f0 = fetch;
    let s = Slice::single(slot);
    assert(s == single(slot));
    let cur = fetch.filter_slots(s);
    assert(fetch == f0.spec_filter(s).1);
    assert forall|y: int| 0 <= y < arch.entities@.len() implies #[trigger] fetch.spec_fetch_ok(y) by {
        assert(f0.spec_filter(single(slot)).1.spec_fetch_ok(y));
    }
    let mut rows: Vec<(usize, Q::Item)> = Vec::new();
    if cur.start < cur.end {
        let mut x = cur.start;
        while x < cur.end
            invariant
                cur.start <= x <= cur.end,
                cur.end <= slot + 1,
                slot < arch.entities@.len(),
                forall|y: int| 0 <= y < arch.entities@.len() ==> #[trigger] fetch.spec_fetch_ok(y),
                rows@ == batch_rows(fetch, Slice { start: cur.start, end: x }),
            decreases cur.end - x,
        {
            let v = fetch.fetch_shared(x);
            proof {
                assert(rows@.push((x, v)) =~= batch_rows(fetch, Slice { start: cur.start, end: (x + 1) as usize }));
            }
            rows.push((x, v));
            x = x + 1;
        }
        assert(batch_rows(fetch, Slice { start: cur.start, end: x }) =~= batch_rows(fetch, cur));
    }
    rows
}

/// The items of the steps, handed out one at a time.
fn items_of<T, P>(steps: Vec<(T, P)>) -> (r: DfsIter<T>)
    ensures
        r.remaining() == steps@.map_values(|s: (T, P)| s.0),
{
    let mut nodes = steps;
    let ghost all = nodes@;
    let mut rest: Vec<T> = Vec::new();
    while nodes.len() > 0
        invariant
            nodes@.len() <= all.len(),
            rest@.len() + nodes@.len() == all.len(),
            nodes@ == all.take(nodes@.len() as int),
            forall|k: int| 0 <= k < rest@.len() ==> #[trigger] rest@[k] == all[all.len() - 1 - k].0,
        decreases nodes@.len(),
    {
        let (item, _parent) = nodes.pop().unwrap();
        assert(nodes@ =~= all.take(nodes@.len() as int));
        rest.push(item);
    }
    let r = DfsIter { rest };
    assert(r.remaining() =~= all.map_values(|s: (T, P)| s.0));
    r
}

/// Visits the steps in order, each with the value of its parent's visit (`value` for a step
/// without a parent).
fn visit_steps<I, T, G: Fn(I, &T) -> T>(steps: Vec<(I, Option<usize>)>, value: &T, func: G) -> (r: Vec<T>)
    requires
        forall|k: int| 0 <= k < steps@.len() ==> (#[trigger] steps@[k]).1 is None || steps@[k].1->0 < k,
        forall|x: I, v: &T| func.requires((x, v)),
    ensures
        r@.len() == steps@.len(),
        forall|k: int| 0 <= k < r@.len() ==> match (#[trigger] steps@[k]).1 {
            None => func.ensures((steps@[k].0, value), r@[k]),
            Some(q) => q < k && func.ensures((steps@[k].0, &r@[q as int]), r@[k]),
        },
{
    let ghost all = steps@;
    let mut nodes = steps;
    let mut out: Vec<T> = Vec::new();
    while nodes.len() > 0
        invariant
            nodes@.len() <= all.len(),
            out@.len() + nodes@.len() == all.len(),
            nodes@ == all.skip(out@.len() as int),
            forall|k: int| 0 <= k < all.len() ==> (#[trigger] all[k]).1 is None || all[k].1->0 < k,
            forall|x: I, v: &T| func.requires((x, v)),
            forall|k: int| 0 <= k < out@.len() ==> match (#[trigger] all[k]).1 {
                None => func.ensures((all[k].0, value), out@[k]),
                Some(q) => q < k && func.ensures((all[k].0, &out@[q as int]), out@[k]),
            },
        decreases nodes@.len(),
    {
        let ghost k = out@.len() as int;
        assert(nodes@[0] == all[k]);
        let (item, parent) = nodes.remove(0);
        let v = match parent {
            None => func(item, value),
            Some(q) => func(item, &out[q]),
        };
        out.push(v);
    }
    out
}

impl<'w, Q: PreparedFetch<'w>, F: PreparedFetch<'w>, V> DfsBorrow<'w, Q, F, V> {
    /// Prepares the query for each archetype the traversal visits.
    ///
    /// Fails where the query cannot be prepared for one of them.
    pub fn new<QF: Fetch<'w, V, Prepared = Q>, FF: Fetch<'w, V, Prepared = F>>(state: QueryBorrowState<'w, QF, FF, V>, dfs: &'w Dfs) -> (r: Result<DfsBorrow<'w, Q, F, V>, DfsError>)
        requires
            state.world.wf(),
            state.fetch.spec_valid(),
            dfs.state.records(state.world, dfs.relation),
            forall|i: int| 0 <= i < dfs.state.archetypes@.len() ==> #[trigger] dfs.state.archetypes@[i] < state.world.archetypes@.len(),
            world_iterable(state.world, *state.fetch, state.old_tick, state.new_tick),
        ensures
            r is Ok <==> forall|i: int| 0 <= i < dfs.state.archetypes@.len() ==> arch_matches(*state.fetch, state.data_for(#[trigger] dfs.state.archetypes@[i])),
            r matches Ok(b) ==> {
                &&& b.ready()
                &&& b.edges == &dfs.state.edges
                &&& b.roots == &dfs.state.roots
                &&& b.archetypes_index == &dfs.state.archetypes_index
                &&& b.world == state.world
                &&& b.prepared@.len() == dfs.state.archetypes@.len()
                &&& forall|i: int| 0 <= i < b.prepared@.len() ==> ((#[trigger] b.prepared@[i]) matches Some(p)
                    && p.arch_id == dfs.state.archetypes@[i]
                    && *p.arch == state.world.archetypes@[p.arch_id as int]
                    && state.fetch.spec_prepared(state.data_for(p.arch_id), p.fetch))
            },
    {
        let mut prepared: Vec<Option<PreparedArchetype<'w, Q, F, V>>> = Vec::new();
        let mut i: usize = 0;
        while i < dfs.state.archetypes.len()
            invariant
                0 <= i <= dfs.state.archetypes@.len(),
                state.world.wf(),
                state.fetch.spec_valid(),
                forall|i: int| 0 <= i < dfs.state.archetypes@.len() ==> #[trigger] dfs.state.archetypes@[i] < state.world.archetypes@.len(),
                prepared@.len() == i,
                forall|j: int| 0 <= j < i ==> arch_matches(*state.fetch, state.data_for(#[trigger] dfs.state.archetypes@[j])),
                forall|j: int| 0 <= j < i ==> ((#[trigger] prepared@[j]) matches Some(p)
                    && p.arch_id == dfs.state.archetypes@[j]
                    && *p.arch == state.world.archetypes@[p.arch_id as int]
                    && state.fetch.spec_prepared(state.data_for(p.arch_id), p.fetch)),
            decreases dfs.state.archetypes@.len() - i,
        {
            let arch_id = dfs.state.archetypes[i];
            assert(arch_id == dfs.state.archetypes@[i as int]);
            match state.prepare_fetch(arch_id) {
                Some(p) => {
                    prepared.push(Some(p));
                },
                None => {
                    return Err(DfsError::NoMatch(arch_id));
                },
            }
            i += 1;
        }
        let b = DfsBorrow {
            prepared,
            edges: &dfs.state.edges,
            roots: &dfs.state.roots,
            archetypes_index: &dfs.state.archetypes_index,
            world: state.world,
        };
        proof {
            assert forall|c: int| 0 <= c < b.prepared@.len() && (#[trigger] b.prepared@[c]) is Some implies spec_rows(
                b.prepared@[c]->0.fetch,
                all_slots(*b.prepared@[c]->0.arch),
            ).0 by {
                let p = b.prepared@[c]->0;
                lemma_rows_items(p.fetch, all_slots(*p.arch));
                assert(state.data_for(p.arch_id) == crate::query::borrow::prepare_data(state.world, p.arch_id, state.old_tick, state.new_tick));
            }
            assert forall|c: int, slot: usize| 0 <= c < b.prepared@.len() && (#[trigger] b.prepared@[c]) is Some
                && slot < b.prepared@[c]->0.arch.entities@.len() implies #[trigger] root_ok(b.prepared@[c]->0, slot) by {
                let p = b.prepared@[c]->0;
                let data = state.data_for(p.arch_id);
                broadcast use vstd::std_specs::vec::axiom_spec_len;
                assert(p.arch.entities.len() == p.arch.entities@.len());
                assert(slot + 1 <= data.arch_len());
                assert(small_slots(single(slot), data.arch_len()));
                state.fetch.lemma_prepared_small(data, p.fetch, single(slot));
            }
        }
        Ok(b)
    }
}

} // verus!
