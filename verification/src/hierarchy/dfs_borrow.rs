use vstd::prelude::*;

use std::collections::BTreeMap;

use crate::archetype::Archetype;
use crate::entity::Entity;
use crate::fetch::base::{small_slots, Fetch};
use crate::fetch::prepared::PreparedFetch;
use crate::filter::iter::{batch_rows, collect_rows, lemma_rows_items, spec_rows, Filtered};
use crate::query::borrow::{arch_matches, PreparedArchetype, QueryBorrowState};
use crate::hierarchy::dfs::{Dfs, DfsError};
use crate::query::planar::all_slots;
use crate::query::world_iterable;
use crate::slice::Slice;

verus! {

broadcast use {vstd::std_specs::btree::group_btree_axioms, vstd::laws_cmp::group_laws_cmp};

/// The positions of the archetypes holding the children of the entity in `slot`.
pub open spec fn kids_of<V>(adj: Map<usize, Vec<usize>>, arch: Archetype<V>, slot: usize) -> Seq<usize> {
    if slot < arch.entities@.len() && adj.contains_key(arch.entities@[slot as int].id) {
        adj[arch.entities@[slot as int].id]@
    } else {
        Seq::empty()
    }
}

/// Every fetch still prepared iterates over the slots of its archetype to the end.
pub open spec fn rows_ok<'w, Q: PreparedFetch<'w>, F: PreparedFetch<'w>, V>(pre: Seq<Option<PreparedArchetype<'w, Q, F, V>>>) -> bool {
    forall|c: int| 0 <= c < pre.len() && (#[trigger] pre[c]) is Some ==> spec_rows(pre[c]->0.fetch, all_slots(*pre[c]->0.arch)).0
}

/// The steps of a depth-first traversal from `rows`, the rows of the archetype at position `a`:
/// each row is followed by the steps of its children, before the next row. A step holds the
/// row's item and the position of its parent's step (`parent` for the rows themselves); the
/// first step lies at position `base`. The archetypes of the children are taken from `pre`, each
/// at most once; the second part is what is left of `pre`.
///
/// A child archetype is only entered where it lies after the archetype of its parent, as the
/// archetypes of a hierarchy are recorded parents first.
pub open spec fn dfs_rows<'w, Q: PreparedFetch<'w>, F: PreparedFetch<'w>, V>(
    adj: Map<usize, Vec<usize>>,
    pre: Seq<Option<PreparedArchetype<'w, Q, F, V>>>,
    n: int,
    arch: Archetype<V>,
    a: int,
    rows: Seq<(usize, Q::Item)>,
    parent: Option<usize>,
    base: int,
) -> (Seq<(Q::Item, Option<usize>)>, Seq<Option<PreparedArchetype<'w, Q, F, V>>>)
    decreases n - a, 1int, rows.len(),
{
    if rows.len() == 0 || a < 0 || a >= n {
        (Seq::empty(), pre)
    } else {
        let slot = rows[0].0;
        let item = rows[0].1;
        let kids = dfs_kids::<Q, F, V>(adj, pre, n, a, kids_of(adj, arch, slot), Some(base as usize), base + 1);
        let rest = dfs_rows::<Q, F, V>(adj, kids.1, n, arch, a, rows.drop_first(), parent, base + 1 + kids.0.len());
        (seq![(item, parent)] + kids.0 + rest.0, rest.1)
    }
}

/// The steps of a depth-first traversal of the archetypes at the positions `kids`, in order:
/// those of every row each archetype yields. See [`dfs_rows`].
pub open spec fn dfs_kids<'w, Q: PreparedFetch<'w>, F: PreparedFetch<'w>, V>(
    adj: Map<usize, Vec<usize>>,
    pre: Seq<Option<PreparedArchetype<'w, Q, F, V>>>,
    n: int,
    a: int,
    kids: Seq<usize>,
    parent: Option<usize>,
    base: int,
) -> (Seq<(Q::Item, Option<usize>)>, Seq<Option<PreparedArchetype<'w, Q, F, V>>>)
    decreases n - a, 0int, kids.len(),
{
    if kids.len() == 0 || a < 0 || a >= n {
        (Seq::empty(), pre)
    } else {
        let c = kids[0] as int;
        let sub = if a < c && c < n && c < pre.len() && pre[c] is Some {
            let p = pre[c]->0;
            dfs_rows::<Q, F, V>(adj, pre.update(c, None), n, *p.arch, c, spec_rows(p.fetch, all_slots(*p.arch)).1, parent, base)
        } else {
            (Seq::empty(), pre)
        };
        let rest = dfs_kids::<Q, F, V>(adj, sub.1, n, a, kids.drop_first(), parent, base + sub.0.len());
        (sub.0 + rest.0, rest.1)
    }
}

/// Takes the entry at `i`, leaving `None` in its place.
pub(crate) fn take_at<T>(v: &mut Vec<Option<T>>, i: usize) -> (r: Option<T>)
    requires
        i < old(v)@.len(),
    ensures
        r == old(v)@[i as int],
        final(v)@ == old(v)@.update(i as int, None),
{
    let r = v.remove(i);
    v.insert(i, None);
    proof {
        assert(final(v)@ =~= old(v)@.update(i as int, None));
    }
    r
}

/// Appends the steps of [`dfs_rows`] to `out`, taking the archetypes it enters from `prepared`.
fn walk_rows<'w, Q: PreparedFetch<'w>, F: PreparedFetch<'w>, V>(
    adj: &BTreeMap<usize, Vec<usize>>,
    prepared: &mut Vec<Option<PreparedArchetype<'w, Q, F, V>>>,
    n: usize,
    arch: &'w Archetype<V>,
    a: usize,
    rows: Vec<(usize, Q::Item)>,
    parent: Option<usize>,
    out: &mut Vec<(Q::Item, Option<usize>)>,
)
    requires
        old(prepared)@.len() == n,
        a < n,
        rows_ok(old(prepared)@),
    ensures
        final(prepared)@.len() == n,
        rows_ok(final(prepared)@),
        ({
            let r = dfs_rows::<Q, F, V>(adj@, old(prepared)@, n as int, *arch, a as int, rows@, parent, old(out)@.len() as int);
            final(out)@ == old(out)@ + r.0 && final(prepared)@ == r.1
        }),
    decreases n - a, 1int, rows@.len(),
{
    let ghost goal = dfs_rows::<Q, F, V>(adj@, old(prepared)@, n as int, *arch, a as int, rows@, parent, old(out)@.len() as int);
    let ghost out0 = old(out)@;
    let ghost len0 = rows@.len();
    let mut rows = rows;
    while rows.len() > 0
        invariant
            prepared@.len() == n,
            a < n,
            rows_ok(prepared@),
            rows@.len() <= len0,
            ({
                let r = dfs_rows::<Q, F, V>(adj@, prepared@, n as int, *arch, a as int, rows@, parent, out@.len() as int);
                out0 + goal.0 == out@ + r.0 && goal.1 == r.1
            }),
        decreases rows@.len(),
    {
        let ghost pre0 = prepared@;
        let ghost rows0 = rows@;
        let ghost o0 = out@;
        let (slot, item) = rows.remove(0);
        assert(rows@ =~= rows0.drop_first());
        let pos = out.len();
        out.push((item, parent));
        let ghost kids_spec = dfs_kids::<Q, F, V>(adj@, pre0, n as int, a as int, kids_of(adj@, *arch, slot), Some(pos), pos + 1);
        match arch.entity(slot) {
            Some(e) => match adj.get(&e.id) {
                Some(kids) => {
                    walk_kids(adj, prepared, n, a, kids, Some(pos), out);
                },
                None => {
                    assert(kids_of(adj@, *arch, slot) =~= Seq::<usize>::empty());
                },
            },
            None => {
                assert(kids_of(adj@, *arch, slot) =~= Seq::<usize>::empty());
            },
        }
        proof {
            assert(out@ =~= o0 + seq![(item, parent)] + kids_spec.0);
            assert(prepared@ == kids_spec.1);
            let rest = dfs_rows::<Q, F, V>(adj@, kids_spec.1, n as int, *arch, a as int, rows@, parent, pos + 1 + kids_spec.0.len());
            assert(dfs_rows::<Q, F, V>(adj@, pre0, n as int, *arch, a as int, rows0, parent, pos as int).0 == seq![(item, parent)] + kids_spec.0 + rest.0);
            assert(o0 + (seq![(item, parent)] + kids_spec.0 + rest.0) =~= out@ + rest.0);
        }
    }
    proof {
        let r = dfs_rows::<Q, F, V>(adj@, prepared@, n as int, *arch, a as int, rows@, parent, out@.len() as int);
        assert(r.0.len() == 0 && r.1 == prepared@);
        assert(out0 + goal.0 =~= out@);
    }
}

/// Appends the steps of [`dfs_kids`] to `out`, taking the archetypes it enters from `prepared`.
fn walk_kids<'w, Q: PreparedFetch<'w>, F: PreparedFetch<'w>, V>(
    adj: &BTreeMap<usize, Vec<usize>>,
    prepared: &mut Vec<Option<PreparedArchetype<'w, Q, F, V>>>,
    n: usize,
    a: usize,
    kids: &Vec<usize>,
    parent: Option<usize>,
    out: &mut Vec<(Q::Item, Option<usize>)>,
)
    requires
        old(prepared)@.len() == n,
        a < n,
        rows_ok(old(prepared)@),
    ensures
        final(prepared)@.len() == n,
        rows_ok(final(prepared)@),
        ({
            let r = dfs_kids::<Q, F, V>(adj@, old(prepared)@, n as int, a as int, kids@, parent, old(out)@.len() as int);
            final(out)@ == old(out)@ + r.0 && final(prepared)@ == r.1
        }),
    decreases n - a, 0int, kids@.len(),
{
    let ghost goal = dfs_kids::<Q, F, V>(adj@, old(prepared)@, n as int, a as int, kids@, parent, old(out)@.len() as int);
    let ghost out0 = old(out)@;
    let mut i: usize = 0;
    assert(kids@.skip(0) =~= kids@);
    while i < kids.len()
        invariant
            0 <= i <= kids@.len(),
            prepared@.len() == n,
            a < n,
            rows_ok(prepared@),
            ({
                let r = dfs_kids::<Q, F, V>(adj@, prepared@, n as int, a as int, kids@.skip(i as int), parent, out@.len() as int);
                out0 + goal.0 == out@ + r.0 && goal.1 == r.1
            }),
        decreases kids@.len() - i,
    {
        let ghost pre0 = prepared@;
        let ghost o0 = out@;
        let ghost ks = kids@.skip(i as int);
        assert(ks[0] == kids@[i as int]);
        assert(ks.drop_first() =~= kids@.skip(i + 1));
        let c = kids[i];
        if a < c && c < n {
            match take_at(prepared, c) {
                Some(p) => {
                    assert(pre0[c as int] is Some);
                    let arch_c: &'w Archetype<V> = p.arch;
                    let fetch = p.fetch;
                    let slots = arch_c.slots();
                    assert(slots == all_slots(*arch_c));
                    assert(spec_rows(fetch, slots).0);
                    let rows = collect_rows(fetch, slots);
                    walk_rows(adj, prepared, n, arch_c, c, rows, parent, out);
                },
                None => {},
            }
        }
        proof {
            let sub = if a < c && c < n && c < pre0.len() && pre0[c as int] is Some {
                let p = pre0[c as int]->0;
                dfs_rows::<Q, F, V>(adj@, pre0.update(c as int, None), n as int, *p.arch, c as int, spec_rows(p.fetch, all_slots(*p.arch)).1, parent, o0.len() as int)
            } else {
                (Seq::empty(), pre0)
            };
            assert(out@ =~= o0 + sub.0);
            assert(prepared@ == sub.1);
            let rest = dfs_kids::<Q, F, V>(adj@, sub.1, n as int, a as int, kids@.skip(i + 1), parent, (o0.len() + sub.0.len()) as int);
            assert(o0 + (sub.0 + rest.0) =~= out@ + rest.0);
        }
        i += 1;
    }
    proof {
        assert(kids@.skip(i as int) =~= Seq::<usize>::empty());
        assert(out0 + goal.0 =~= out@);
    }
}


/// Law: in the steps of a depth-first traversal, the parent of each step is `parent` or a step
/// that comes before it.
pub proof fn lemma_rows_parents<'w, Q: PreparedFetch<'w>, F: PreparedFetch<'w>, V>(
    adj: Map<usize, Vec<usize>>,
    pre: Seq<Option<PreparedArchetype<'w, Q, F, V>>>,
    n: int,
    arch: Archetype<V>,
    a: int,
    rows: Seq<(usize, Q::Item)>,
    parent: Option<usize>,
    base: int,
)
    requires
        0 <= base,
        base + dfs_rows::<Q, F, V>(adj, pre, n, arch, a, rows, parent, base).0.len() <= usize::MAX,
    ensures
        ({
            let nodes = dfs_rows::<Q, F, V>(adj, pre, n, arch, a, rows, parent, base).0;
            forall|k: int| 0 <= k < nodes.len() ==> (#[trigger] nodes[k]).1 == parent || (nodes[k].1 is Some && base <= nodes[k].1->0 < base + k)
        }),
    decreases n - a, 1int, rows.len(),
{
    if !(rows.len() == 0 || a < 0 || a >= n) {
        let slot = rows[0].0;
        let item = rows[0].1;
        let kids = dfs_kids::<Q, F, V>(adj, pre, n, a, kids_of(adj, arch, slot), Some(base as usize), base + 1);
        let rest = dfs_rows::<Q, F, V>(adj, kids.1, n, arch, a, rows.drop_first(), parent, base + 1 + kids.0.len());
        let nodes = dfs_rows::<Q, F, V>(adj, pre, n, arch, a, rows, parent, base).0;
        assert(nodes == seq![(item, parent)] + kids.0 + rest.0);
        lemma_kids_parents::<Q, F, V>(adj, pre, n, a, kids_of(adj, arch, slot), Some(base as usize), base + 1);
        lemma_rows_parents::<Q, F, V>(adj, kids.1, n, arch, a, rows.drop_first(), parent, base + 1 + kids.0.len());
        assert forall|k: int| 0 <= k < nodes.len() implies (#[trigger] nodes[k]).1 == parent || (nodes[k].1 is Some && base <= nodes[k].1->0 < base + k) by {
            if k == 0 {
            } else if k < 1 + kids.0.len() {
                assert(nodes[k] == kids.0[k - 1]);
            } else {
                assert(nodes[k] == rest.0[k - 1 - kids.0.len()]);
            }
        }
    }
}

/// Law: in the steps of a depth-first traversal of child archetypes, the parent of each step is
/// `parent` or a step that comes before it.
pub proof fn lemma_kids_parents<'w, Q: PreparedFetch<'w>, F: PreparedFetch<'w>, V>(
    adj: Map<usize, Vec<usize>>,
    pre: Seq<Option<PreparedArchetype<'w, Q, F, V>>>,
    n: int,
    a: int,
    kids: Seq<usize>,
    parent: Option<usize>,
    base: int,
)
    requires
        0 <= base,
        base + dfs_kids::<Q, F, V>(adj, pre, n, a, kids, parent, base).0.len() <= usize::MAX,
    ensures
        ({
            let nodes = dfs_kids::<Q, F, V>(adj, pre, n, a, kids, parent, base).0;
            forall|k: int| 0 <= k < nodes.len() ==> (#[trigger] nodes[k]).1 == parent || (nodes[k].1 is Some && base <= nodes[k].1->0 < base + k)
        }),
    decreases n - a, 0int, kids.len(),
{
    if !(kids.len() == 0 || a < 0 || a >= n) {
        let c = kids[0] as int;
        let sub = if a < c && c < n && c < pre.len() && pre[c] is Some {
            let p = pre[c]->0;
            dfs_rows::<Q, F, V>(adj, pre.update(c, None), n, *p.arch, c, spec_rows(p.fetch, all_slots(*p.arch)).1, parent, base)
        } else {
            (Seq::empty(), pre)
        };
        let rest = dfs_kids::<Q, F, V>(adj, sub.1, n, a, kids.drop_first(), parent, base + sub.0.len());
        let nodes = dfs_kids::<Q, F, V>(adj, pre, n, a, kids, parent, base).0;
        assert(nodes == sub.0 + rest.0);
        if a < c && c < n && c < pre.len() && pre[c] is Some {
            let p = pre[c]->0;
            lemma_rows_parents::<Q, F, V>(adj, pre.update(c, None), n, *p.arch, c, spec_rows(p.fetch, all_slots(*p.arch)).1, parent, base);
        }
        lemma_kids_parents::<Q, F, V>(adj, sub.1, n, a, kids.drop_first(), parent, base + sub.0.len());
        assert forall|k: int| 0 <= k < nodes.len() implies (#[trigger] nodes[k]).1 == parent || (nodes[k].1 is Some && base <= nodes[k].1->0 < base + k) by {
            if k < sub.0.len() {
                assert(nodes[k] == sub.0[k]);
            } else {
                assert(nodes[k] == rest.0[k - sub.0.len()]);
            }
        }
    }
}

/// A single slot, as a slice.
pub open spec fn single(slot: usize) -> Slice {
    Slice { start: slot, end: (slot + 1) as usize }
}

/// The fetch prepared for the root's archetype can filter the root's slot, keeps the result
/// inside it and can then fetch the slots of the archetype.
pub open spec fn root_ok<'w, Q: PreparedFetch<'w>, F: PreparedFetch<'w>, V>(p: PreparedArchetype<'w, Q, F, V>, slot: usize) -> bool {
    &&& slot < p.arch.entities@.len()
    &&& slot < usize::MAX
    &&& p.fetch.spec_filter_ok(single(slot))
    &&& single(slot).contains_slice(p.fetch.spec_filter(single(slot)).0)
    &&& forall|x: int| 0 <= x < p.arch.entities@.len() ==> #[trigger] p.fetch.spec_filter(single(slot)).1.spec_fetch_ok(x)
}

/// The rows of the root: its slot, where the fetch yields it, with its item.
pub open spec fn root_rows<'w, Q: PreparedFetch<'w>, F: PreparedFetch<'w>, V>(p: PreparedArchetype<'w, Q, F, V>, slot: usize) -> Seq<(usize, Q::Item)> {
    let (cur, f2) = p.fetch.spec_filter(single(slot));
    if cur.start < cur.end {
        batch_rows(f2, cur)
    } else {
        Seq::empty()
    }
}

/// A query borrowed for a depth-first traversal of a hierarchy: a fetch prepared for each
/// archetype of the hierarchy, the children's archetypes of each entity, and where the root lies.
pub struct DfsBorrow<'w, Q, F, V> {
    pub prepared: Vec<Option<PreparedArchetype<'w, Q, F, V>>>,
    pub adj: &'w BTreeMap<usize, Vec<usize>>,
    pub root_index: usize,
    pub root_slot: usize,
}

/// The items of a traversal, handed out one at a time.
pub struct DfsIter<T> {
    /// The items still to come, the next one last.
    pub rest: Vec<T>,
}

impl<T> DfsIter<T> {
    /// The items still to come, in order.
    pub open spec fn remaining(&self) -> Seq<T> {
        self.rest@.reverse()
    }

    /// The next item.
    pub fn next(&mut self) -> (r: Option<T>)
        ensures
            old(self).remaining().len() > 0 ==> r == Some(old(self).remaining()[0])
                && final(self).remaining() == old(self).remaining().drop_first(),
            old(self).remaining().len() == 0 ==> r is None && final(self).remaining().len() == 0,
    {
        let r = self.rest.pop();
        proof {
            if old(self).rest@.len() > 0 {
                assert(final(self).remaining() =~= old(self).remaining().drop_first());
            }
        }
        r
    }
}

impl<'w, Q: PreparedFetch<'w>, F: PreparedFetch<'w>, V> DfsBorrow<'w, Q, F, V> {
    /// The borrow can be traversed: the root's archetype is one of the hierarchy, and every
    /// prepared fetch iterates over its archetype to the end.
    pub open spec fn ready(&self) -> bool {
        &&& self.root_index < self.prepared@.len()
        &&& rows_ok(self.prepared@)
        &&& self.prepared@[self.root_index as int] matches Some(p) ==> root_ok(p, self.root_slot)
    }

    /// The steps of the traversal: the root, where the query yields it, then depth first the
    /// entities under it; each with its item and the position of its parent's step.
    pub open spec fn spec_nodes(&self) -> Seq<(Q::Item, Option<usize>)> {
        match self.prepared@[self.root_index as int] {
            Some(p) => dfs_rows::<Q, F, V>(
                self.adj@,
                self.prepared@.update(self.root_index as int, None),
                self.prepared@.len() as int,
                *p.arch,
                self.root_index as int,
                root_rows(p, self.root_slot),
                None,
                0,
            ).0,
            None => Seq::empty(),
        }
    }

    /// The steps of the traversal, in order.
    fn nodes(self) -> (r: Vec<(Q::Item, Option<usize>)>)
        requires
            self.ready(),
        ensures
            r@ == self.spec_nodes(),
    {
        let adj: &'w BTreeMap<usize, Vec<usize>> = self.adj;
        let root_index = self.root_index;
        let slot = self.root_slot;
        let mut prepared = self.prepared;
        let n = prepared.len();
        let mut out: Vec<(Q::Item, Option<usize>)> = Vec::new();
        match take_at(&mut prepared, root_index) {
            Some(p) => {
                assert(root_ok(p, slot));
                let arch: &'w Archetype<V> = p.arch;
                let mut fetch = p.fetch;
                let ghost f0 = fetch;
                let s = Slice::single(slot);
                assert(s == single(slot));
                let cur = fetch.filter_slots(s);
                assert(fetch == f0.spec_filter(s).1);
                assert forall|y: int| 0 <= y < arch.entities@.len() implies #[trigger] fetch.spec_fetch_ok(y) by {
                    assert(f0.spec_filter(single(slot)).1.spec_fetch_ok(y));
                }
                let mut rows: Vec<(usize, Q::Item)> = Vec::new();
                if cur.start < cur.end {
                    let mut x = cur.start;
                    while x < cur.end
                        invariant
                            cur.start <= x <= cur.end,
                            cur.end <= slot + 1,
                            slot < arch.entities@.len(),
                            forall|y: int| 0 <= y < arch.entities@.len() ==> #[trigger] fetch.spec_fetch_ok(y),
                            rows@ == batch_rows(fetch, Slice { start: cur.start, end: x }),
                        decreases cur.end - x,
                    {
                        let v = fetch.fetch_shared(x);
                        proof {
                            assert(rows@.push((x, v)) =~= batch_rows(fetch, Slice { start: cur.start, end: (x + 1) as usize }));
                        }
                        rows.push((x, v));
                        x = x + 1;
                    }
                    assert(batch_rows(fetch, Slice { start: cur.start, end: x }) =~= batch_rows(fetch, cur));
                }
                walk_rows(adj, &mut prepared, n, arch, root_index, rows, None, &mut out);
                proof {
                    assert(out@ =~= Seq::<(Q::Item, Option<usize>)>::empty() + self.spec_nodes());
                }
            },
            None => {},
        }
        out
    }

    /// Iterates the hierarchy in depth-first order: the root, then each entity after its
    /// parent, the children of an entity directly after it.
    pub fn iter(self) -> (r: DfsIter<Q::Item>)
        requires
            self.ready(),
        ensures
            r.remaining() == self.spec_nodes().map_values(|s: (Q::Item, Option<usize>)| s.0),
    {
        let mut nodes = self.nodes();
        let ghost all = nodes@;
        let mut rest: Vec<Q::Item> = Vec::new();
        while nodes.len() > 0
            invariant
                nodes@.len() <= all.len(),
                rest@.len() + nodes@.len() == all.len(),
                nodes@ == all.take(nodes@.len() as int),
                forall|k: int| 0 <= k < rest@.len() ==> #[trigger] rest@[k] == all[all.len() - 1 - k].0,
            decreases nodes@.len(),
        {
            let ghost before = nodes@;
            let (item, _parent) = nodes.pop().unwrap();
            assert(nodes@ =~= all.take(nodes@.len() as int));
            rest.push(item);
        }
        let r = DfsIter { rest };
        assert(r.remaining() =~= all.map_values(|s: (Q::Item, Option<usize>)| s.0));
        r
    }

    /// Traverses the hierarchy depth first, visiting each entity with the value returned for
    /// its parent (`value` for the root) and returning the values of the visits in order.
    pub fn traverse<T, G: Fn(Q::Item, &T) -> T>(self, value: &T, func: G) -> (r: Vec<T>)
        requires
            self.ready(),
            forall|x: Q::Item, v: &T| func.requires((x, v)),
        ensures
            r@.len() == self.spec_nodes().len(),
            forall|k: int| 0 <= k < r@.len() ==> match (#[trigger] self.spec_nodes()[k]).1 {
                None => func.ensures((self.spec_nodes()[k].0, value), r@[k]),
                Some(q) => q < k && func.ensures((self.spec_nodes()[k].0, &r@[q as int]), r@[k]),
            },
    {
        let ghost all = self.spec_nodes();
        let mut nodes = self.nodes();
        assert(nodes.len() == nodes@.len());
        proof {
            let p = self.prepared@[self.root_index as int];
            if p is Some {
                let p = p->0;
                lemma_rows_parents::<Q, F, V>(
                    self.adj@,
                    self.prepared@.update(self.root_index as int, None),
                    self.prepared@.len() as int,
                    *p.arch,
                    self.root_index as int,
                    root_rows(p, self.root_slot),
                    None,
                    0,
                );
            }
        }
        let mut out: Vec<T> = Vec::new();
        while nodes.len() > 0
            invariant
                nodes@.len() <= all.len(),
                out@.len() + nodes@.len() == all.len(),
                nodes@ == all.skip(out@.len() as int),
                forall|k: int| 0 <= k < all.len() ==> (#[trigger] all[k]).1 is None || all[k].1->0 < k,
                forall|x: Q::Item, v: &T| func.requires((x, v)),
                forall|k: int| 0 <= k < out@.len() ==> match (#[trigger] all[k]).1 {
                    None => func.ensures((all[k].0, value), out@[k]),
                    Some(q) => q < k && func.ensures((all[k].0, &out@[q as int]), out@[k]),
                },
            decreases nodes@.len(),
        {
            let ghost k = out@.len() as int;
            assert(nodes@[0] == all[k]);
            let (item, parent) = nodes.remove(0);
            let v = match parent {
                None => func(item, value),
                Some(q) => func(item, &out[q]),
            };
            out.push(v);
        }
        out
    }
}

impl<'w, Q: PreparedFetch<'w>, F: PreparedFetch<'w>, V> DfsBorrow<'w, Q, F, V> {
    /// Prepares the query for each archetype of the hierarchy and finds the root.
    ///
    /// Fails where the root does not exist, where its archetype is not one of the recorded
    /// hierarchy, or where the query cannot be prepared for an archetype of the hierarchy.
    pub fn new<QF: Fetch<'w, V, Prepared = Q>, FF: Fetch<'w, V, Prepared = F>>(state: QueryBorrowState<'w, QF, FF, V>, dfs: &'w Dfs) -> (r: Result<DfsBorrow<'w, Q, F, V>, DfsError>)
        requires
            state.world.wf(),
            state.fetch.spec_valid(),
            dfs.state.index_ok(),
            dfs.state.in_world(state.world),
            world_iterable(state.world, *state.fetch, state.old_tick, state.new_tick),
        ensures
            !state.world.alive(dfs.root) ==> r == Err::<DfsBorrow<'w, Q, F, V>, DfsError>(DfsError::NoSuchEntity(dfs.root)),
            state.world.alive(dfs.root) && !dfs.state.archetypes_index@.contains_key(state.world.loc_of(dfs.root).arch_id)
                ==> r == Err::<DfsBorrow<'w, Q, F, V>, DfsError>(DfsError::Outdated(dfs.root)),
            r is Ok <==> state.world.alive(dfs.root) && dfs.state.archetypes_index@.contains_key(state.world.loc_of(dfs.root).arch_id)
                && forall|i: int| 0 <= i < dfs.state.archetypes@.len() ==> arch_matches(*state.fetch, state.data_for(#[trigger] dfs.state.archetypes@[i])),
            r matches Ok(b) ==> {
                &&& b.ready()
                &&& b.adj == &dfs.state.adj
                &&& b.root_index == dfs.state.archetypes_index@[state.world.loc_of(dfs.root).arch_id]
                &&& b.root_slot == state.world.loc_of(dfs.root).slot
                &&& b.prepared@.len() == dfs.state.archetypes@.len()
                &&& forall|i: int| 0 <= i < b.prepared@.len() ==> ((#[trigger] b.prepared@[i]) matches Some(p)
                    && p.arch_id == dfs.state.archetypes@[i]
                    && *p.arch == state.world.archetypes@[p.arch_id as int]
                    && state.fetch.spec_prepared(state.data_for(p.arch_id), p.fetch))
            },
    {
        let world = state.world;
        let loc = match world.location(dfs.root) {
            Ok(l) => l,
            Err(_) => {
                return Err(DfsError::NoSuchEntity(dfs.root));
            },
        };
        let arch_len = world.archetypes[loc.arch_id].len();
        assert(loc.slot < arch_len);
        let root_index = match dfs.state.archetypes_index.get(&loc.arch_id) {
            Some(i) => *i,
            None => {
                return Err(DfsError::Outdated(dfs.root));
            },
        };
        let mut prepared: Vec<Option<PreparedArchetype<'w, Q, F, V>>> = Vec::new();
        let mut i: usize = 0;
        while i < dfs.state.archetypes.len()
            invariant
                0 <= i <= dfs.state.archetypes@.len(),
                state.world.wf(),
                state.fetch.spec_valid(),
                dfs.state.in_world(state.world),
                state.world.alive(dfs.root),
                dfs.state.archetypes_index@.contains_key(state.world.loc_of(dfs.root).arch_id),
                prepared@.len() == i,
                forall|j: int| 0 <= j < i ==> arch_matches(*state.fetch, state.data_for(#[trigger] dfs.state.archetypes@[j])),
                forall|j: int| 0 <= j < i ==> ((#[trigger] prepared@[j]) matches Some(p)
                    && p.arch_id == dfs.state.archetypes@[j]
                    && *p.arch == state.world.archetypes@[p.arch_id as int]
                    && state.fetch.spec_prepared(state.data_for(p.arch_id), p.fetch)),
            decreases dfs.state.archetypes@.len() - i,
        {
            let arch_id = dfs.state.archetypes[i];
            assert(arch_id == dfs.state.archetypes@[i as int]);
            match state.prepare_fetch(arch_id) {
                Some(p) => {
                    prepared.push(Some(p));
                },
                None => {
                    return Err(DfsError::NoMatch(arch_id));
                },
            }
            i += 1;
        }
        let b = DfsBorrow { prepared, adj: &dfs.state.adj, root_index, root_slot: loc.slot };
        proof {
            assert(dfs.state.archetypes@[root_index as int] == loc.arch_id);
            assert forall|c: int| 0 <= c < b.prepared@.len() && (#[trigger] b.prepared@[c]) is Some implies spec_rows(
                b.prepared@[c]->0.fetch,
                all_slots(*b.prepared@[c]->0.arch),
            ).0 by {
                let p = b.prepared@[c]->0;
                lemma_rows_items(p.fetch, all_slots(*p.arch));
                assert(state.data_for(p.arch_id) == crate::query::borrow::prepare_data(state.world, p.arch_id, state.old_tick, state.new_tick));
            }
            let p = b.prepared@[root_index as int]->0;
            let data = state.data_for(loc.arch_id);
            assert(loc.slot + 1 <= data.arch_len());
            assert(small_slots(single(loc.slot), data.arch_len()));
            state.fetch.lemma_prepared_small(data, p.fetch, single(loc.slot));
        }
        Ok(b)
    }
}
} // verus!
