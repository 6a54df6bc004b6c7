use vstd::prelude::*;

use crate::entity::{component_info_key, spec_component_info_key, ComponentKey};
use crate::fetch::base::{Fetch, FetchAccessData, FetchPrepareData};
use crate::fetch::prepared::PreparedFetch;
use crate::fetch::tuple::lemma_chain_small;
use crate::query::searcher::ArchetypeSearcher;
use crate::schedule::access::Access;
use crate::slice::{Slice, Slot};

verus! {

/// A fetch whose slots are narrowed by a filter; only the fetch's items are yielded.
#[derive(Debug, Clone)]
pub struct Filtered<Q, F> {
    pub fetch: Q,
    pub filter: F,
    pub include_components: bool,
}

impl<Q, F> Filtered<Q, F> {
    /// Wraps a fetch with a filter.
    pub fn new(fetch: Q, filter: F, include_components: bool) -> (r: Filtered<Q, F>)
        ensures
            r.fetch == fetch,
            r.filter == filter,
            r.include_components == include_components,
    {
        Filtered { fetch, filter, include_components }
    }
}

impl<'w, Q: PreparedFetch<'w>, F: PreparedFetch<'w>> PreparedFetch<'w> for Filtered<Q, F> {
    type Item = Q::Item;

    open spec fn spec_filter_ok(&self, slots: Slice) -> bool {
        &&& self.fetch.spec_filter_ok(slots)
        &&& self.filter.spec_filter_ok(self.fetch.spec_filter(slots).0)
    }

    open spec fn spec_filter(&self, slots: Slice) -> (Slice, Filtered<Q, F>) {
        let (l, q2) = self.fetch.spec_filter(slots);
        let (r, f2) = self.filter.spec_filter(l);
        (r, Filtered { fetch: q2, filter: f2, include_components: self.include_components })
    }

    open spec fn spec_fetch_ok(&self, slot: int) -> bool {
        self.fetch.spec_fetch_ok(slot)
    }

    open spec fn spec_fetch(&self, slot: int) -> Q::Item {
        self.fetch.spec_fetch(slot)
    }

    fn filter_slots(&mut self, slots: Slice) -> (r: Slice) {
        let l = self.fetch.filter_slots(slots);
        self.filter.filter_slots(l)
    }

    fn fetch_shared(&self, slot: Slot) -> (r: Q::Item) {
        self.fetch.fetch_shared(slot)
    }
}

/// One step of slice iteration: filters the remaining slots until a nonempty slice is found.
///
/// Returns whether the step completes, the slice found, the slots left and the fetch state. The
/// step does not complete when the filter fails, returns a slice outside the visited slots, or
/// makes no progress (where the search would never end).
pub open spec fn spec_next_slice<'w, Q: PreparedFetch<'w>>(fetch: Q, slots: Slice) -> (bool, Option<Slice>, Slice, Q)
    decreases slots.end - slots.start,
{
    if slots.end <= slots.start {
        (true, None, slots, fetch)
    } else if !fetch.spec_filter_ok(slots) {
        (false, None, slots, fetch)
    } else {
        let (cur, f2) = fetch.spec_filter(slots);
        let rest = Slice { start: cur.end, end: slots.end };
        if !slots.contains_slice(cur) {
            (false, None, slots, fetch)
        } else if cur.start < cur.end {
            (true, Some(cur), rest, f2)
        } else if rest.start > slots.start {
            spec_next_slice(f2, rest)
        } else {
            (false, None, rest, f2)
        }
    }
}

/// Finds the next nonempty slice of `slots` which the fetch matches, and consumes the slots up
/// to its end.
pub fn next_slice<'w, Q: PreparedFetch<'w>>(slots: &mut Slice, fetch: &mut Q) -> (r: Option<Slice>)
    requires
        old(slots).wf(),
        spec_next_slice(*old(fetch), *old(slots)).0,
    ensures
        r == spec_next_slice(*old(fetch), *old(slots)).1,
        *final(slots) == spec_next_slice(*old(fetch), *old(slots)).2,
        *final(fetch) == spec_next_slice(*old(fetch), *old(slots)).3,
        final(slots).wf(),
        final(slots).end == old(slots).end,
        r matches Some(m) ==> old(slots).contains_slice(m) && m.start < m.end && final(slots).start == m.end,
        r is None ==> final(slots).start >= final(slots).end,
{
    if slots.is_empty() {
        return None;
    }
    let ghost goal = spec_next_slice(*old(fetch), *old(slots));
    while !slots.is_empty()
        invariant
            slots.wf(),
            slots.end == old(slots).end,
            old(slots).start <= slots.start,
            spec_next_slice(*fetch, *slots) == goal,
            goal == spec_next_slice(*old(fetch), *old(slots)),
            goal.0,
        decreases slots.end - slots.start,
    {
        let ghost f0 = *fetch;
        let ghost s0 = *slots;
        let cur = fetch.filter_slots(*slots);
        proof {
            assert(spec_next_slice(f0, s0) == (if cur.start < cur.end {
                (true, Some(cur), Slice { start: cur.end, end: s0.end }, *fetch)
            } else {
                spec_next_slice(*fetch, Slice { start: cur.end, end: s0.end })
            }));
        }
        let (_l, m, r) = match slots.split_with(&cur) {
            Some(v) => v,
            None => {
                return None;
            },
        };
        *slots = r;
        if !m.is_empty() {
            assert(m == cur);
            assert(goal == (true, Some(m), *slots, *fetch));
            return Some(m);
        }
    }
    None
}

/// Iterates the slices of `slots` matched by a fetch, from left to right.
#[derive(Debug, Clone)]
pub struct FilterIter<Q> {
    pub fetch: Q,
    pub slots: Slice,
}

/// All slices an iteration over `slots` yields, and whether it completes.
pub open spec fn spec_collect<'w, Q: PreparedFetch<'w>>(fetch: Q, slots: Slice) -> (bool, Seq<Slice>)
    decreases slots.end - slots.start,
{
    let (ok, r, rest, f2) = spec_next_slice(fetch, slots);
    if !ok {
        (false, Seq::empty())
    } else {
        match r {
            None => (true, Seq::empty()),
            Some(m) => if rest.end - rest.start < slots.end - slots.start && rest.start <= rest.end {
                let (ok2, tail) = spec_collect(f2, rest);
                (ok2, seq![m] + tail)
            } else {
                (false, Seq::empty())
            },
        }
    }
}

impl<Q> FilterIter<Q> {
    /// Creates an iterator over the matched slices of `slots`.
    pub fn new(slots: Slice, fetch: Q) -> (r: FilterIter<Q>)
        ensures
            r.slots == slots,
            r.fetch == fetch,
    {
        FilterIter { fetch, slots }
    }

    /// The next matched slice.
    pub fn next<'w>(&mut self) -> (r: Option<Slice>) where Q: PreparedFetch<'w>
        requires
            old(self).slots.wf(),
            spec_next_slice(old(self).fetch, old(self).slots).0,
        ensures
            ({
                let (_, res, rest, f2) = spec_next_slice(old(self).fetch, old(self).slots);
                r == res && final(self).slots == rest && final(self).fetch == f2
            }),
            final(self).slots.wf(),
            r matches Some(m) ==> old(self).slots.contains_slice(m) && m.start < m.end
                && final(self).slots.start == m.end,
    {
        next_slice(&mut self.slots, &mut self.fetch)
    }

    /// Collects every matched slice, in order.
    pub fn collect_vec<'w>(self) -> (r: Vec<Slice>) where Q: PreparedFetch<'w>
        requires
            self.slots.wf(),
            spec_collect(self.fetch, self.slots).0,
        ensures
            r@ == spec_collect(self.fetch, self.slots).1,
    {
        let mut it = self;
        let mut out: Vec<Slice> = Vec::new();
        let ghost total = spec_collect(it.fetch, it.slots).1;
        loop
            invariant
                it.slots.wf(),
                spec_collect(it.fetch, it.slots).0,
                total == out@ + spec_collect(it.fetch, it.slots).1,
                total == spec_collect(self.fetch, self.slots).1,
            decreases it.slots.end - it.slots.start,
        {
            let ghost before = it;
            match it.next() {
                Some(m) => {
                    proof {
                        assert(out@.push(m) + spec_collect(it.fetch, it.slots).1 =~= out@ + spec_collect(before.fetch, before.slots).1);
                    }
                    out.push(m);
                },
                None => {
                    proof {
                        assert(out@ + spec_collect(before.fetch, before.slots).1 =~= out@);
                    }
                    return out;
                },
            }
        }
    }
}

/// Law: the slices an iteration yields lie inside the visited slots, hold at least one slot,
/// and come in increasing order without overlapping.
pub proof fn lemma_collect_ordered<'w, Q: PreparedFetch<'w>>(fetch: Q, slots: Slice)
    requires
        slots.wf(),
        spec_collect(fetch, slots).0,
    ensures
        ({
            let out = spec_collect(fetch, slots).1;
            &&& forall|i: int| 0 <= i < out.len() ==> slots.contains_slice(#[trigger] out[i]) && out[i].start < out[i].end
            &&& forall|i: int, j: int| 0 <= i < j < out.len() ==> (#[trigger] out[i]).end <= (#[trigger] out[j]).start
        }),
    decreases slots.end - slots.start,
{
    lemma_next_slice_props(fetch, slots);
    let (ok, r, rest, f2) = spec_next_slice(fetch, slots);
    if let Some(m) = r {
        lemma_collect_ordered(f2, rest);
        let out = spec_collect(fetch, slots).1;
        let tail = spec_collect(f2, rest).1;
        assert(out == seq![m] + tail);
        assert forall|i: int, j: int| 0 <= i < j < out.len() implies (#[trigger] out[i]).end <= (#[trigger] out[j]).start by {
            if i == 0 {
                assert(out[j] == tail[j - 1]);
                assert(rest.contains_slice(tail[j - 1]));
            } else {
                assert(out[i] == tail[i - 1]);
                assert(out[j] == tail[j - 1]);
            }
        }
        assert forall|i: int| 0 <= i < out.len() implies slots.contains_slice(#[trigger] out[i]) && out[i].start < out[i].end by {
            if i > 0 {
                assert(out[i] == tail[i - 1]);
            }
        }
    }
}

/// The found slice of a completed step lies inside the slots and the remaining slots are those
/// after it.
pub proof fn lemma_next_slice_props<'w, Q: PreparedFetch<'w>>(fetch: Q, slots: Slice)
    requires
        slots.wf(),
        spec_next_slice(fetch, slots).0,
    ensures
        ({
            let (_, r, rest, _) = spec_next_slice(fetch, slots);
            &&& rest.end == slots.end
            &&& rest.wf()
            &&& slots.start <= rest.start
            &&& r matches Some(m) ==> slots.contains_slice(m) && m.start < m.end && rest.start == m.end
            &&& r is None ==> rest.start >= rest.end
        }),
    decreases slots.end - slots.start,
{
    if slots.end > slots.start && fetch.spec_filter_ok(slots) {
        let (cur, f2) = fetch.spec_filter(slots);
        let rest = Slice { start: cur.end, end: slots.end };
        if slots.contains_slice(cur) && cur.start >= cur.end && rest.start > slots.start {
            lemma_next_slice_props(f2, rest);
        }
    }
}


impl<'w, V, Q: Fetch<'w, V>, F: Fetch<'w, V>> Fetch<'w, V> for Filtered<Q, F> {
    type Prepared = Filtered<Q::Prepared, F::Prepared>;

    open spec fn spec_mutable(&self) -> bool {
        self.fetch.spec_mutable()
    }

    open spec fn spec_valid(&self) -> bool {
        self.fetch.spec_valid() && self.filter.spec_valid()
    }

    /// Both must match, and the entities of components are left out unless asked for.
    open spec fn spec_filter_arch(&self, data: FetchAccessData<'w, V>) -> bool {
        &&& self.fetch.spec_filter_arch(data)
        &&& self.filter.spec_filter_arch(data)
        &&& (!data.arch.components@.contains(spec_component_info_key()) || self.include_components)
    }

    open spec fn spec_prepare_some(&self, data: FetchPrepareData<'w, V>) -> bool {
        self.fetch.spec_prepare_some(data) && self.filter.spec_prepare_some(data)
    }

    open spec fn spec_prepared(&self, data: FetchPrepareData<'w, V>, p: Filtered<Q::Prepared, F::Prepared>) -> bool {
        &&& self.fetch.spec_prepared(data, p.fetch)
        &&& self.filter.spec_prepared(data, p.filter)
        &&& p.include_components == self.include_components
    }

    open spec fn spec_access(&self, data: FetchAccessData<'w, V>) -> Seq<Access> {
        self.fetch.spec_access(data) + self.filter.spec_access(data)
    }

    open spec fn spec_required(&self) -> Seq<ComponentKey> {
        self.fetch.spec_required() + self.filter.spec_required()
    }

    proof fn lemma_prepared_small(&self, data: FetchPrepareData<'w, V>, p: Filtered<Q::Prepared, F::Prepared>, slots: Slice) {
        lemma_chain_small(self.fetch, self.filter, data, p.fetch, p.filter, slots);
    }

    fn mutable(&self) -> (r: bool) {
        self.fetch.mutable()
    }

    fn prepare(&'w self, data: FetchPrepareData<'w, V>) -> (r: Option<Filtered<Q::Prepared, F::Prepared>>) {
        let fetch = match self.fetch.prepare(data) {
            Some(q) => q,
            None => {
                return None;
            },
        };
        let filter = match self.filter.prepare(data) {
            Some(f) => f,
            None => {
                return None;
            },
        };
        Some(Filtered { fetch, filter, include_components: self.include_components })
    }

    fn filter_arch(&self, data: FetchAccessData<'w, V>) -> (r: bool) {
        self.fetch.filter_arch(data) && self.filter.filter_arch(data) && (!data.arch.has(component_info_key())
            || self.include_components)
    }

    fn access(&self, data: FetchAccessData<'w, V>, dst: &mut Vec<Access>) {
        self.fetch.access(data, dst);
        self.filter.access(data, dst);
        assert(old(dst)@ + self.fetch.spec_access(data) + self.filter.spec_access(data) =~= old(dst)@ + self.spec_access(data));
    }

    fn searcher(&self, searcher: &mut ArchetypeSearcher) {
        self.fetch.searcher(searcher);
        self.filter.searcher(searcher);
        assert(old(searcher).required@ + self.fetch.spec_required() + self.filter.spec_required()
            =~= old(searcher).required@ + self.spec_required());
    }
}


/// The items a prepared fetch yields for the slots of `batch`.
pub open spec fn batch_items<'w, Q: PreparedFetch<'w>>(fetch: Q, batch: Slice) -> Seq<Q::Item> {
    Seq::new((batch.end - batch.start) as nat, |i: int| fetch.spec_fetch(batch.start + i))
}

/// The items of every slot an iteration over `slots` yields, each fetched right after its batch
/// was found, and whether the iteration completes.
pub open spec fn spec_items<'w, Q: PreparedFetch<'w>>(fetch: Q, slots: Slice) -> (bool, Seq<Q::Item>)
    decreases slots.end - slots.start,
{
    let (ok, r, rest, f2) = spec_next_slice(fetch, slots);
    if !ok {
        (false, Seq::empty())
    } else {
        match r {
            None => (true, Seq::empty()),
            Some(m) => if rest.end - rest.start < slots.end - slots.start && rest.start <= rest.end && (forall|s: int|
                m.start <= s < m.end ==> #[trigger] f2.spec_fetch_ok(s)) {
                let (ok2, tail) = spec_items(f2, rest);
                (ok2, batch_items(f2, m) + tail)
            } else {
                (false, Seq::empty())
            },
        }
    }
}

/// Collects the items of every slot an iteration over `slots` yields, in order.
pub fn collect_items<'w, Q: PreparedFetch<'w>>(fetch: Q, slots: Slice) -> (r: Vec<Q::Item>)
    requires
        slots.wf(),
        spec_items(fetch, slots).0,
    ensures
        r@ == spec_items(fetch, slots).1,
{
    let mut it = FilterIter::new(slots, fetch);
    let mut out: Vec<Q::Item> = Vec::new();
    let ghost total = spec_items(fetch, slots).1;
    loop
        invariant
            it.slots.wf(),
            spec_items(it.fetch, it.slots).0,
            total == out@ + spec_items(it.fetch, it.slots).1,
            total == spec_items(fetch, slots).1,
        decreases it.slots.end - it.slots.start,
    {
        let ghost before = it;
        match it.next() {
            Some(m) => {
                let ghost tail = spec_items(it.fetch, it.slots).1;
                let ghost out0 = out@;
                let mut s = m.start;
                while s < m.end
                    invariant
                        m.start <= s <= m.end,
                        forall|x: int| m.start <= x < m.end ==> #[trigger] it.fetch.spec_fetch_ok(x),
                        out@ == out0 + batch_items(it.fetch, Slice { start: m.start, end: s }),
                    decreases m.end - s,
                {
                    let v = it.fetch.fetch_shared(s);
                    proof {
                        assert(out@.push(v) =~= out0 + batch_items(it.fetch, Slice { start: m.start, end: (s + 1) as usize }));
                    }
                    out.push(v);
                    s = s + 1;
                }
                proof {
                    assert(batch_items(it.fetch, Slice { start: m.start, end: s }) =~= batch_items(it.fetch, m));
                    assert(out@ + tail =~= out0 + (batch_items(it.fetch, m) + tail));
                }
            },
            None => {
                proof {
                    assert(out@ + spec_items(before.fetch, before.slots).1 =~= out@);
                }
                return out;
            },
        }
    }
}


/// The slots of `batch`, each with the item a prepared fetch yields for it.
pub open spec fn batch_rows<'w, Q: PreparedFetch<'w>>(fetch: Q, batch: Slice) -> Seq<(usize, Q::Item)> {
    Seq::new((batch.end - batch.start) as nat, |i: int| ((batch.start + i) as usize, fetch.spec_fetch(batch.start + i)))
}

/// Every slot an iteration over `slots` yields, with its item fetched right after its batch was
/// found, and whether the iteration completes.
pub open spec fn spec_rows<'w, Q: PreparedFetch<'w>>(fetch: Q, slots: Slice) -> (bool, Seq<(usize, Q::Item)>)
    decreases slots.end - slots.start,
{
    let (ok, r, rest, f2) = spec_next_slice(fetch, slots);
    if !ok {
        (false, Seq::empty())
    } else {
        match r {
            None => (true, Seq::empty()),
            Some(m) => if rest.end - rest.start < slots.end - slots.start && rest.start <= rest.end && (forall|s: int|
                m.start <= s < m.end ==> #[trigger] f2.spec_fetch_ok(s)) {
                let (ok2, tail) = spec_rows(f2, rest);
                (ok2, batch_rows(f2, m) + tail)
            } else {
                (false, Seq::empty())
            },
        }
    }
}

/// An iteration yields its rows exactly where it yields its items, and the items of the rows
/// are those items.
pub proof fn lemma_rows_items<'w, Q: PreparedFetch<'w>>(fetch: Q, slots: Slice)
    requires
        slots.wf(),
    ensures
        spec_rows(fetch, slots).0 == spec_items(fetch, slots).0,
        spec_rows(fetch, slots).1.len() == spec_items(fetch, slots).1.len(),
        forall|k: int| 0 <= k < spec_rows(fetch, slots).1.len() ==> #[trigger] spec_rows(fetch, slots).1[k].1 == spec_items(fetch, slots).1[k],
    decreases slots.end - slots.start,
{
    let (ok, r, rest, f2) = spec_next_slice(fetch, slots);
    if ok {
        lemma_next_slice_props(fetch, slots);
        if let Some(m) = r {
            if rest.end - rest.start < slots.end - slots.start && rest.start <= rest.end {
                lemma_rows_items(f2, rest);
                let a = spec_rows(fetch, slots).1;
                let b = spec_items(fetch, slots).1;
                let ta = spec_rows(f2, rest).1;
                let tb = spec_items(f2, rest).1;
                if forall|s: int| m.start <= s < m.end ==> #[trigger] f2.spec_fetch_ok(s) {
                    assert(a == batch_rows(f2, m) + ta);
                    assert(b == batch_items(f2, m) + tb);
                    let bl = batch_rows(f2, m).len();
                    assert(bl == batch_items(f2, m).len());
                    assert forall|k: int| 0 <= k < a.len() implies #[trigger] a[k].1 == b[k] by {
                        if k < bl {
                            assert(a[k] == batch_rows(f2, m)[k]);
                            assert(b[k] == batch_items(f2, m)[k]);
                        } else {
                            assert(a[k] == ta[k - bl]);
                            assert(b[k] == tb[k - bl]);
                        }
                    }
                }
            }
        }
    }
}

/// Collects every slot an iteration over `slots` yields with its item, in order, and the state
/// of the fetch once the slots are exhausted.
pub fn collect_rows<'w, Q: PreparedFetch<'w>>(fetch: Q, slots: Slice) -> (r: Vec<(usize, Q::Item)>)
    requires
        slots.wf(),
        spec_rows(fetch, slots).0,
    ensures
        r@ == spec_rows(fetch, slots).1,
{
    let mut it = FilterIter::new(slots, fetch);
    let mut out: Vec<(usize, Q::Item)> = Vec::new();
    let ghost total = spec_rows(fetch, slots).1;
    loop
        invariant
            it.slots.wf(),
            spec_rows(it.fetch, it.slots).0,
            total == out@ + spec_rows(it.fetch, it.slots).1,
            total == spec_rows(fetch, slots).1,
        decreases it.slots.end - it.slots.start,
    {
        let ghost before = it;
        match it.next() {
            Some(m) => {
                let ghost tail = spec_rows(it.fetch, it.slots).1;
                let ghost out0 = out@;
                let mut s = m.start;
                while s < m.end
                    invariant
                        m.start <= s <= m.end,
                        forall|x: int| m.start <= x < m.end ==> #[trigger] it.fetch.spec_fetch_ok(x),
                        out@ == out0 + batch_rows(it.fetch, Slice { start: m.start, end: s }),
                    decreases m.end - s,
                {
                    let v = it.fetch.fetch_shared(s);
                    proof {
                        assert(out@.push((s, v)) =~= out0 + batch_rows(it.fetch, Slice { start: m.start, end: (s + 1) as usize }));
                    }
                    out.push((s, v));
                    s = s + 1;
                }
                proof {
                    assert(batch_rows(it.fetch, Slice { start: m.start, end: s }) =~= batch_rows(it.fetch, m));
                    assert(out@ + tail =~= out0 + (batch_rows(it.fetch, m) + tail));
                }
            },
            None => {
                proof {
                    assert(out@ + spec_rows(before.fetch, before.slots).1 =~= out@);
                }
                return out;
            },
        }
    }
}

} // verus!
