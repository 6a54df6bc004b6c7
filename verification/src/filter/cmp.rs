use vstd::prelude::*;

use crate::entity::ComponentKey;
use crate::fetch::base::{Fetch, FetchAccessData, FetchPrepareData};
use crate::fetch::prepared::PreparedFetch;
use crate::query::searcher::ArchetypeSearcher;
use crate::schedule::access::Access;
use crate::slice::{Slice, Slot};

verus! {

/// A test of a fetched value.
pub trait CmpMethod<L> {
    /// Whether `lhs` passes.
    spec fn spec_compare(&self, lhs: L) -> bool;

    /// Whether `lhs` passes.
    fn compare(&self, lhs: L) -> (r: bool)
        ensures
            r == self.spec_compare(lhs),
    ;
}

/// Passes values less than the given one.
#[derive(Debug, Clone, Copy)]
pub struct Less<R>(pub R);

/// Passes values greater than the given one.
#[derive(Debug, Clone, Copy)]
pub struct Greater<R>(pub R);

/// Passes values equal to the given one.
#[derive(Debug, Clone, Copy)]
pub struct Equal<R>(pub R);

/// Passes values less than or equal to the given one.
#[derive(Debug, Clone, Copy)]
pub struct LessEq<R>(pub R);

/// Passes values greater than or equal to the given one.
#[derive(Debug, Clone, Copy)]
pub struct GreaterEq<R>(pub R);

impl<'a> CmpMethod<&'a i32> for Less<i32> {
    open spec fn spec_compare(&self, lhs: &'a i32) -> bool {
        *lhs < self.0
    }

    fn compare(&self, lhs: &'a i32) -> (r: bool) {
        *lhs < self.0
    }
}

impl<'a> CmpMethod<&'a i32> for Greater<i32> {
    open spec fn spec_compare(&self, lhs: &'a i32) -> bool {
        *lhs > self.0
    }

    fn compare(&self, lhs: &'a i32) -> (r: bool) {
        *lhs > self.0
    }
}

impl<'a> CmpMethod<&'a i32> for Equal<i32> {
    open spec fn spec_compare(&self, lhs: &'a i32) -> bool {
        *lhs == self.0
    }

    fn compare(&self, lhs: &'a i32) -> (r: bool) {
        *lhs == self.0
    }
}

impl<'a> CmpMethod<&'a i32> for LessEq<i32> {
    open spec fn spec_compare(&self, lhs: &'a i32) -> bool {
        *lhs <= self.0
    }

    fn compare(&self, lhs: &'a i32) -> (r: bool) {
        *lhs <= self.0
    }
}

impl<'a> CmpMethod<&'a i32> for GreaterEq<i32> {
    open spec fn spec_compare(&self, lhs: &'a i32) -> bool {
        *lhs >= self.0
    }

    fn compare(&self, lhs: &'a i32) -> (r: bool) {
        *lhs >= self.0
    }
}

/// An optional value is greater than `Some` of a bound exactly where it is present and greater
/// than the bound, as `Option` orders `None` below every `Some`.
impl<'a> CmpMethod<Option<&'a i32>> for Greater<i32> {
    open spec fn spec_compare(&self, lhs: Option<&'a i32>) -> bool {
        lhs matches Some(v) && *v > self.0
    }

    fn compare(&self, lhs: Option<&'a i32>) -> (r: bool) {
        match lhs {
            Some(v) => *v > self.0,
            None => false,
        }
    }
}

/// An optional value is less than `Some` of a bound where it is absent, or present and less
/// than the bound.
impl<'a> CmpMethod<Option<&'a i32>> for Less<i32> {
    open spec fn spec_compare(&self, lhs: Option<&'a i32>) -> bool {
        match lhs {
            Some(v) => *v < self.0,
            None => true,
        }
    }

    fn compare(&self, lhs: Option<&'a i32>) -> (r: bool) {
        match lhs {
            Some(v) => *v < self.0,
            None => true,
        }
    }
}

/// Law: the comparisons of integer values follow the integer order: `Less(b)` passes exactly
/// the values below `b`, `LessEq(b)` those below or equal to `b` (so `b` itself passes),
/// `Greater(b)` those above, `GreaterEq(b)` those above or equal (so `b` itself passes) and
/// `Equal(b)` only `b`. Of an optional value, `Greater(b)` passes a present value above `b` and
/// never an absent one; `Less(b)` passes a present value below `b` and always an absent one.
pub proof fn lemma_int_comparisons(b: i32, v: i32)
    ensures
        Less(b).spec_compare(&v) <==> v < b,
        LessEq(b).spec_compare(&v) <==> v < b || v == b,
        Greater(b).spec_compare(&v) <==> v > b,
        GreaterEq(b).spec_compare(&v) <==> v > b || v == b,
        Equal(b).spec_compare(&v) <==> v == b,
        LessEq(b).spec_compare(&b) && GreaterEq(b).spec_compare(&b) && Equal(b).spec_compare(&b),
        !Less(b).spec_compare(&b) && !Greater(b).spec_compare(&b),
        LessEq(b).spec_compare(&v) <==> !Greater(b).spec_compare(&v),
        GreaterEq(b).spec_compare(&v) <==> !Less(b).spec_compare(&v),
        Greater(b).spec_compare(Some(&v)) <==> v > b,
        !Greater(b).spec_compare(None::<&i32>),
        Less(b).spec_compare(Some(&v)) <==> v < b,
        Less(b).spec_compare(None::<&i32>),
{
}

/// Filters the entities by a test of the values a fetch yields.
#[derive(Debug, Clone)]
pub struct Cmp<F, M> {
    pub fetch: F,
    pub method: M,
}

impl<F, M> Cmp<F, M> {
    /// Filters by `method` applied to the items of `fetch`.
    pub fn new(fetch: F, method: M) -> (r: Cmp<F, M>)
        ensures
            r.fetch == fetch,
            r.method == method,
    {
        Cmp { fetch, method }
    }
}

/// A comparison prepared for one archetype.
pub struct PreparedCmp<'w, F, M> {
    pub fetch: F,
    pub method: &'w M,
}

/// The first slot of `start..end` whose item passes, or `end`.
pub open spec fn first_passing<'w, F: PreparedFetch<'w>, M: CmpMethod<F::Item>>(f: F, m: M, start: int, end: int) -> int
    decreases end - start,
{
    if start >= end {
        end
    } else if m.spec_compare(f.spec_fetch(start)) {
        start
    } else {
        first_passing(f, m, start + 1, end)
    }
}

/// The end of the run of passing slots that starts at `start`, within `start..end`.
pub open spec fn passing_run_end<'w, F: PreparedFetch<'w>, M: CmpMethod<F::Item>>(f: F, m: M, start: int, end: int) -> int
    decreases end - start,
{
    if start >= end {
        end
    } else if m.spec_compare(f.spec_fetch(start)) {
        passing_run_end(f, m, start + 1, end)
    } else {
        start
    }
}

proof fn lemma_first_passing<'w, F: PreparedFetch<'w>, M: CmpMethod<F::Item>>(f: F, m: M, start: int, end: int)
    requires
        start <= end,
    ensures
        start <= first_passing(f, m, start, end) <= end,
        start <= passing_run_end(f, m, start, end) <= end,
        forall|s: int| start <= s < first_passing(f, m, start, end) ==> !m.spec_compare(#[trigger] f.spec_fetch(s)),
        forall|s: int| start <= s < passing_run_end(f, m, start, end) ==> m.spec_compare(#[trigger] f.spec_fetch(s)),
    decreases end - start,
{
    if start < end {
        lemma_first_passing(f, m, start + 1, end);
    }
}

impl<'w, Q: PreparedFetch<'w>, M: CmpMethod<Q::Item>> PreparedFetch<'w> for PreparedCmp<'w, Q, M> {
    type Item = Q::Item;

    open spec fn spec_filter_ok(&self, slots: Slice) -> bool {
        &&& self.fetch.spec_filter_ok(slots)
        &&& slots.contains_slice(self.fetch.spec_filter(slots).0)
        &&& forall|slot: int| self.fetch.spec_filter(slots).0.start <= slot < self.fetch.spec_filter(slots).0.end
            ==> #[trigger] self.fetch.spec_filter(slots).1.spec_fetch_ok(slot)
    }

    /// The first run of slots whose items pass, among those the inner fetch yields.
    open spec fn spec_filter(&self, slots: Slice) -> (Slice, PreparedCmp<'w, Q, M>) {
        let (s, q2) = self.fetch.spec_filter(slots);
        let first = first_passing(q2, *self.method, s.start as int, s.end as int);
        let end = passing_run_end(q2, *self.method, first, s.end as int);
        (Slice { start: first as usize, end: end as usize }, PreparedCmp { fetch: q2, method: self.method })
    }

    open spec fn spec_fetch_ok(&self, slot: int) -> bool {
        self.fetch.spec_fetch_ok(slot)
    }

    open spec fn spec_fetch(&self, slot: int) -> Q::Item {
        self.fetch.spec_fetch(slot)
    }

    fn filter_slots(&mut self, slots: Slice) -> (r: Slice) {
        let ghost orig = *self;
        let s = self.fetch.filter_slots(slots);
        let ghost q2 = self.fetch;
        assert((s, q2) == orig.fetch.spec_filter(slots));
        proof {
            assert(orig == *old(self));
            assert forall|slot: int| s.start <= slot < s.end implies #[trigger] q2.spec_fetch_ok(slot) by {
                assert(old(self).fetch.spec_filter(slots).1.spec_fetch_ok(slot));
            }
        }
        let m: &M = self.method;
        proof {
            lemma_first_passing(q2, *m, s.start as int, s.end as int);
        }
        let mut first = s.start;
        let mut found = false;
        while first < s.end && !found
            invariant
                s.start <= first <= s.end,
                self.fetch == q2,
                forall|slot: int| s.start <= slot < s.end ==> #[trigger] q2.spec_fetch_ok(slot),
                found ==> first < s.end && m.spec_compare(q2.spec_fetch(first as int)),
                first_passing(q2, *m, first as int, s.end as int) == first_passing(q2, *m, s.start as int, s.end as int),
            decreases s.end - first + (if found { 0int } else { 1int }),
        {
            if m.compare(self.fetch.fetch_shared(first)) {
                found = true;
            } else {
                first = first + 1;
            }
        }
        assert(first == first_passing(q2, *m, s.start as int, s.end as int));
        let mut end = first;
        proof {
            lemma_first_passing(q2, *m, first as int, s.end as int);
        }
        let mut stopped = false;
        while end < s.end && !stopped
            invariant
                first <= end <= s.end,
                self.fetch == q2,
                forall|slot: int| s.start <= slot < s.end ==> #[trigger] q2.spec_fetch_ok(slot),
                s.start <= first,
                stopped ==> end < s.end && !m.spec_compare(q2.spec_fetch(end as int)),
                passing_run_end(q2, *m, end as int, s.end as int) == passing_run_end(q2, *m, first as int, s.end as int),
            decreases s.end - end + (if stopped { 0int } else { 1int }),
        {
            if !m.compare(self.fetch.fetch_shared(end)) {
                stopped = true;
            } else {
                end = end + 1;
            }
        }
        assert(end == passing_run_end(q2, *m, first as int, s.end as int));
        Slice::new(first, end)
    }

    fn fetch_shared(&self, slot: Slot) -> (r: Q::Item) {
        self.fetch.fetch_shared(slot)
    }
}

impl<'w, V, F: Fetch<'w, V>, M: CmpMethod<<F::Prepared as PreparedFetch<'w>>::Item> + 'w> Fetch<'w, V> for Cmp<F, M> {
    type Prepared = PreparedCmp<'w, F::Prepared, M>;

    open spec fn spec_mutable(&self) -> bool {
        self.fetch.spec_mutable()
    }

    open spec fn spec_valid(&self) -> bool {
        self.fetch.spec_valid()
    }

    open spec fn spec_filter_arch(&self, data: FetchAccessData<'w, V>) -> bool {
        self.fetch.spec_filter_arch(data)
    }

    open spec fn spec_prepare_some(&self, data: FetchPrepareData<'w, V>) -> bool {
        self.fetch.spec_prepare_some(data)
    }

    open spec fn spec_prepared(&self, data: FetchPrepareData<'w, V>, p: PreparedCmp<'w, F::Prepared, M>) -> bool {
        self.fetch.spec_prepared(data, p.fetch) && *p.method == self.method
    }

    open spec fn spec_access(&self, data: FetchAccessData<'w, V>) -> Seq<Access> {
        self.fetch.spec_access(data)
    }

    open spec fn spec_required(&self) -> Seq<ComponentKey> {
        self.fetch.spec_required()
    }

    proof fn lemma_prepared_small(&self, data: FetchPrepareData<'w, V>, p: PreparedCmp<'w, F::Prepared, M>, slots: Slice) {
        self.fetch.lemma_prepared_small(data, p.fetch, slots);
        let (s, q2) = p.fetch.spec_filter(slots);
        lemma_first_passing(q2, *p.method, s.start as int, s.end as int);
        let first = first_passing(q2, *p.method, s.start as int, s.end as int);
        lemma_first_passing(q2, *p.method, first, s.end as int);
    }

    fn mutable(&self) -> (r: bool) {
        self.fetch.mutable()
    }

    fn prepare(&'w self, data: FetchPrepareData<'w, V>) -> (r: Option<PreparedCmp<'w, F::Prepared, M>>) {
        match self.fetch.prepare(data) {
            Some(p) => Some(PreparedCmp { fetch: p, method: &self.method }),
            None => None,
        }
    }

    fn filter_arch(&self, data: FetchAccessData<'w, V>) -> (r: bool) {
        self.fetch.filter_arch(data)
    }

    fn access(&self, data: FetchAccessData<'w, V>, dst: &mut Vec<Access>) {
        self.fetch.access(data, dst);
    }

    fn searcher(&self, searcher: &mut ArchetypeSearcher) {
        self.fetch.searcher(searcher);
    }
}

} // verus!
