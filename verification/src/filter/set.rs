use vstd::prelude::*;

use crate::entity::ComponentKey;
use crate::fetch::base::{small_slots, Fetch, FetchAccessData, FetchPrepareData};
use crate::fetch::prepared::{end_of, spec_min, PreparedFetch, UnionFilter};
use crate::fetch::tuple::lemma_chain_small;
use crate::query::searcher::ArchetypeSearcher;
use crate::schedule::access::Access;
use crate::slice::{min_slice, Slice, Slot};

verus! {

/// And combinator: both filters must match.
#[derive(Debug, Clone)]
pub struct And<L, R>(pub L, pub R);

impl<L, R> And<L, R> {
    /// Combines two filters.
    pub fn new(l: L, r: R) -> (res: And<L, R>)
        ensures
            res.0 == l,
            res.1 == r,
    {
        And(l, r)
    }
}

impl<'w, L: PreparedFetch<'w>, R: PreparedFetch<'w>> PreparedFetch<'w> for And<L, R> {
    type Item = (L::Item, R::Item);

    open spec fn spec_filter_ok(&self, slots: Slice) -> bool {
        &&& self.0.spec_filter_ok(slots)
        &&& self.1.spec_filter_ok(self.0.spec_filter(slots).0)
    }

    open spec fn spec_filter(&self, slots: Slice) -> (Slice, And<L, R>) {
        let (l, l2) = self.0.spec_filter(slots);
        let (r, r2) = self.1.spec_filter(l);
        (r, And(l2, r2))
    }

    open spec fn spec_fetch_ok(&self, slot: int) -> bool {
        self.0.spec_fetch_ok(slot) && self.1.spec_fetch_ok(slot)
    }

    open spec fn spec_fetch(&self, slot: int) -> (L::Item, R::Item) {
        (self.0.spec_fetch(slot), self.1.spec_fetch(slot))
    }

    fn filter_slots(&mut self, slots: Slice) -> (r: Slice) {
        let l = self.0.filter_slots(slots);
        self.1.filter_slots(l)
    }

    fn fetch_shared(&self, slot: Slot) -> (r: (L::Item, R::Item)) {
        (self.0.fetch_shared(slot), self.1.fetch_shared(slot))
    }
}

/// Or combinator: any of the filters may match.
#[derive(Debug, Clone)]
pub struct Or<T>(pub T);

/// The slice an optional filter yields; an absent filter matches nothing.
pub open spec fn opt_filter<'w, F: PreparedFetch<'w>>(f: Option<F>, slots: Slice) -> (Slice, Option<F>) {
    match f {
        Some(f) => {
            let (r, f2) = f.spec_filter(slots);
            (r, Some(f2))
        },
        None => (end_of(slots), None),
    }
}

/// Whether filtering by an optional filter completes.
pub open spec fn opt_filter_ok<'w, F: PreparedFetch<'w>>(f: Option<F>, slots: Slice) -> bool {
    match f {
        Some(f) => f.spec_filter_ok(slots),
        None => true,
    }
}

fn filter_opt<'w, F: PreparedFetch<'w>>(f: &mut Option<F>, slots: Slice) -> (r: Slice)
    requires
        slots.wf(),
        opt_filter_ok(*old(f), slots),
    ensures
        (r, *final(f)) == opt_filter(*old(f), slots),
        slots.contains_slice(r),
{
    match f {
        Some(f) => f.filter_slots(slots),
        None => Slice::new(slots.end, slots.end),
    }
}

impl<'w, A: PreparedFetch<'w>, B: PreparedFetch<'w>> PreparedFetch<'w> for Or<(Option<A>, Option<B>)> {
    type Item = ();

    open spec fn spec_filter_ok(&self, slots: Slice) -> bool {
        opt_filter_ok((self.0).0, slots) && opt_filter_ok((self.0).1, slots)
    }

    open spec fn spec_filter(&self, slots: Slice) -> (Slice, Or<(Option<A>, Option<B>)>) {
        let (a, a2) = opt_filter((self.0).0, slots);
        let (b, b2) = opt_filter((self.0).1, slots);
        (spec_min(a, b), Or((a2, b2)))
    }

    open spec fn spec_fetch_ok(&self, slot: int) -> bool {
        true
    }

    open spec fn spec_fetch(&self, slot: int) -> () {
        ()
    }

    fn filter_slots(&mut self, slots: Slice) -> (r: Slice) {
        let a = filter_opt(&mut (self.0).0, slots);
        let b = filter_opt(&mut (self.0).1, slots);
        min_slice(a, b)
    }

    fn fetch_shared(&self, slot: Slot) -> (r: ()) {
    }
}

impl<'w, A: PreparedFetch<'w>, B: PreparedFetch<'w>, C: PreparedFetch<'w>> PreparedFetch<'w> for Or<
    (Option<A>, Option<B>, Option<C>),
> {
    type Item = ();

    open spec fn spec_filter_ok(&self, slots: Slice) -> bool {
        opt_filter_ok((self.0).0, slots) && opt_filter_ok((self.0).1, slots) && opt_filter_ok(
            (self.0).2,
            slots,
        )
    }

    open spec fn spec_filter(&self, slots: Slice) -> (Slice, Or<(Option<A>, Option<B>, Option<C>)>) {
        let (a, a2) = opt_filter((self.0).0, slots);
        let (b, b2) = opt_filter((self.0).1, slots);
        let (c, c2) = opt_filter((self.0).2, slots);
        (spec_min(spec_min(a, b), c), Or((a2, b2, c2)))
    }

    open spec fn spec_fetch_ok(&self, slot: int) -> bool {
        true
    }

    open spec fn spec_fetch(&self, slot: int) -> () {
        ()
    }

    fn filter_slots(&mut self, slots: Slice) -> (r: Slice) {
        let a = filter_opt(&mut (self.0).0, slots);
        let b = filter_opt(&mut (self.0).1, slots);
        let c = filter_opt(&mut (self.0).2, slots);
        min_slice(min_slice(a, b), c)
    }

    fn fetch_shared(&self, slot: Slot) -> (r: ()) {
    }
}

impl<'w, A: PreparedFetch<'w>, B: PreparedFetch<'w>> UnionFilter<'w> for Or<(Option<A>, Option<B>)> {
    open spec fn spec_union_ok(&self, slots: Slice) -> bool {
        self.spec_filter_ok(slots)
    }

    open spec fn spec_union(&self, slots: Slice) -> (Slice, Or<(Option<A>, Option<B>)>) {
        self.spec_filter(slots)
    }

    fn filter_union(&mut self, slots: Slice) -> (r: Slice) {
        self.filter_slots(slots)
    }
}

/// Negates a filter.
#[derive(Debug, Clone)]
pub struct Not<T>(pub T);

impl<'w, F: PreparedFetch<'w>> PreparedFetch<'w> for Not<Option<F>> {
    type Item = ();

    /// Negation completes when the slots left by the inner filter are contiguous.
    open spec fn spec_filter_ok(&self, slots: Slice) -> bool {
        match self.0 {
            Some(f) => f.spec_filter_ok(slots) && slots.spec_difference(f.spec_filter(slots).0) is Some,
            None => true,
        }
    }

    open spec fn spec_filter(&self, slots: Slice) -> (Slice, Not<Option<F>>) {
        match self.0 {
            Some(f) => {
                let (v, f2) = f.spec_filter(slots);
                (slots.spec_difference(v)->0, Not(Some(f2)))
            },
            None => (slots, *self),
        }
    }

    open spec fn spec_fetch_ok(&self, slot: int) -> bool {
        true
    }

    open spec fn spec_fetch(&self, slot: int) -> () {
        ()
    }

    fn filter_slots(&mut self, slots: Slice) -> (r: Slice) {
        match &mut self.0 {
            Some(f) => {
                let v = f.filter_slots(slots);
                match slots.difference(v) {
                    Some(d) => d,
                    None => slots,
                }
            },
            None => slots,
        }
    }

    fn fetch_shared(&self, slot: Slot) -> (r: ()) {
    }
}

/// Filters by the union of the constituent filters while still requiring each of them to match
/// the archetype, so that all their items are yielded side by side.
#[derive(Debug, Clone)]
pub struct Union<T>(pub T);

impl<'w, T: PreparedFetch<'w> + UnionFilter<'w>> PreparedFetch<'w> for Union<T> {
    type Item = T::Item;

    open spec fn spec_filter_ok(&self, slots: Slice) -> bool {
        self.0.spec_union_ok(slots)
    }

    open spec fn spec_filter(&self, slots: Slice) -> (Slice, Union<T>) {
        let (r, t2) = self.0.spec_union(slots);
        (r, Union(t2))
    }

    open spec fn spec_fetch_ok(&self, slot: int) -> bool {
        self.0.spec_fetch_ok(slot)
    }

    open spec fn spec_fetch(&self, slot: int) -> T::Item {
        self.0.spec_fetch(slot)
    }

    fn filter_slots(&mut self, slots: Slice) -> (r: Slice) {
        self.0.filter_union(slots)
    }

    fn fetch_shared(&self, slot: Slot) -> (r: T::Item) {
        self.0.fetch_shared(slot)
    }
}

impl<'w, T: UnionFilter<'w>> UnionFilter<'w> for Union<T> {
    open spec fn spec_union_ok(&self, slots: Slice) -> bool {
        self.0.spec_union_ok(slots)
    }

    open spec fn spec_union(&self, slots: Slice) -> (Slice, Union<T>) {
        let (r, t2) = self.0.spec_union(slots);
        (r, Union(t2))
    }

    fn filter_union(&mut self, slots: Slice) -> (r: Slice) {
        self.0.filter_union(slots)
    }
}

/// Law: the slots a negated filter yields are exactly the visited slots the inner filter did
/// not yield.
pub proof fn lemma_not_complements<'w, F: PreparedFetch<'w>>(f: F, slots: Slice, s: int)
    requires
        slots.wf(),
        Not(Some(f)).spec_filter_ok(slots),
        slots.contains_slice(f.spec_filter(slots).0),
    ensures
        Not(Some(f)).spec_filter(slots).0.has(s) <==> (slots.has(s) && !f.spec_filter(slots).0.has(s)),
{
}


/// What holds of an optional prepared fetch: present exactly where preparing succeeds.
pub open spec fn opt_prepared<'w, V, F: Fetch<'w, V>>(f: F, data: FetchPrepareData<'w, V>, o: Option<F::Prepared>) -> bool {
    match o {
        Some(q) => f.spec_prepare_some(data) && f.spec_prepared(data, q),
        None => !f.spec_prepare_some(data),
    }
}

/// An optional prepared fetch filters a small slice within itself.
pub proof fn lemma_opt_small<'w, V, F: Fetch<'w, V>>(f: F, data: FetchPrepareData<'w, V>, o: Option<F::Prepared>, slots: Slice)
    requires
        data.wf(),
        f.spec_valid(),
        opt_prepared(f, data, o),
        small_slots(slots, data.arch_len()),
    ensures
        opt_filter_ok(o, slots),
        slots.contains_slice(opt_filter(o, slots).0),
{
    if let Some(q) = o {
        f.lemma_prepared_small(data, q, slots);
    }
}

/// The smaller of two subslices of `slots` is a subslice of `slots`.
pub proof fn lemma_min_within(slots: Slice, a: Slice, b: Slice)
    requires
        slots.contains_slice(a),
        slots.contains_slice(b),
    ensures
        slots.contains_slice(spec_min(a, b)),
{
}

impl<'w, V, L: Fetch<'w, V>, R: Fetch<'w, V>> Fetch<'w, V> for And<L, R> {
    type Prepared = And<L::Prepared, R::Prepared>;

    open spec fn spec_mutable(&self) -> bool {
        false
    }

    open spec fn spec_valid(&self) -> bool {
        self.0.spec_valid() && self.1.spec_valid()
    }

    open spec fn spec_filter_arch(&self, data: FetchAccessData<'w, V>) -> bool {
        self.0.spec_filter_arch(data) && self.1.spec_filter_arch(data)
    }

    open spec fn spec_prepare_some(&self, data: FetchPrepareData<'w, V>) -> bool {
        self.0.spec_prepare_some(data) && self.1.spec_prepare_some(data)
    }

    open spec fn spec_prepared(&self, data: FetchPrepareData<'w, V>, p: And<L::Prepared, R::Prepared>) -> bool {
        self.0.spec_prepared(data, p.0) && self.1.spec_prepared(data, p.1)
    }

    open spec fn spec_access(&self, data: FetchAccessData<'w, V>) -> Seq<Access> {
        self.0.spec_access(data) + self.1.spec_access(data)
    }

    open spec fn spec_required(&self) -> Seq<ComponentKey> {
        self.0.spec_required() + self.1.spec_required()
    }

    proof fn lemma_prepared_small(&self, data: FetchPrepareData<'w, V>, p: And<L::Prepared, R::Prepared>, slots: Slice) {
        lemma_chain_small(self.0, self.1, data, p.0, p.1, slots);
    }

    fn mutable(&self) -> (r: bool) {
        false
    }

    fn prepare(&'w self, data: FetchPrepareData<'w, V>) -> (r: Option<And<L::Prepared, R::Prepared>>) {
        let l = match self.0.prepare(data) {
            Some(l) => l,
            None => {
                return None;
            },
        };
        let r = match self.1.prepare(data) {
            Some(r) => r,
            None => {
                return None;
            },
        };
        Some(And(l, r))
    }

    fn filter_arch(&self, data: FetchAccessData<'w, V>) -> (r: bool) {
        self.0.filter_arch(data) && self.1.filter_arch(data)
    }

    fn access(&self, data: FetchAccessData<'w, V>, dst: &mut Vec<Access>) {
        self.0.access(data, dst);
        self.1.access(data, dst);
        assert(old(dst)@ + self.0.spec_access(data) + self.1.spec_access(data) =~= old(dst)@ + self.spec_access(data));
    }

    fn searcher(&self, searcher: &mut ArchetypeSearcher) {
        self.0.searcher(searcher);
        self.1.searcher(searcher);
        assert(old(searcher).required@ + self.0.spec_required() + self.1.spec_required()
            =~= old(searcher).required@ + self.spec_required());
    }
}

impl<'w, V, A: Fetch<'w, V>, B: Fetch<'w, V>> Fetch<'w, V> for Or<(A, B)> {
    type Prepared = Or<(Option<A::Prepared>, Option<B::Prepared>)>;

    open spec fn spec_mutable(&self) -> bool {
        (self.0).0.spec_mutable() || (self.0).1.spec_mutable()
    }

    open spec fn spec_valid(&self) -> bool {
        (self.0).0.spec_valid() && (self.0).1.spec_valid()
    }

    open spec fn spec_filter_arch(&self, data: FetchAccessData<'w, V>) -> bool {
        (self.0).0.spec_filter_arch(data) || (self.0).1.spec_filter_arch(data)
    }

    open spec fn spec_prepare_some(&self, data: FetchPrepareData<'w, V>) -> bool {
        true
    }

    open spec fn spec_prepared(&self, data: FetchPrepareData<'w, V>, p: Or<(Option<A::Prepared>, Option<B::Prepared>)>) -> bool {
        opt_prepared((self.0).0, data, (p.0).0) && opt_prepared((self.0).1, data, (p.0).1)
    }

    open spec fn spec_access(&self, data: FetchAccessData<'w, V>) -> Seq<Access> {
        (self.0).0.spec_access(data) + (self.0).1.spec_access(data)
    }

    open spec fn spec_required(&self) -> Seq<ComponentKey> {
        Seq::empty()
    }

    proof fn lemma_prepared_small(
        &self,
        data: FetchPrepareData<'w, V>,
        p: Or<(Option<A::Prepared>, Option<B::Prepared>)>,
        slots: Slice,
    ) {
        lemma_opt_small((self.0).0, data, (p.0).0, slots);
        lemma_opt_small((self.0).1, data, (p.0).1, slots);
        lemma_min_within(slots, opt_filter((p.0).0, slots).0, opt_filter((p.0).1, slots).0);
    }

    fn mutable(&self) -> (r: bool) {
        (self.0).0.mutable() || (self.0).1.mutable()
    }

    fn prepare(&'w self, data: FetchPrepareData<'w, V>) -> (r: Option<Or<(Option<A::Prepared>, Option<B::Prepared>)>>) {
        let inner = &self.0;
        Some(Or((inner.0.prepare(data), inner.1.prepare(data))))
    }

    fn filter_arch(&self, data: FetchAccessData<'w, V>) -> (r: bool) {
        (self.0).0.filter_arch(data) || (self.0).1.filter_arch(data)
    }

    fn access(&self, data: FetchAccessData<'w, V>, dst: &mut Vec<Access>) {
        (self.0).0.access(data, dst);
        (self.0).1.access(data, dst);
        assert(old(dst)@ + (self.0).0.spec_access(data) + (self.0).1.spec_access(data) =~= old(dst)@ + self.spec_access(data));
    }

    fn searcher(&self, searcher: &mut ArchetypeSearcher) {
        assert(old(searcher).required@ + Seq::<ComponentKey>::empty() =~= old(searcher).required@);
    }
}

impl<'w, V, A: Fetch<'w, V>, B: Fetch<'w, V>, C: Fetch<'w, V>> Fetch<'w, V> for Or<(A, B, C)> {
    type Prepared = Or<(Option<A::Prepared>, Option<B::Prepared>, Option<C::Prepared>)>;

    open spec fn spec_mutable(&self) -> bool {
        (self.0).0.spec_mutable() || (self.0).1.spec_mutable() || (self.0).2.spec_mutable()
    }

    open spec fn spec_valid(&self) -> bool {
        (self.0).0.spec_valid() && (self.0).1.spec_valid() && (self.0).2.spec_valid()
    }

    open spec fn spec_filter_arch(&self, data: FetchAccessData<'w, V>) -> bool {
        (self.0).0.spec_filter_arch(data) || (self.0).1.spec_filter_arch(data) || (self.0).2.spec_filter_arch(data)
    }

    open spec fn spec_prepare_some(&self, data: FetchPrepareData<'w, V>) -> bool {
        true
    }

    open spec fn spec_prepared(
        &self,
        data: FetchPrepareData<'w, V>,
        p: Or<(Option<A::Prepared>, Option<B::Prepared>, Option<C::Prepared>)>,
    ) -> bool {
        &&& opt_prepared((self.0).0, data, (p.0).0)
        &&& opt_prepared((self.0).1, data, (p.0).1)
        &&& opt_prepared((self.0).2, data, (p.0).2)
    }

    open spec fn spec_access(&self, data: FetchAccessData<'w, V>) -> Seq<Access> {
        (self.0).0.spec_access(data) + (self.0).1.spec_access(data) + (self.0).2.spec_access(data)
    }

    open spec fn spec_required(&self) -> Seq<ComponentKey> {
        Seq::empty()
    }

    proof fn lemma_prepared_small(
        &self,
        data: FetchPrepareData<'w, V>,
        p: Or<(Option<A::Prepared>, Option<B::Prepared>, Option<C::Prepared>)>,
        slots: Slice,
    ) {
        lemma_opt_small((self.0).0, data, (p.0).0, slots);
        lemma_opt_small((self.0).1, data, (p.0).1, slots);
        lemma_opt_small((self.0).2, data, (p.0).2, slots);
        let a = opt_filter((p.0).0, slots).0;
        let b = opt_filter((p.0).1, slots).0;
        let c = opt_filter((p.0).2, slots).0;
        lemma_min_within(slots, a, b);
        lemma_min_within(slots, spec_min(a, b), c);
    }

    fn mutable(&self) -> (r: bool) {
        (self.0).0.mutable() || (self.0).1.mutable() || (self.0).2.mutable()
    }

    fn prepare(&'w self, data: FetchPrepareData<'w, V>) -> (r: Option<Or<(Option<A::Prepared>, Option<B::Prepared>, Option<C::Prepared>)>>) {
        let inner = &self.0;
        Some(Or((inner.0.prepare(data), inner.1.prepare(data), inner.2.prepare(data))))
    }

    fn filter_arch(&self, data: FetchAccessData<'w, V>) -> (r: bool) {
        (self.0).0.filter_arch(data) || (self.0).1.filter_arch(data) || (self.0).2.filter_arch(data)
    }

    fn access(&self, data: FetchAccessData<'w, V>, dst: &mut Vec<Access>) {
        (self.0).0.access(data, dst);
        (self.0).1.access(data, dst);
        (self.0).2.access(data, dst);
        assert(old(dst)@ + (self.0).0.spec_access(data) + (self.0).1.spec_access(data) + (self.0).2.spec_access(data)
            =~= old(dst)@ + self.spec_access(data));
    }

    fn searcher(&self, searcher: &mut ArchetypeSearcher) {
        assert(old(searcher).required@ + Seq::<ComponentKey>::empty() =~= old(searcher).required@);
    }
}

impl<'w, V, T: Fetch<'w, V>> Fetch<'w, V> for Not<T> {
    type Prepared = Not<Option<T::Prepared>>;

    open spec fn spec_mutable(&self) -> bool {
        true
    }

    open spec fn spec_valid(&self) -> bool {
        self.0.spec_valid()
    }

    open spec fn spec_filter_arch(&self, data: FetchAccessData<'w, V>) -> bool {
        !self.0.spec_filter_arch(data)
    }

    open spec fn spec_prepare_some(&self, data: FetchPrepareData<'w, V>) -> bool {
        true
    }

    open spec fn spec_prepared(&self, data: FetchPrepareData<'w, V>, p: Not<Option<T::Prepared>>) -> bool {
        opt_prepared(self.0, data, p.0)
    }

    open spec fn spec_access(&self, data: FetchAccessData<'w, V>) -> Seq<Access> {
        self.0.spec_access(data)
    }

    open spec fn spec_required(&self) -> Seq<ComponentKey> {
        Seq::empty()
    }

    proof fn lemma_prepared_small(&self, data: FetchPrepareData<'w, V>, p: Not<Option<T::Prepared>>, slots: Slice) {
        if let Some(q) = p.0 {
            self.0.lemma_prepared_small(data, q, slots);
        }
    }

    fn mutable(&self) -> (r: bool) {
        true
    }

    fn prepare(&'w self, data: FetchPrepareData<'w, V>) -> (r: Option<Not<Option<T::Prepared>>>) {
        Some(Not(self.0.prepare(data)))
    }

    fn filter_arch(&self, data: FetchAccessData<'w, V>) -> (r: bool) {
        !self.0.filter_arch(data)
    }

    fn access(&self, data: FetchAccessData<'w, V>, dst: &mut Vec<Access>) {
        self.0.access(data, dst);
    }

    fn searcher(&self, searcher: &mut ArchetypeSearcher) {
        assert(old(searcher).required@ + Seq::<ComponentKey>::empty() =~= old(searcher).required@);
    }
}

impl<'w, V, A: Fetch<'w, V>, B: Fetch<'w, V>> Fetch<'w, V> for Union<(A, B)> {
    type Prepared = Union<(A::Prepared, B::Prepared)>;

    open spec fn spec_mutable(&self) -> bool {
        (self.0).0.spec_mutable() || (self.0).1.spec_mutable()
    }

    open spec fn spec_valid(&self) -> bool {
        (self.0).0.spec_valid() && (self.0).1.spec_valid()
    }

    open spec fn spec_filter_arch(&self, data: FetchAccessData<'w, V>) -> bool {
        (self.0).0.spec_filter_arch(data) && (self.0).1.spec_filter_arch(data)
    }

    open spec fn spec_prepare_some(&self, data: FetchPrepareData<'w, V>) -> bool {
        (self.0).0.spec_prepare_some(data) && (self.0).1.spec_prepare_some(data)
    }

    open spec fn spec_prepared(&self, data: FetchPrepareData<'w, V>, p: Union<(A::Prepared, B::Prepared)>) -> bool {
        (self.0).0.spec_prepared(data, (p.0).0) && (self.0).1.spec_prepared(data, (p.0).1)
    }

    open spec fn spec_access(&self, data: FetchAccessData<'w, V>) -> Seq<Access> {
        (self.0).0.spec_access(data) + (self.0).1.spec_access(data)
    }

    open spec fn spec_required(&self) -> Seq<ComponentKey> {
        Seq::empty()
    }

    proof fn lemma_prepared_small(&self, data: FetchPrepareData<'w, V>, p: Union<(A::Prepared, B::Prepared)>, slots: Slice) {
        (self.0).0.lemma_prepared_small(data, (p.0).0, slots);
        (self.0).1.lemma_prepared_small(data, (p.0).1, slots);
        lemma_min_within(slots, (p.0).0.spec_filter(slots).0, (p.0).1.spec_filter(slots).0);
    }

    fn mutable(&self) -> (r: bool) {
        (self.0).0.mutable() || (self.0).1.mutable()
    }

    fn prepare(&'w self, data: FetchPrepareData<'w, V>) -> (r: Option<Union<(A::Prepared, B::Prepared)>>) {
        let inner = &self.0;
        let a = match inner.0.prepare(data) {
            Some(a) => a,
            None => {
                return None;
            },
        };
        let b = match inner.1.prepare(data) {
            Some(b) => b,
            None => {
                return None;
            },
        };
        Some(Union((a, b)))
    }

    fn filter_arch(&self, data: FetchAccessData<'w, V>) -> (r: bool) {
        (self.0).0.filter_arch(data) && (self.0).1.filter_arch(data)
    }

    fn access(&self, data: FetchAccessData<'w, V>, dst: &mut Vec<Access>) {
        (self.0).0.access(data, dst);
        (self.0).1.access(data, dst);
        assert(old(dst)@ + (self.0).0.spec_access(data) + (self.0).1.spec_access(data) =~= old(dst)@ + self.spec_access(data));
    }

    fn searcher(&self, searcher: &mut ArchetypeSearcher) {
        assert(old(searcher).required@ + Seq::<ComponentKey>::empty() =~= old(searcher).required@);
    }
}

} // verus!
