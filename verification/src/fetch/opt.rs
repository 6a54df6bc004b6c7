use vstd::prelude::*;

use crate::entity::ComponentKey;
use crate::fetch::base::{Fetch, FetchAccessData, FetchPrepareData};
use crate::fetch::prepared::PreparedFetch;
use crate::filter::set::opt_prepared;
use crate::query::searcher::ArchetypeSearcher;
use crate::schedule::access::Access;
use crate::slice::{Slice, Slot};
use crate::fetch::component::ReadComponent;
use crate::world::{key_index, ComponentDesc};

verus! {

/// Yields `None` for the entities whose archetype does not match the inner fetch.
#[derive(Debug, Clone)]
pub struct Opt<F>(pub F);

/// An optional fetch prepared for one archetype: the inner fetch where it matched.
pub struct PreparedOpt<F>(pub Option<F>);

impl<F> Opt<F> {
    /// Makes a fetch optional.
    pub fn new(inner: F) -> (r: Opt<F>)
        ensures
            r.0 == inner,
    {
        Opt(inner)
    }
}

impl<'w, F: PreparedFetch<'w>> PreparedFetch<'w> for PreparedOpt<F> {
    type Item = Option<F::Item>;

    open spec fn spec_filter_ok(&self, slots: Slice) -> bool {
        match self.0 {
            Some(f) => f.spec_filter_ok(slots),
            None => true,
        }
    }

    open spec fn spec_filter(&self, slots: Slice) -> (Slice, PreparedOpt<F>) {
        match self.0 {
            Some(f) => {
                let (r, f2) = f.spec_filter(slots);
                (r, PreparedOpt(Some(f2)))
            },
            None => (slots, *self),
        }
    }

    open spec fn spec_fetch_ok(&self, slot: int) -> bool {
        match self.0 {
            Some(f) => f.spec_fetch_ok(slot),
            None => true,
        }
    }

    open spec fn spec_fetch(&self, slot: int) -> Option<F::Item> {
        match self.0 {
            Some(f) => Some(f.spec_fetch(slot)),
            None => None,
        }
    }

    fn filter_slots(&mut self, slots: Slice) -> (r: Slice) {
        match &mut self.0 {
            Some(f) => f.filter_slots(slots),
            None => slots,
        }
    }

    fn fetch_shared(&self, slot: Slot) -> (r: Option<F::Item>) {
        match &self.0 {
            Some(f) => Some(f.fetch_shared(slot)),
            None => None,
        }
    }
}

impl<'w, V, F: Fetch<'w, V>> Fetch<'w, V> for Opt<F> {
    type Prepared = PreparedOpt<F::Prepared>;

    open spec fn spec_mutable(&self) -> bool {
        self.0.spec_mutable()
    }

    open spec fn spec_valid(&self) -> bool {
        self.0.spec_valid()
    }

    open spec fn spec_filter_arch(&self, data: FetchAccessData<'w, V>) -> bool {
        true
    }

    open spec fn spec_prepare_some(&self, data: FetchPrepareData<'w, V>) -> bool {
        true
    }

    open spec fn spec_prepared(&self, data: FetchPrepareData<'w, V>, p: PreparedOpt<F::Prepared>) -> bool {
        opt_prepared(self.0, data, p.0)
    }

    open spec fn spec_access(&self, data: FetchAccessData<'w, V>) -> Seq<Access> {
        self.0.spec_access(data)
    }

    open spec fn spec_required(&self) -> Seq<ComponentKey> {
        Seq::empty()
    }

    proof fn lemma_prepared_small(&self, data: FetchPrepareData<'w, V>, p: PreparedOpt<F::Prepared>, slots: Slice) {
        if let Some(q) = p.0 {
            self.0.lemma_prepared_small(data, q, slots);
        }
    }

    fn mutable(&self) -> (r: bool) {
        self.0.mutable()
    }

    fn prepare(&'w self, data: FetchPrepareData<'w, V>) -> (r: Option<PreparedOpt<F::Prepared>>) {
        Some(PreparedOpt(self.0.prepare(data)))
    }

    fn filter_arch(&self, data: FetchAccessData<'w, V>) -> (r: bool) {
        true
    }

    fn access(&self, data: FetchAccessData<'w, V>, dst: &mut Vec<Access>) {
        self.0.access(data, dst);
    }

    fn searcher(&self, searcher: &mut ArchetypeSearcher) {
        assert(old(searcher).required@ + Seq::<ComponentKey>::empty() =~= old(searcher).required@);
    }
}

/// Yields the value of the inner fetch, or a default where the archetype does not match it.
#[derive(Debug, Clone)]
pub struct OptOr<F, T> {
    pub fetch: F,
    pub value: T,
}

impl<F, T> OptOr<F, T> {
    /// Falls back to `or` where `inner` does not match.
    pub fn new(inner: F, or: T) -> (r: OptOr<F, T>)
        ensures
            r.fetch == inner,
            r.value == or,
    {
        OptOr { fetch: inner, value: or }
    }
}

impl<'w, T, F: PreparedFetch<'w, Item = &'w T>> PreparedFetch<'w> for OptOr<Option<F>, &'w T> {
    type Item = &'w T;

    open spec fn spec_filter_ok(&self, slots: Slice) -> bool {
        match self.fetch {
            Some(f) => f.spec_filter_ok(slots),
            None => true,
        }
    }

    open spec fn spec_filter(&self, slots: Slice) -> (Slice, OptOr<Option<F>, &'w T>) {
        match self.fetch {
            Some(f) => {
                let (r, f2) = f.spec_filter(slots);
                (r, OptOr { fetch: Some(f2), value: self.value })
            },
            None => (slots, *self),
        }
    }

    open spec fn spec_fetch_ok(&self, slot: int) -> bool {
        match self.fetch {
            Some(f) => f.spec_fetch_ok(slot),
            None => true,
        }
    }

    open spec fn spec_fetch(&self, slot: int) -> &'w T {
        match self.fetch {
            Some(f) => f.spec_fetch(slot),
            None => self.value,
        }
    }

    fn filter_slots(&mut self, slots: Slice) -> (r: Slice) {
        match &mut self.fetch {
            Some(f) => f.filter_slots(slots),
            None => slots,
        }
    }

    fn fetch_shared(&self, slot: Slot) -> (r: &'w T) {
        match &self.fetch {
            Some(f) => f.fetch_shared(slot),
            None => self.value,
        }
    }
}

impl<'w, V, T: 'w, F: Fetch<'w, V>> Fetch<'w, V> for OptOr<F, T> where
    F::Prepared: PreparedFetch<'w, Item = &'w T>,
 {
    type Prepared = OptOr<Option<F::Prepared>, &'w T>;

    open spec fn spec_mutable(&self) -> bool {
        self.fetch.spec_mutable()
    }

    open spec fn spec_valid(&self) -> bool {
        self.fetch.spec_valid()
    }

    open spec fn spec_filter_arch(&self, data: FetchAccessData<'w, V>) -> bool {
        true
    }

    open spec fn spec_prepare_some(&self, data: FetchPrepareData<'w, V>) -> bool {
        true
    }

    open spec fn spec_prepared(&self, data: FetchPrepareData<'w, V>, p: OptOr<Option<F::Prepared>, &'w T>) -> bool {
        opt_prepared(self.fetch, data, p.fetch) && *p.value == self.value
    }

    open spec fn spec_access(&self, data: FetchAccessData<'w, V>) -> Seq<Access> {
        self.fetch.spec_access(data)
    }

    open spec fn spec_required(&self) -> Seq<ComponentKey> {
        Seq::empty()
    }

    proof fn lemma_prepared_small(&self, data: FetchPrepareData<'w, V>, p: OptOr<Option<F::Prepared>, &'w T>, slots: Slice) {
        if let Some(q) = p.fetch {
            self.fetch.lemma_prepared_small(data, q, slots);
        }
    }

    fn mutable(&self) -> (r: bool) {
        self.fetch.mutable()
    }

    fn prepare(&'w self, data: FetchPrepareData<'w, V>) -> (r: Option<OptOr<Option<F::Prepared>, &'w T>>) {
        Some(OptOr { fetch: self.fetch.prepare(data), value: &self.value })
    }

    fn filter_arch(&self, data: FetchAccessData<'w, V>) -> (r: bool) {
        true
    }

    fn access(&self, data: FetchAccessData<'w, V>, dst: &mut Vec<Access>) {
        self.fetch.access(data, dst);
    }

    fn searcher(&self, searcher: &mut ArchetypeSearcher) {
        assert(old(searcher).required@ + Seq::<ComponentKey>::empty() =~= old(searcher).required@);
    }
}

/// Law: a component with a default, prepared for an archetype, yields for each entity of the
/// archetype the entity's value of the component where the archetype has it, and the default
/// only where it does not.
pub proof fn lemma_opt_or_component<'w, V>(
    desc: ComponentDesc,
    default: V,
    data: FetchPrepareData<'w, V>,
    p: OptOr<Option<ReadComponent<'w, V>>, &'w V>,
    slot: int,
)
    requires
        data.arch.wf(),
        (OptOr { fetch: desc, value: default }).spec_prepared(data, p),
        0 <= slot < data.arch.entities@.len(),
    ensures
        data.arch.components@.contains(desc.key) ==> *p.spec_fetch(slot) == data.arch.cells@[key_index(data.arch.components@, desc.key)].data@[slot],
        !data.arch.components@.contains(desc.key) ==> *p.spec_fetch(slot) == default,
{
}

} // verus!
