use vstd::prelude::*;

use crate::entity::ComponentKey;
use crate::fetch::base::{Fetch, FetchAccessData, FetchPrepareData};
use crate::fetch::component::{component_access, component_values, lemma_values_len, ReadComponent};
use crate::fetch::prepared::PreparedFetch;
use crate::query::searcher::ArchetypeSearcher;
use crate::schedule::access::Access;
use crate::slice::{Slice, Slot};
use crate::world::ComponentDesc;

verus! {

/// Yields copies of the values of a component instead of references.
#[derive(Debug, Clone)]
pub struct Copied<F>(pub F);

impl<F> Copied<F> {
    /// Copies the values `inner` yields.
    pub fn new(inner: F) -> (r: Copied<F>)
        ensures
            r.0 == inner,
    {
        Copied(inner)
    }
}

impl<'w, V: Copy> PreparedFetch<'w> for Copied<ReadComponent<'w, V>> {
    type Item = V;

    open spec fn spec_filter_ok(&self, slots: Slice) -> bool {
        true
    }

    open spec fn spec_filter(&self, slots: Slice) -> (Slice, Copied<ReadComponent<'w, V>>) {
        (slots, *self)
    }

    open spec fn spec_fetch_ok(&self, slot: int) -> bool {
        0 <= slot < self.0.data@.len()
    }

    open spec fn spec_fetch(&self, slot: int) -> V {
        self.0.data@[slot]
    }

    fn filter_slots(&mut self, slots: Slice) -> (r: Slice) {
        slots
    }

    fn fetch_shared(&self, slot: Slot) -> (r: V) {
        self.0.data[slot]
    }
}

impl<'w, V: Copy + 'w> Fetch<'w, V> for Copied<ComponentDesc> {
    type Prepared = Copied<ReadComponent<'w, V>>;

    open spec fn spec_mutable(&self) -> bool {
        false
    }

    open spec fn spec_valid(&self) -> bool {
        true
    }

    open spec fn spec_filter_arch(&self, data: FetchAccessData<'w, V>) -> bool {
        data.arch.components@.contains(self.0.key)
    }

    open spec fn spec_prepare_some(&self, data: FetchPrepareData<'w, V>) -> bool {
        data.arch.components@.contains(self.0.key)
    }

    open spec fn spec_prepared(&self, data: FetchPrepareData<'w, V>, p: Copied<ReadComponent<'w, V>>) -> bool {
        &&& data.arch.components@.contains(self.0.key)
        &&& p.0.data@ == component_values(data, self.0.key)
    }

    open spec fn spec_access(&self, data: FetchAccessData<'w, V>) -> Seq<Access> {
        component_access(data, self.0.key, false)
    }

    open spec fn spec_required(&self) -> Seq<ComponentKey> {
        seq![self.0.key]
    }

    proof fn lemma_prepared_small(&self, data: FetchPrepareData<'w, V>, p: Copied<ReadComponent<'w, V>>, slots: Slice) {
        lemma_values_len(data, self.0.key);
    }

    fn mutable(&self) -> (r: bool) {
        false
    }

    fn prepare(&'w self, data: FetchPrepareData<'w, V>) -> (r: Option<Copied<ReadComponent<'w, V>>>) {
        match self.0.prepare(data) {
            Some(p) => Some(Copied(p)),
            None => None,
        }
    }

    fn filter_arch(&self, data: FetchAccessData<'w, V>) -> (r: bool) {
        self.0.filter_arch(data)
    }

    fn access(&self, data: FetchAccessData<'w, V>, dst: &mut Vec<Access>) {
        self.0.access(data, dst);
    }

    fn searcher(&self, searcher: &mut ArchetypeSearcher) {
        <ComponentDesc as Fetch<'w, V>>::searcher(&self.0, searcher);
    }
}

} // verus!
