use vstd::prelude::*;

use crate::entity::ComponentKey;
use crate::fetch::base::{Fetch, FetchAccessData, FetchPrepareData};
use crate::query::searcher::ArchetypeSearcher;
use crate::schedule::access::Access;
use crate::slice::Slice;

verus! {

/// A fetch used by reference: it behaves as the fetch it refers to.
pub struct RefFetch<'a, F>(pub &'a F);

impl<'a, 'w, V, F: Fetch<'w, V>> Fetch<'w, V> for RefFetch<'a, F> where 'a: 'w {
    type Prepared = F::Prepared;

    open spec fn spec_mutable(&self) -> bool {
        self.0.spec_mutable()
    }

    open spec fn spec_valid(&self) -> bool {
        self.0.spec_valid()
    }

    open spec fn spec_filter_arch(&self, data: FetchAccessData<'w, V>) -> bool {
        self.0.spec_filter_arch(data)
    }

    open spec fn spec_prepare_some(&self, data: FetchPrepareData<'w, V>) -> bool {
        self.0.spec_prepare_some(data)
    }

    open spec fn spec_prepared(&self, data: FetchPrepareData<'w, V>, p: F::Prepared) -> bool {
        self.0.spec_prepared(data, p)
    }

    open spec fn spec_access(&self, data: FetchAccessData<'w, V>) -> Seq<Access> {
        self.0.spec_access(data)
    }

    open spec fn spec_required(&self) -> Seq<ComponentKey> {
        self.0.spec_required()
    }

    proof fn lemma_prepared_small(&self, data: FetchPrepareData<'w, V>, p: F::Prepared, slots: Slice) {
        self.0.lemma_prepared_small(data, p, slots);
    }

    fn mutable(&self) -> (r: bool) {
        self.0.mutable()
    }

    fn prepare(&'w self, data: FetchPrepareData<'w, V>) -> (r: Option<F::Prepared>) {
        let f: &'w F = self.0;
        f.prepare(data)
    }

    fn filter_arch(&self, data: FetchAccessData<'w, V>) -> (r: bool) {
        self.0.filter_arch(data)
    }

    fn access(&self, data: FetchAccessData<'w, V>, dst: &mut Vec<Access>) {
        self.0.access(data, dst);
    }

    fn searcher(&self, searcher: &mut ArchetypeSearcher) {
        self.0.searcher(searcher);
    }
}

} // verus!
