use vstd::prelude::*;

use crate::entity::ComponentKey;
use crate::fetch::base::{Fetch, FetchAccessData, FetchItem, FetchPrepareData};
use crate::query::searcher::ArchetypeSearcher;
use crate::schedule::access::Access;
use crate::slice::Slice;

verus! {

/// A fetch which is expected to match every archetype, with a message that says why.
///
/// It matches every archetype; preparing it for one the inner fetch cannot be prepared for
/// yields nothing.
#[derive(Debug, Clone)]
pub struct Expect<Q> {
    pub msg: String,
    pub fetch: Q,
}

impl<Q> Expect<Q> {
    /// Expects `fetch` to match, for the reason `msg`.
    pub fn new(fetch: Q, msg: String) -> (r: Expect<Q>)
        ensures
            r.fetch == fetch,
            r.msg == msg,
    {
        Expect { fetch, msg }
    }
}

impl<'q, Q: FetchItem<'q>> FetchItem<'q> for Expect<Q> {
    type Item = Q::Item;
}

impl<'w, V, Q: Fetch<'w, V>> Fetch<'w, V> for Expect<Q> {
    type Prepared = Q::Prepared;

    open spec fn spec_mutable(&self) -> bool {
        self.fetch.spec_mutable()
    }

    open spec fn spec_valid(&self) -> bool {
        self.fetch.spec_valid()
    }

    open spec fn spec_filter_arch(&self, data: FetchAccessData<'w, V>) -> bool {
        true
    }

    open spec fn spec_prepare_some(&self, data: FetchPrepareData<'w, V>) -> bool {
        self.fetch.spec_prepare_some(data)
    }

    open spec fn spec_prepared(&self, data: FetchPrepareData<'w, V>, p: Q::Prepared) -> bool {
        self.fetch.spec_prepared(data, p)
    }

    open spec fn spec_access(&self, data: FetchAccessData<'w, V>) -> Seq<Access> {
        self.fetch.spec_access(data)
    }

    open spec fn spec_required(&self) -> Seq<ComponentKey> {
        Seq::empty()
    }

    proof fn lemma_prepared_small(&self, data: FetchPrepareData<'w, V>, p: Q::Prepared, slots: Slice) {
        self.fetch.lemma_prepared_small(data, p, slots);
    }

    fn mutable(&self) -> (r: bool) {
        self.fetch.mutable()
    }

    fn prepare(&'w self, data: FetchPrepareData<'w, V>) -> (r: Option<Q::Prepared>) {
        self.fetch.prepare(data)
    }

    fn filter_arch(&self, data: FetchAccessData<'w, V>) -> (r: bool) {
        true
    }

    fn access(&self, data: FetchAccessData<'w, V>, dst: &mut Vec<Access>) {
        self.fetch.access(data, dst);
    }

    fn searcher(&self, searcher: &mut ArchetypeSearcher) {
        assert(old(searcher).required@ + Seq::<ComponentKey>::empty() =~= old(searcher).required@);
    }
}

} // verus!
