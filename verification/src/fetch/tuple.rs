use vstd::prelude::*;

use crate::entity::ComponentKey;
use crate::fetch::base::{small_slots, Fetch, FetchAccessData, FetchPrepareData};
use crate::fetch::prepared::PreparedFetch;
use crate::query::searcher::ArchetypeSearcher;
use crate::schedule::access::Access;
use crate::slice::Slice;

verus! {

/// Filtering by `first` and then `second` keeps a small slice inside itself and lets every slot be
/// fetched afterwards.
pub proof fn lemma_chain_small<'w, V, A: Fetch<'w, V>, B: Fetch<'w, V>>(
    first: A,
    second: B,
    data: FetchPrepareData<'w, V>,
    pa: A::Prepared,
    pb: B::Prepared,
    slots: Slice,
)
    requires
        data.wf(),
        first.spec_valid(),
        second.spec_valid(),
        first.spec_prepared(data, pa),
        second.spec_prepared(data, pb),
        small_slots(slots, data.arch_len()),
    ensures
        pa.spec_filter_ok(slots),
        pb.spec_filter_ok(pa.spec_filter(slots).0),
        slots.contains_slice(pb.spec_filter(pa.spec_filter(slots).0).0),
        forall|s: int| 0 <= s < data.arch_len() ==> #[trigger] pa.spec_filter(slots).1.spec_fetch_ok(s),
        forall|s: int| 0 <= s < data.arch_len() ==> #[trigger] pb.spec_filter(pa.spec_filter(slots).0).1.spec_fetch_ok(s),
{
    first.lemma_prepared_small(data, pa, slots);
    let a = pa.spec_filter(slots).0;
    second.lemma_prepared_small(data, pb, a);
}

impl<'w, V, A: Fetch<'w, V>, B: Fetch<'w, V>> Fetch<'w, V> for (A, B) {
    type Prepared = (A::Prepared, B::Prepared);

    open spec fn spec_mutable(&self) -> bool {
        self.0.spec_mutable() || self.1.spec_mutable()
    }

    open spec fn spec_valid(&self) -> bool {
        self.0.spec_valid() && self.1.spec_valid()
    }

    open spec fn spec_filter_arch(&self, data: FetchAccessData<'w, V>) -> bool {
        self.0.spec_filter_arch(data) && self.1.spec_filter_arch(data)
    }

    open spec fn spec_prepare_some(&self, data: FetchPrepareData<'w, V>) -> bool {
        self.0.spec_prepare_some(data) && self.1.spec_prepare_some(data)
    }

    open spec fn spec_prepared(&self, data: FetchPrepareData<'w, V>, p: (A::Prepared, B::Prepared)) -> bool {
        self.0.spec_prepared(data, p.0) && self.1.spec_prepared(data, p.1)
    }

    open spec fn spec_access(&self, data: FetchAccessData<'w, V>) -> Seq<Access> {
        self.0.spec_access(data) + self.1.spec_access(data)
    }

    open spec fn spec_required(&self) -> Seq<ComponentKey> {
        self.0.spec_required() + self.1.spec_required()
    }

    proof fn lemma_prepared_small(&self, data: FetchPrepareData<'w, V>, p: (A::Prepared, B::Prepared), slots: Slice) {
        lemma_chain_small(self.0, self.1, data, p.0, p.1, slots);
    }

    fn mutable(&self) -> (r: bool) {
        self.0.mutable() || self.1.mutable()
    }

    fn prepare(&'w self, data: FetchPrepareData<'w, V>) -> (r: Option<(A::Prepared, B::Prepared)>) {
        let a = match self.0.prepare(data) {
            Some(a) => a,
            None => {
                return None;
            },
        };
        let b = match self.1.prepare(data) {
            Some(b) => b,
            None => {
                return None;
            },
        };
        Some((a, b))
    }

    fn filter_arch(&self, data: FetchAccessData<'w, V>) -> (r: bool) {
        self.0.filter_arch(data) && self.1.filter_arch(data)
    }

    fn access(&self, data: FetchAccessData<'w, V>, dst: &mut Vec<Access>) {
        self.0.access(data, dst);
        self.1.access(data, dst);
        assert(old(dst)@ + self.0.spec_access(data) + self.1.spec_access(data) =~= old(dst)@ + self.spec_access(data));
    }

    fn searcher(&self, searcher: &mut ArchetypeSearcher) {
        self.0.searcher(searcher);
        self.1.searcher(searcher);
        assert(old(searcher).required@ + self.0.spec_required() + self.1.spec_required()
            =~= old(searcher).required@ + self.spec_required());
    }
}

impl<'w, V, A: Fetch<'w, V>, B: Fetch<'w, V>, C: Fetch<'w, V>> Fetch<'w, V> for (A, B, C) {
    type Prepared = (A::Prepared, B::Prepared, C::Prepared);

    open spec fn spec_mutable(&self) -> bool {
        self.0.spec_mutable() || self.1.spec_mutable() || self.2.spec_mutable()
    }

    open spec fn spec_valid(&self) -> bool {
        self.0.spec_valid() && self.1.spec_valid() && self.2.spec_valid()
    }

    open spec fn spec_filter_arch(&self, data: FetchAccessData<'w, V>) -> bool {
        self.0.spec_filter_arch(data) && self.1.spec_filter_arch(data) && self.2.spec_filter_arch(data)
    }

    open spec fn spec_prepare_some(&self, data: FetchPrepareData<'w, V>) -> bool {
        self.0.spec_prepare_some(data) && self.1.spec_prepare_some(data) && self.2.spec_prepare_some(data)
    }

    open spec fn spec_prepared(&self, data: FetchPrepareData<'w, V>, p: (A::Prepared, B::Prepared, C::Prepared)) -> bool {
        self.0.spec_prepared(data, p.0) && self.1.spec_prepared(data, p.1) && self.2.spec_prepared(data, p.2)
    }

    open spec fn spec_access(&self, data: FetchAccessData<'w, V>) -> Seq<Access> {
        self.0.spec_access(data) + self.1.spec_access(data) + self.2.spec_access(data)
    }

    open spec fn spec_required(&self) -> Seq<ComponentKey> {
        self.0.spec_required() + self.1.spec_required() + self.2.spec_required()
    }

    proof fn lemma_prepared_small(
        &self,
        data: FetchPrepareData<'w, V>,
        p: (A::Prepared, B::Prepared, C::Prepared),
        slots: Slice,
    ) {
        lemma_chain_small(self.0, self.1, data, p.0, p.1, slots);
        let b = p.1.spec_filter(p.0.spec_filter(slots).0).0;
        self.2.lemma_prepared_small(data, p.2, b);
    }

    fn mutable(&self) -> (r: bool) {
        self.0.mutable() || self.1.mutable() || self.2.mutable()
    }

    fn prepare(&'w self, data: FetchPrepareData<'w, V>) -> (r: Option<(A::Prepared, B::Prepared, C::Prepared)>) {
        let a = match self.0.prepare(data) {
            Some(a) => a,
            None => {
                return None;
            },
        };
        let b = match self.1.prepare(data) {
            Some(b) => b,
            None => {
                return None;
            },
        };
        let c = match self.2.prepare(data) {
            Some(c) => c,
            None => {
                return None;
            },
        };
        Some((a, b, c))
    }

    fn filter_arch(&self, data: FetchAccessData<'w, V>) -> (r: bool) {
        self.0.filter_arch(data) && self.1.filter_arch(data) && self.2.filter_arch(data)
    }

    fn access(&self, data: FetchAccessData<'w, V>, dst: &mut Vec<Access>) {
        self.0.access(data, dst);
        self.1.access(data, dst);
        self.2.access(data, dst);
        assert(old(dst)@ + self.0.spec_access(data) + self.1.spec_access(data) + self.2.spec_access(data)
            =~= old(dst)@ + self.spec_access(data));
    }

    fn searcher(&self, searcher: &mut ArchetypeSearcher) {
        self.0.searcher(searcher);
        self.1.searcher(searcher);
        self.2.searcher(searcher);
        assert(old(searcher).required@ + self.0.spec_required() + self.1.spec_required() + self.2.spec_required()
            =~= old(searcher).required@ + self.spec_required());
    }
}

} // verus!
