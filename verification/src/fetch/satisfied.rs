use vstd::prelude::*;

use crate::entity::ComponentKey;
use crate::fetch::base::{Fetch, FetchAccessData, FetchPrepareData};
use crate::fetch::prepared::PreparedFetch;
use crate::filter::set::opt_prepared;
use crate::query::searcher::ArchetypeSearcher;
use crate::schedule::access::Access;
use crate::slice::{Slice, Slot};

verus! {

/// Yields whether the inner fetch matches each entity, instead of filtering by it.
#[derive(Debug, Clone)]
pub struct Satisfied<F>(pub F);

/// A satisfied fetch prepared for one archetype: the inner fetch where the archetype matches it,
/// and whether the slots last yielded matched.
pub struct PreparedSatisfied<F> {
    pub inner: Option<F>,
    pub matched: bool,
}

impl<F> Satisfied<F> {
    /// Yields whether `inner` matches.
    pub fn new(inner: F) -> (r: Satisfied<F>)
        ensures
            r.0 == inner,
    {
        Satisfied(inner)
    }
}

impl<'w, F: PreparedFetch<'w>> PreparedFetch<'w> for PreparedSatisfied<F> {
    type Item = bool;

    open spec fn spec_filter_ok(&self, slots: Slice) -> bool {
        match self.inner {
            Some(f) => f.spec_filter_ok(slots) && slots.contains_slice(f.spec_filter(slots).0),
            None => true,
        }
    }

    /// The slots up to those the inner filter matches come first, as unmatched; then the matched
    /// ones.
    open spec fn spec_filter(&self, slots: Slice) -> (Slice, PreparedSatisfied<F>) {
        match self.inner {
            Some(f) => {
                let (res, f2) = f.spec_filter(slots);
                if res.start != slots.start {
                    (Slice { start: slots.start, end: res.start }, PreparedSatisfied { inner: Some(f2), matched: false })
                } else {
                    (res, PreparedSatisfied { inner: Some(f2), matched: !res.spec_is_empty() })
                }
            },
            None => (slots, PreparedSatisfied { inner: None, matched: false }),
        }
    }

    open spec fn spec_fetch_ok(&self, slot: int) -> bool {
        true
    }

    open spec fn spec_fetch(&self, slot: int) -> bool {
        self.matched
    }

    fn filter_slots(&mut self, slots: Slice) -> (r: Slice) {
        match &mut self.inner {
            Some(f) => {
                let res = f.filter_slots(slots);
                if res.start != slots.start {
                    self.matched = false;
                    Slice::new(slots.start, res.start)
                } else {
                    self.matched = !res.is_empty();
                    res
                }
            },
            None => {
                self.matched = false;
                slots
            },
        }
    }

    fn fetch_shared(&self, slot: Slot) -> (r: bool) {
        self.matched
    }
}

impl<'w, V, F: Fetch<'w, V>> Fetch<'w, V> for Satisfied<F> {
    type Prepared = PreparedSatisfied<F::Prepared>;

    open spec fn spec_mutable(&self) -> bool {
        false
    }

    open spec fn spec_valid(&self) -> bool {
        self.0.spec_valid()
    }

    open spec fn spec_filter_arch(&self, data: FetchAccessData<'w, V>) -> bool {
        true
    }

    open spec fn spec_prepare_some(&self, data: FetchPrepareData<'w, V>) -> bool {
        true
    }

    /// The inner fetch is prepared only for the archetypes it matches.
    open spec fn spec_prepared(&self, data: FetchPrepareData<'w, V>, p: PreparedSatisfied<F::Prepared>) -> bool {
        &&& !p.matched
        &&& if self.0.spec_filter_arch(data.spec_access_data()) {
            opt_prepared(self.0, data, p.inner)
        } else {
            p.inner is None
        }
    }

    open spec fn spec_access(&self, data: FetchAccessData<'w, V>) -> Seq<Access> {
        Seq::empty()
    }

    open spec fn spec_required(&self) -> Seq<ComponentKey> {
        Seq::empty()
    }

    proof fn lemma_prepared_small(&self, data: FetchPrepareData<'w, V>, p: PreparedSatisfied<F::Prepared>, slots: Slice) {
        if let Some(q) = p.inner {
            self.0.lemma_prepared_small(data, q, slots);
        }
    }

    fn mutable(&self) -> (r: bool) {
        false
    }

    fn prepare(&'w self, data: FetchPrepareData<'w, V>) -> (r: Option<PreparedSatisfied<F::Prepared>>) {
        if self.0.filter_arch(FetchAccessData { world: data.world, arch: data.arch, arch_id: data.arch_id }) {
            Some(PreparedSatisfied { inner: self.0.prepare(data), matched: false })
        } else {
            Some(PreparedSatisfied { inner: None, matched: false })
        }
    }

    fn filter_arch(&self, data: FetchAccessData<'w, V>) -> (r: bool) {
        true
    }

    fn access(&self, data: FetchAccessData<'w, V>, dst: &mut Vec<Access>) {
        assert(old(dst)@ + Seq::<Access>::empty() =~= old(dst)@);
    }

    fn searcher(&self, searcher: &mut ArchetypeSearcher) {
        assert(old(searcher).required@ + Seq::<ComponentKey>::empty() =~= old(searcher).required@);
    }
}

} // verus!
