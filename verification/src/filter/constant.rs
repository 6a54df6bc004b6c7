use vstd::prelude::*;

use crate::entity::ComponentKey;
use crate::fetch::base::{Fetch, FetchAccessData, FetchPrepareData};
use crate::fetch::prepared::{end_of, PreparedFetch};
use crate::query::searcher::ArchetypeSearcher;
use crate::schedule::access::Access;
use crate::slice::{Slice, Slot};

verus! {

/// A filter that yields nothing.
#[derive(Debug, Clone, Copy)]
pub struct Nothing;

impl<'w> PreparedFetch<'w> for Nothing {
    type Item = ();

    open spec fn spec_filter_ok(&self, slots: Slice) -> bool {
        true
    }

    open spec fn spec_filter(&self, slots: Slice) -> (Slice, Nothing) {
        (end_of(slots), Nothing)
    }

    open spec fn spec_fetch_ok(&self, slot: int) -> bool {
        true
    }

    open spec fn spec_fetch(&self, slot: int) -> () {
        ()
    }

    fn filter_slots(&mut self, slots: Slice) -> (r: Slice) {
        Slice::new(slots.end, slots.end)
    }

    fn fetch_shared(&self, slot: Slot) -> (r: ()) {
    }
}

/// A filter that yields every entity.
#[derive(Debug, Clone, Copy)]
pub struct All;

impl<'w> PreparedFetch<'w> for All {
    type Item = ();

    open spec fn spec_filter_ok(&self, slots: Slice) -> bool {
        true
    }

    open spec fn spec_filter(&self, slots: Slice) -> (Slice, All) {
        (slots, All)
    }

    open spec fn spec_fetch_ok(&self, slot: int) -> bool {
        true
    }

    open spec fn spec_fetch(&self, slot: int) -> () {
        ()
    }

    fn filter_slots(&mut self, slots: Slice) -> (r: Slice) {
        slots
    }

    fn fetch_shared(&self, slot: Slot) -> (r: ()) {
    }
}

/// Limits the number of slots visited at once.
#[derive(Copy, Debug, Clone)]
pub struct BatchSize(pub Slot);

impl<'w> PreparedFetch<'w> for BatchSize {
    type Item = ();

    open spec fn spec_filter_ok(&self, slots: Slice) -> bool {
        slots.wf()
    }

    open spec fn spec_filter(&self, slots: Slice) -> (Slice, BatchSize) {
        let end = if slots.end <= slots.start + self.0 { slots.end } else { (slots.start + self.0) as usize };
        (Slice { start: slots.start, end }, *self)
    }

    open spec fn spec_fetch_ok(&self, slot: int) -> bool {
        true
    }

    open spec fn spec_fetch(&self, slot: int) -> () {
        ()
    }

    fn filter_slots(&mut self, slots: Slice) -> (r: Slice) {
        // `slots.start + self.0`, compared without forming the sum, which may not fit.
        let end = if slots.end - slots.start <= self.0 { slots.end } else { slots.start + self.0 };
        Slice::new(slots.start, end)
    }

    fn fetch_shared(&self, slot: Slot) -> (r: ()) {
    }
}


/// Nothing matches no archetype and yields no slot.
impl<'w, V> Fetch<'w, V> for Nothing {
    type Prepared = Nothing;

    open spec fn spec_mutable(&self) -> bool {
        false
    }

    open spec fn spec_valid(&self) -> bool {
        true
    }

    open spec fn spec_filter_arch(&self, data: FetchAccessData<'w, V>) -> bool {
        false
    }

    open spec fn spec_prepare_some(&self, data: FetchPrepareData<'w, V>) -> bool {
        true
    }

    open spec fn spec_prepared(&self, data: FetchPrepareData<'w, V>, p: Nothing) -> bool {
        p == *self
    }

    open spec fn spec_access(&self, data: FetchAccessData<'w, V>) -> Seq<Access> {
        Seq::empty()
    }

    open spec fn spec_required(&self) -> Seq<ComponentKey> {
        Seq::empty()
    }

    proof fn lemma_prepared_small(&self, data: FetchPrepareData<'w, V>, p: Nothing, slots: Slice) {
    }

    fn mutable(&self) -> (r: bool) {
        false
    }

    fn prepare(&'w self, data: FetchPrepareData<'w, V>) -> (r: Option<Nothing>) {
        Some(Nothing)
    }

    fn filter_arch(&self, data: FetchAccessData<'w, V>) -> (r: bool) {
        false
    }

    fn access(&self, data: FetchAccessData<'w, V>, dst: &mut Vec<Access>) {
        assert(old(dst)@ + Seq::<Access>::empty() =~= old(dst)@);
    }

    fn searcher(&self, searcher: &mut ArchetypeSearcher) {
        assert(old(searcher).required@ + Seq::<ComponentKey>::empty() =~= old(searcher).required@);
    }
}

/// All matches every archetype and every slot.
impl<'w, V> Fetch<'w, V> for All {
    type Prepared = All;

    open spec fn spec_mutable(&self) -> bool {
        false
    }

    open spec fn spec_valid(&self) -> bool {
        true
    }

    open spec fn spec_filter_arch(&self, data: FetchAccessData<'w, V>) -> bool {
        true
    }

    open spec fn spec_prepare_some(&self, data: FetchPrepareData<'w, V>) -> bool {
        true
    }

    open spec fn spec_prepared(&self, data: FetchPrepareData<'w, V>, p: All) -> bool {
        p == *self
    }

    open spec fn spec_access(&self, data: FetchAccessData<'w, V>) -> Seq<Access> {
        Seq::empty()
    }

    open spec fn spec_required(&self) -> Seq<ComponentKey> {
        Seq::empty()
    }

    proof fn lemma_prepared_small(&self, data: FetchPrepareData<'w, V>, p: All, slots: Slice) {
    }

    fn mutable(&self) -> (r: bool) {
        false
    }

    fn prepare(&'w self, data: FetchPrepareData<'w, V>) -> (r: Option<All>) {
        Some(All)
    }

    fn filter_arch(&self, data: FetchAccessData<'w, V>) -> (r: bool) {
        true
    }

    fn access(&self, data: FetchAccessData<'w, V>, dst: &mut Vec<Access>) {
        assert(old(dst)@ + Seq::<Access>::empty() =~= old(dst)@);
    }

    fn searcher(&self, searcher: &mut ArchetypeSearcher) {
        assert(old(searcher).required@ + Seq::<ComponentKey>::empty() =~= old(searcher).required@);
    }
}

/// A batch size matches every archetype; a size of zero would never yield and is not valid.
impl<'w, V> Fetch<'w, V> for BatchSize {
    type Prepared = BatchSize;

    open spec fn spec_mutable(&self) -> bool {
        false
    }

    open spec fn spec_valid(&self) -> bool {
        self.0 > 0
    }

    open spec fn spec_filter_arch(&self, data: FetchAccessData<'w, V>) -> bool {
        true
    }

    open spec fn spec_prepare_some(&self, data: FetchPrepareData<'w, V>) -> bool {
        true
    }

    open spec fn spec_prepared(&self, data: FetchPrepareData<'w, V>, p: BatchSize) -> bool {
        p == *self
    }

    open spec fn spec_access(&self, data: FetchAccessData<'w, V>) -> Seq<Access> {
        Seq::empty()
    }

    open spec fn spec_required(&self) -> Seq<ComponentKey> {
        Seq::empty()
    }

    proof fn lemma_prepared_small(&self, data: FetchPrepareData<'w, V>, p: BatchSize, slots: Slice) {
    }

    fn mutable(&self) -> (r: bool) {
        false
    }

    fn prepare(&'w self, data: FetchPrepareData<'w, V>) -> (r: Option<BatchSize>) {
        Some(BatchSize(self.0))
    }

    fn filter_arch(&self, data: FetchAccessData<'w, V>) -> (r: bool) {
        true
    }

    fn access(&self, data: FetchAccessData<'w, V>, dst: &mut Vec<Access>) {
        assert(old(dst)@ + Seq::<Access>::empty() =~= old(dst)@);
    }

    fn searcher(&self, searcher: &mut ArchetypeSearcher) {
        assert(old(searcher).required@ + Seq::<ComponentKey>::empty() =~= old(searcher).required@);
    }
}

} // verus!
