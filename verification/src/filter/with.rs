use vstd::prelude::*;

use crate::entity::{ComponentKey, Entity};
use crate::fetch::base::{Fetch, FetchAccessData, FetchPrepareData};
use crate::filter::constant::All;
use crate::query::searcher::ArchetypeSearcher;
use crate::schedule::access::Access;
use crate::slice::Slice;

verus! {

/// Whether an archetype holds a relation of the given kind, to any target.
pub open spec fn has_relation_like(components: Seq<ComponentKey>, relation: Entity) -> bool {
    exists|i: int| 0 <= i < components.len() && (#[trigger] components[i]).id == relation && components[i].target is Some
}

fn arch_has_relation(components: &[ComponentKey], relation: Entity) -> (r: bool)
    ensures
        r == has_relation_like(components@, relation),
{
    let mut i: usize = 0;
    while i < components.len()
        invariant
            0 <= i <= components@.len(),
            forall|k: int| 0 <= k < i ==> !((#[trigger] components@[k]).id == relation && components@[k].target is Some),
        decreases components@.len() - i,
    {
        if components[i].id == relation && components[i].target.is_some() {
            return true;
        }
        i += 1;
    }
    false
}

/// Matches the archetypes which have a component.
#[derive(Debug, Clone)]
pub struct With {
    pub component: ComponentKey,
    pub name: String,
}

/// Matches the archetypes which lack a component.
#[derive(Debug, Clone)]
pub struct Without {
    pub component: ComponentKey,
    pub name: String,
}

/// Matches the archetypes which have a relation of the given kind to any target.
#[derive(Debug, Clone)]
pub struct WithRelation {
    pub relation: Entity,
    pub name: String,
}

/// Matches the archetypes which have no relation of the given kind.
#[derive(Debug, Clone)]
pub struct WithoutRelation {
    pub relation: Entity,
    pub name: String,
}

impl<'w, V> Fetch<'w, V> for With {
    type Prepared = All;

    open spec fn spec_mutable(&self) -> bool {
        false
    }

    open spec fn spec_valid(&self) -> bool {
        true
    }

    open spec fn spec_filter_arch(&self, data: FetchAccessData<'w, V>) -> bool {
        data.arch.components@.contains(self.component)
    }

    open spec fn spec_prepare_some(&self, data: FetchPrepareData<'w, V>) -> bool {
        data.arch.components@.contains(self.component)
    }

    open spec fn spec_prepared(&self, data: FetchPrepareData<'w, V>, p: All) -> bool {
        true
    }

    open spec fn spec_access(&self, data: FetchAccessData<'w, V>) -> Seq<Access> {
        Seq::empty()
    }

    open spec fn spec_required(&self) -> Seq<ComponentKey> {
        Seq::empty()
    }

    proof fn lemma_prepared_small(&self, data: FetchPrepareData<'w, V>, p: All, slots: Slice) {
    }

    fn mutable(&self) -> (r: bool) {
        false
    }

    fn prepare(&'w self, data: FetchPrepareData<'w, V>) -> (r: Option<All>) {
        if data.arch.has(self.component) {
            Some(All)
        } else {
            None
        }
    }

    fn filter_arch(&self, data: FetchAccessData<'w, V>) -> (r: bool) {
        data.arch.has(self.component)
    }

    fn access(&self, data: FetchAccessData<'w, V>, dst: &mut Vec<Access>) {
        assert(old(dst)@ + Seq::<Access>::empty() =~= old(dst)@);
    }

    fn searcher(&self, searcher: &mut ArchetypeSearcher) {
        assert(old(searcher).required@ + Seq::<ComponentKey>::empty() =~= old(searcher).required@);
    }
}

impl<'w, V> Fetch<'w, V> for Without {
    type Prepared = All;

    open spec fn spec_mutable(&self) -> bool {
        false
    }

    open spec fn spec_valid(&self) -> bool {
        true
    }

    open spec fn spec_filter_arch(&self, data: FetchAccessData<'w, V>) -> bool {
        !data.arch.components@.contains(self.component)
    }

    open spec fn spec_prepare_some(&self, data: FetchPrepareData<'w, V>) -> bool {
        !data.arch.components@.contains(self.component)
    }

    open spec fn spec_prepared(&self, data: FetchPrepareData<'w, V>, p: All) -> bool {
        true
    }

    open spec fn spec_access(&self, data: FetchAccessData<'w, V>) -> Seq<Access> {
        Seq::empty()
    }

    open spec fn spec_required(&self) -> Seq<ComponentKey> {
        Seq::empty()
    }

    proof fn lemma_prepared_small(&self, data: FetchPrepareData<'w, V>, p: All, slots: Slice) {
    }

    fn mutable(&self) -> (r: bool) {
        false
    }

    fn prepare(&'w self, data: FetchPrepareData<'w, V>) -> (r: Option<All>) {
        if !data.arch.has(self.component) {
            Some(All)
        } else {
            None
        }
    }

    fn filter_arch(&self, data: FetchAccessData<'w, V>) -> (r: bool) {
        !data.arch.has(self.component)
    }

    fn access(&self, data: FetchAccessData<'w, V>, dst: &mut Vec<Access>) {
        assert(old(dst)@ + Seq::<Access>::empty() =~= old(dst)@);
    }

    fn searcher(&self, searcher: &mut ArchetypeSearcher) {
        assert(old(searcher).required@ + Seq::<ComponentKey>::empty() =~= old(searcher).required@);
    }
}

impl<'w, V> Fetch<'w, V> for WithRelation {
    type Prepared = All;

    open spec fn spec_mutable(&self) -> bool {
        false
    }

    open spec fn spec_valid(&self) -> bool {
        true
    }

    open spec fn spec_filter_arch(&self, data: FetchAccessData<'w, V>) -> bool {
        has_relation_like(data.arch.components@, self.relation)
    }

    open spec fn spec_prepare_some(&self, data: FetchPrepareData<'w, V>) -> bool {
        true
    }

    open spec fn spec_prepared(&self, data: FetchPrepareData<'w, V>, p: All) -> bool {
        true
    }

    open spec fn spec_access(&self, data: FetchAccessData<'w, V>) -> Seq<Access> {
        Seq::empty()
    }

    open spec fn spec_required(&self) -> Seq<ComponentKey> {
        Seq::empty()
    }

    proof fn lemma_prepared_small(&self, data: FetchPrepareData<'w, V>, p: All, slots: Slice) {
    }

    fn mutable(&self) -> (r: bool) {
        false
    }

    fn prepare(&'w self, data: FetchPrepareData<'w, V>) -> (r: Option<All>) {
        Some(All)
    }

    fn filter_arch(&self, data: FetchAccessData<'w, V>) -> (r: bool) {
        arch_has_relation(data.arch.components.as_slice(), self.relation)
    }

    fn access(&self, data: FetchAccessData<'w, V>, dst: &mut Vec<Access>) {
        assert(old(dst)@ + Seq::<Access>::empty() =~= old(dst)@);
    }

    fn searcher(&self, searcher: &mut ArchetypeSearcher) {
        assert(old(searcher).required@ + Seq::<ComponentKey>::empty() =~= old(searcher).required@);
    }
}

impl<'w, V> Fetch<'w, V> for WithoutRelation {
    type Prepared = All;

    open spec fn spec_mutable(&self) -> bool {
        false
    }

    open spec fn spec_valid(&self) -> bool {
        true
    }

    open spec fn spec_filter_arch(&self, data: FetchAccessData<'w, V>) -> bool {
        !has_relation_like(data.arch.components@, self.relation)
    }

    open spec fn spec_prepare_some(&self, data: FetchPrepareData<'w, V>) -> bool {
        true
    }

    open spec fn spec_prepared(&self, data: FetchPrepareData<'w, V>, p: All) -> bool {
        true
    }

    open spec fn spec_access(&self, data: FetchAccessData<'w, V>) -> Seq<Access> {
        Seq::empty()
    }

    open spec fn spec_required(&self) -> Seq<ComponentKey> {
        Seq::empty()
    }

    proof fn lemma_prepared_small(&self, data: FetchPrepareData<'w, V>, p: All, slots: Slice) {
    }

    fn mutable(&self) -> (r: bool) {
        false
    }

    fn prepare(&'w self, data: FetchPrepareData<'w, V>) -> (r: Option<All>) {
        Some(All)
    }

    fn filter_arch(&self, data: FetchAccessData<'w, V>) -> (r: bool) {
        !arch_has_relation(data.arch.components.as_slice(), self.relation)
    }

    fn access(&self, data: FetchAccessData<'w, V>, dst: &mut Vec<Access>) {
        assert(old(dst)@ + Seq::<Access>::empty() =~= old(dst)@);
    }

    fn searcher(&self, searcher: &mut ArchetypeSearcher) {
        assert(old(searcher).required@ + Seq::<ComponentKey>::empty() =~= old(searcher).required@);
    }
}

/// Law: `With(c)` matches and prepares for exactly the archetypes whose components contain `c`,
/// and `Without(c)` for exactly those whose components do not; `WithRelation(r)` matches exactly
/// the archetypes holding a relation `r` to some target, and `WithoutRelation(r)` exactly the
/// others. Each pair splits every archetype between its two filters.
pub proof fn lemma_with_without<'w, V>(c: ComponentKey, relation: Entity, name: String, data: FetchAccessData<'w, V>, pdata: FetchPrepareData<'w, V>)
    ensures
        (With { component: c, name }).spec_filter_arch(data) <==> data.arch.components@.contains(c),
        (Without { component: c, name }).spec_filter_arch(data) <==> !data.arch.components@.contains(c),
        (With { component: c, name }).spec_prepare_some(pdata) <==> pdata.arch.components@.contains(c),
        (Without { component: c, name }).spec_prepare_some(pdata) <==> !pdata.arch.components@.contains(c),
        (With { component: c, name }).spec_filter_arch(data) != (Without { component: c, name }).spec_filter_arch(data),
        (WithRelation { relation, name }).spec_filter_arch(data) <==> exists|i: int|
            0 <= i < data.arch.components@.len() && data.arch.components@[i].id == relation && data.arch.components@[i].target is Some,
        (WithoutRelation { relation, name }).spec_filter_arch(data) <==> !(exists|i: int|
            0 <= i < data.arch.components@.len() && data.arch.components@[i].id == relation && data.arch.components@[i].target is Some),
{
}

} // verus!
