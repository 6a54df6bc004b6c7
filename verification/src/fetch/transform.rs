use vstd::prelude::*;

use crate::changes::ChangeKind;
use crate::fetch::component::EntityIds;
use crate::fetch::maybe_mut::Mutable;
use crate::filter::change::{lemma_change_seen, ChangeFilter, PreparedChangeFilter};
use crate::fetch::base::FetchPrepareData;
use crate::fetch::base::Fetch;
use crate::fetch::prepared::PreparedFetch;
use crate::entity::Entity;
use crate::slice::Slice;
use crate::world::World;
use crate::filter::constant::Nothing;
use crate::filter::iter::Filtered;
use crate::filter::set::Union;
use crate::world::ComponentDesc;

verus! {

/// Marks a transformation into a filter for modified entities.
#[derive(Debug, Clone, Copy)]
pub struct Modified;

/// Marks a transformation into a filter for entities with added components.
#[derive(Debug, Clone, Copy)]
pub struct Added;

/// Turns a fetch into one that only yields the entities changed in the way `M` names.
pub trait TransformFetch<M>: Sized {
    /// The transformed fetch.
    type Output;

    /// The transformed fetch.
    spec fn spec_transform(self, method: M) -> Self::Output;

    /// Transforms the fetch.
    fn transform_fetch(self, method: M) -> (r: Self::Output)
        ensures
            r == self.spec_transform(method),
    ;
}

/// A component yields its value where it was modified.
impl TransformFetch<Modified> for ComponentDesc {
    type Output = ChangeFilter;

    open spec fn spec_transform(self, method: Modified) -> ChangeFilter {
        ChangeFilter { component: self, kind: ChangeKind::Modified }
    }

    fn transform_fetch(self, method: Modified) -> (r: ChangeFilter) {
        ChangeFilter::new(self, ChangeKind::Modified)
    }
}

/// A component yields its value where it was added.
impl TransformFetch<Added> for ComponentDesc {
    type Output = ChangeFilter;

    open spec fn spec_transform(self, method: Added) -> ChangeFilter {
        ChangeFilter { component: self, kind: ChangeKind::Added }
    }

    fn transform_fetch(self, method: Added) -> (r: ChangeFilter) {
        ChangeFilter::new(self, ChangeKind::Added)
    }
}

/// Entity ids never change, so they never count as modified.
impl TransformFetch<Modified> for EntityIds {
    type Output = Filtered<EntityIds, Nothing>;

    open spec fn spec_transform(self, method: Modified) -> Filtered<EntityIds, Nothing> {
        Filtered { fetch: self, filter: Nothing, include_components: true }
    }

    fn transform_fetch(self, method: Modified) -> (r: Filtered<EntityIds, Nothing>) {
        Filtered::new(self, Nothing, true)
    }
}

/// Entity ids are never added.
impl TransformFetch<Added> for EntityIds {
    type Output = Filtered<EntityIds, Nothing>;

    open spec fn spec_transform(self, method: Added) -> Filtered<EntityIds, Nothing> {
        Filtered { fetch: self, filter: Nothing, include_components: true }
    }

    fn transform_fetch(self, method: Added) -> (r: Filtered<EntityIds, Nothing>) {
        Filtered::new(self, Nothing, true)
    }
}

/// A write through the query is no earlier change, so it never counts as modified.
impl TransformFetch<Modified> for Mutable {
    type Output = Filtered<Mutable, Nothing>;

    open spec fn spec_transform(self, method: Modified) -> Filtered<Mutable, Nothing> {
        Filtered { fetch: self, filter: Nothing, include_components: true }
    }

    fn transform_fetch(self, method: Modified) -> (r: Filtered<Mutable, Nothing>) {
        Filtered::new(self, Nothing, true)
    }
}

/// A write through the query adds nothing.
impl TransformFetch<Added> for Mutable {
    type Output = Filtered<Mutable, Nothing>;

    open spec fn spec_transform(self, method: Added) -> Filtered<Mutable, Nothing> {
        Filtered { fetch: self, filter: Nothing, include_components: true }
    }

    fn transform_fetch(self, method: Added) -> (r: Filtered<Mutable, Nothing>) {
        Filtered::new(self, Nothing, true)
    }
}

/// A pair yields its items where either part changed.
impl<A: TransformFetch<Modified>, B: TransformFetch<Modified>> TransformFetch<Modified> for (A, B) {
    type Output = Union<(A::Output, B::Output)>;

    open spec fn spec_transform(self, method: Modified) -> Union<(A::Output, B::Output)> {
        Union((self.0.spec_transform(method), self.1.spec_transform(method)))
    }

    fn transform_fetch(self, method: Modified) -> (r: Union<(A::Output, B::Output)>) {
        let (a, b) = self;
        Union((a.transform_fetch(method), b.transform_fetch(method)))
    }
}

/// A pair yields its items where either part was added.
impl<A: TransformFetch<Added>, B: TransformFetch<Added>> TransformFetch<Added> for (A, B) {
    type Output = Union<(A::Output, B::Output)>;

    open spec fn spec_transform(self, method: Added) -> Union<(A::Output, B::Output)> {
        Union((self.0.spec_transform(method), self.1.spec_transform(method)))
    }

    fn transform_fetch(self, method: Added) -> (r: Union<(A::Output, B::Output)>) {
        let (a, b) = self;
        Union((a.transform_fetch(method), b.transform_fetch(method)))
    }
}

/// Law: `.added()` of a component, prepared for the archetype of an entity that has it, lets the
/// entity through exactly when its component was added after the query's last run, and
/// `.modified()` exactly when it was modified after it.
pub proof fn lemma_added_and_modified<'w, V>(
    desc: ComponentDesc,
    world: World<V>,
    id: Entity,
    data: FetchPrepareData<'w, V>,
    added: PreparedChangeFilter<'w, V>,
    modified: PreparedChangeFilter<'w, V>,
)
    requires
        world.wf(),
        world.alive(id),
        world.keys_of(id).contains(desc.key),
        *data.arch == world.archetypes@[world.loc_of(id).arch_id as int],
        TransformFetch::<Added>::spec_transform(desc, Added).spec_prepared(data, added),
        TransformFetch::<Modified>::spec_transform(desc, Modified).spec_prepared(data, modified),
    ensures
        (world.tick_of(id, desc.key, ChangeKind::Added) matches Some(t) && t > data.old_tick)
            <==> !added.changes.spec_filter(Slice::single_spec(world.loc_of(id).slot)).0.spec_is_empty(),
        (world.tick_of(id, desc.key, ChangeKind::Modified) matches Some(t) && t > data.old_tick)
            <==> !modified.changes.spec_filter(Slice::single_spec(world.loc_of(id).slot)).0.spec_is_empty(),
{
    lemma_change_seen(world, id, desc.key, ChangeKind::Added, added.changes);
    lemma_change_seen(world, id, desc.key, ChangeKind::Modified, modified.changes);
}

} // verus!
