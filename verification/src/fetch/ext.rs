use vstd::prelude::*;

use crate::entity::Entity;
use crate::fetch::copied::Copied;
use crate::fetch::opt::{Opt, OptOr};
use crate::fetch::satisfied::Satisfied;
use crate::fetch::source::{FromRelation, Source, Traverse};
use crate::fetch::transform::{Added, Modified, TransformFetch};
use crate::filter::cmp::{Cmp, Equal, Greater, GreaterEq, Less, LessEq};
use crate::filter::iter::Filtered;

verus! {

/// Builders which wrap a fetch in the adapters of the library.
pub trait FetchExt: Sized {
    /// Yields `None` for the entities the fetch does not match, instead of filtering them out.
    fn opt(self) -> (r: Opt<Self>)
        ensures
            r.0 == self,
    {
        Opt(self)
    }

    /// Yields `default` for the entities the fetch does not match.
    fn opt_or<T>(self, default: T) -> (r: OptOr<Self, T>)
        ensures
            r.fetch == self,
            r.value == default,
    {
        OptOr::new(self, default)
    }

    /// Yields whether the fetch matches each entity.
    fn satisfied(self) -> (r: Satisfied<Self>)
        ensures
            r.0 == self,
    {
        Satisfied(self)
    }

    /// Yields copies of the values.
    fn copied(self) -> (r: Copied<Self>)
        ensures
            r.0 == self,
    {
        Copied(self)
    }

    /// Keeps the entities whose value `method` passes.
    fn cmp<M>(self, method: M) -> (r: Cmp<Self, M>)
        ensures
            r.fetch == self,
            r.method == method,
    {
        Cmp::new(self, method)
    }

    /// Keeps the entities whose value is less than `other`.
    fn lt<T>(self, other: T) -> (r: Cmp<Self, Less<T>>)
        ensures
            r.fetch == self,
            r.method == Less(other),
    {
        Cmp::new(self, Less(other))
    }

    /// Keeps the entities whose value is greater than `other`.
    fn gt<T>(self, other: T) -> (r: Cmp<Self, Greater<T>>)
        ensures
            r.fetch == self,
            r.method == Greater(other),
    {
        Cmp::new(self, Greater(other))
    }

    /// Keeps the entities whose value is greater than or equal to `other`.
    fn ge<T>(self, other: T) -> (r: Cmp<Self, GreaterEq<T>>)
        ensures
            r.fetch == self,
            r.method == GreaterEq(other),
    {
        Cmp::new(self, GreaterEq(other))
    }

    /// Keeps the entities whose value is less than or equal to `other`.
    fn le<T>(self, other: T) -> (r: Cmp<Self, LessEq<T>>)
        ensures
            r.fetch == self,
            r.method == LessEq(other),
    {
        Cmp::new(self, LessEq(other))
    }

    /// Keeps the entities whose value equals `other`.
    fn eq<T>(self, other: T) -> (r: Cmp<Self, Equal<T>>)
        ensures
            r.fetch == self,
            r.method == Equal(other),
    {
        Cmp::new(self, Equal(other))
    }

    /// Reads the values from `source` instead of the visited entity.
    fn source<S>(self, source: S) -> (r: Source<Self, S>)
        ensures
            r.fetch == self,
            r.source == source,
    {
        Source::new(self, source)
    }

    /// Reads the values from the first target of `relation` which the fetch matches.
    fn relation(self, relation: Entity, name: String) -> (r: Source<Self, FromRelation>)
        ensures
            r.fetch == self,
            r.source == (FromRelation { relation, name }),
    {
        Source::new(self, FromRelation { relation, name })
    }

    /// Reads the values from the first entity the fetch matches, following `relation` from
    /// the visited entity recursively.
    fn traverse(self, relation: Entity) -> (r: Source<Self, Traverse>)
        ensures
            r.fetch == self,
            r.source == (Traverse { relation }),
    {
        Source::new(self, Traverse { relation })
    }

    /// Yields the items only where the fetch's components were modified.
    fn modified(self) -> (r: <Self as TransformFetch<Modified>>::Output) where Self: TransformFetch<Modified>
        ensures
            r == self.spec_transform(Modified),
    {
        self.transform_fetch(Modified)
    }

    /// Yields the items only where the fetch's components were added.
    fn added(self) -> (r: <Self as TransformFetch<Added>>::Output) where Self: TransformFetch<Added>
        ensures
            r == self.spec_transform(Added),
    {
        self.transform_fetch(Added)
    }

    /// Narrows the fetch by `filter`, also visiting the entities of components.
    fn filtered<F>(self, filter: F) -> (r: Filtered<Self, F>)
        ensures
            r.fetch == self,
            r.filter == filter,
            r.include_components,
    {
        Filtered::new(self, filter, true)
    }
}

impl<T> FetchExt for T {

}

} // verus!
