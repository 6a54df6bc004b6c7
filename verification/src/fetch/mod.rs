pub mod prepared;
pub mod base;
pub mod component;
pub mod tuple;
pub mod opt;
pub mod satisfied;
pub mod copied;
pub mod util;
pub mod source;
pub mod ext;
pub mod relations;
pub mod transform;
pub mod expect;
pub mod filter;
pub mod maybe_mut;
pub mod entity_access;
pub mod laws;

pub use base::{Fetch, FetchAccessData, FetchItem, FetchPrepareData};
pub use component::{EntityIds, ReadComponent, ReadEntities};
pub use copied::Copied;
pub use entity_access::EntityAccess;
pub use ext::FetchExt;
pub use expect::Expect;
pub use maybe_mut::{ChangeFilterMut, MaybeMut, Mutable, MutGuard, PreparedChangeFilterMut, PreparedMaybeMut, WriteComponent};
pub use transform::{Added, Modified, TransformFetch};
pub use relations::{nth_relation, relations_like, relations_like_mut, NthRelation, PreparedNthRelation, PreparedRelations, PreparedRelationsMut, RelationGuard, Relations, RelationsIter, RelationsMut, RelationsMutIter};
pub use source::{FetchSource, FromRelation, PreparedSource, Source, Traverse};
pub use opt::{Opt, OptOr, PreparedOpt};
pub use prepared::{PreparedFetch, UnionFilter};
pub use satisfied::{PreparedSatisfied, Satisfied};
pub use util::{TupleCloned, TupleCombine};
