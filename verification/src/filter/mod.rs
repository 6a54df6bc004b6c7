pub mod cursor;

pub use cursor::{ChangeCursor, ChangeFetch};
pub mod constant;
pub mod set;

pub use constant::{All, BatchSize, Nothing};
pub use set::{And, Not, Or, Union};
pub mod iter;

pub use iter::{next_slice, FilterIter, Filtered};
pub mod with;

pub use with::{With, WithRelation, Without, WithoutRelation};
pub mod change;

pub use change::{ChangeFilter, PreparedChangeFilter};
pub mod cmp;

pub use cmp::{Cmp, CmpMethod, Equal, Greater, GreaterEq, Less, LessEq, PreparedCmp};
pub mod reference;

pub use reference::RefFetch;
pub mod laws;
