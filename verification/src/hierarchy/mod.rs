//! Traversal of a hierarchy from a single root, following a relation from children to parents.
pub mod dfs;
pub mod dfs_borrow;

pub use dfs::{Dfs, DfsError, DfsState};
pub use dfs_borrow::{DfsBorrow, DfsIter};
