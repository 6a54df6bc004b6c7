use vstd::prelude::*;

pub mod slice;
pub mod changes;
pub mod fetch;
pub mod filter;
pub mod schedule;
pub mod entity;
pub mod archetype;
pub mod world;
pub mod query;
pub mod hierarchy;
pub mod metadata;
pub mod text;
pub mod format;
pub mod notify;
