//! Walk requests: the lifecycle of a request to have dogs walked, the
//! predicates that guard each transition, the mutations the transitions
//! apply, and a repository that executes both as one step.

pub mod answers;
mod clock;
pub mod entities;
pub mod error;
pub mod ids;
pub mod lifecycle;
pub mod memory;
pub mod paging;
pub mod query;
pub mod repository;
pub mod search;
pub mod service;
pub mod sorting;
pub mod text;
pub mod update;
