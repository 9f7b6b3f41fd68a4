//! The rules of a distributed repository: which requests an operation makes of the repository and
//! of the chain rules, in which order, and what it decides on each reply.
use vstd::prelude::*;

pub mod agenda;
pub mod approve;
pub mod block;
pub mod clean;
pub mod data;
pub mod error;
pub mod extra;
pub mod fetch;
pub mod genesis;
pub mod hash;
pub mod host;
pub mod laws;
pub mod listing;
pub mod mark;
pub mod plan;
pub mod query;
pub mod repository;
pub mod steps;
pub mod sync;
pub mod text;

pub use crate::error::{Error, IntegrityError};
pub use crate::hash::CommitHash;
pub use crate::repository::{Config, DistributedRepository};

verus! {

pub type Branch = String;

pub type Tag = String;

pub const FINALIZED_BRANCH_NAME: &'static str = "finalized";

pub const WORK_BRANCH_NAME: &'static str = "work";

pub const FP_BRANCH_NAME: &'static str = "fp";

pub const COMMIT_TITLE_HASH_DIGITS: usize = 8;

pub const TAG_NAME_HASH_DIGITS: usize = 8;

pub const BRANCH_NAME_HASH_DIGITS: usize = 8;

pub const UNKNOWN_COMMIT_AUTHOR: &'static str = "unknown";

} // verus!
