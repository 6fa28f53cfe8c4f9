//! Core engine of a "safe delete" utility: instead of destroying files, the
//! surrounding tool relocates them into a quarantine area, keeps a durable
//! record per item, and later restores or permanently expires them.
//!
//! This crate holds the decision and computation logic of that engine —
//! space admission, short-identifier allocation, the persisted record codec,
//! retention policy, path safety policy, batch rollback ordering, and the
//! depth-bounded directory walk — each with a verified contract. The
//! filesystem, clock and terminal live outside, in the binary around it.

pub mod batch;
pub mod codec;
pub mod datetime;
pub mod relocate;
pub mod retention;
pub mod shortid;
pub mod space;
pub mod store;
pub mod strutil;
pub mod types;
pub mod walker;

use vstd::prelude::*;

verus! {

} // verus!
