//! Backup-set resolution and retention.
//!
//! The library decides which paths a backup run includes (glob expansion,
//! nearest-scope ignore manifests, deduplication), where each lands in the
//! staging tree, and which older archives a bounded-count retention policy
//! removes. Reading manifests, copying bytes, archiving and talking to an
//! object store are left to the caller, who hands the results back as plain
//! values.
use vstd::prelude::*;

pub mod config;
pub mod manifest;
pub mod paths;
pub mod resolve;
pub mod retention;
pub mod staging;
pub mod text;

verus! {

} // verus!
