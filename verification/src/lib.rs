//! Verified logic behind the Git hooks of a branchless workflow.

pub mod bytes;
pub mod description;
pub mod event_log;
pub mod hooks;
pub mod oid;
pub mod outside;
pub mod packed_refs;
pub mod protocol;
pub mod reference_transaction;
pub mod repository;
pub mod runs;
