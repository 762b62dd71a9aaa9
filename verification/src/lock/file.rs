//! Locks on single files.

pub mod query;
pub mod release;
pub mod status;
