//! Persistent path aliases and file tags, as in-memory models; loading and
//! saving them is left to the caller.

pub mod entries;
pub mod alias;
pub mod tag;
pub mod paths;
