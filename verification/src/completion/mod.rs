//! Command completion: command metadata and the analysis of a partly typed
//! command line.

pub mod types;
pub mod definitions;
pub mod context;
pub mod manager;
pub mod hinter;
pub mod candidates;
