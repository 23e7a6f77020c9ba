//! Verified core of a fetch-and-extract engine: capability probing, single-stream and
//! ranged download planning, progress reporting and path-safe archive extraction.
//!
//! Everything here computes on plain values. Network, disk and event delivery are left to
//! the caller, which performs the actions this crate decides on and hands back what happened.

pub mod text;
pub mod paths;
pub mod progress;
pub mod ranges;
pub mod probe;
pub mod single_stream;
pub mod parallel;
pub mod assembly;
pub mod sanitize;
pub mod extract;
pub mod tree;
pub mod job;
pub mod destination;
pub mod settings;
pub mod status;
pub mod start;
pub mod query;
pub mod data;
