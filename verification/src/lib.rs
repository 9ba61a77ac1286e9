//! Data plane of an interactive trace viewer.
//!
//! The crate addresses nodes of a hierarchical entry tree with compact
//! paths, resolves a visible time window into pre-aggregated tiles at a
//! matching level of detail, accounts for asynchronous tile requests,
//! keeps an incremental substring-search cache over tile contents, and
//! records zoom/pan navigation as an undo/redo history of view intervals.

pub mod config;
pub mod data;
pub mod deferred_data;
pub mod entry;
pub mod nav;
pub mod search;
pub mod timestamp;
pub mod window;

pub use timestamp::{Interval, Timestamp};
