//! Caching of time-series aggregates by time interval.
//!
//! An aggregation over a filter that fixes a time interval is cached under a key that leaves the
//! bounds of the interval out. A later query of the same shape reads what the cache has for its
//! own interval and computes only the gaps.
//!
//! - `static_interval` reads the interval from a filter, `semantics` says what that interval
//!   means for the rows.
//! - `normalize`, `key` and `fingerprint` make the key, `optimizer` decides which plans are cached.
//! - `cache` stores batches by key and interval, `selection`, `gaps`, `coverage` and `history`
//!   say which stored intervals answer a request and what is left to compute.
//! - `planner`, `bounds` and `exec` build the physical plan, `answer` says what it answers.
//!
//! Plans and expressions are modelled as far as the cache reads them. What it only hands on is
//! known by a handle that the caller gives out.

pub mod answer;
pub mod batch;
pub mod bounds;
pub mod cache;
pub mod column;
pub mod config;
pub mod coverage;
pub mod error;
pub mod exec;
pub mod expr;
pub mod fingerprint;
pub mod gaps;
pub mod history;
pub mod interval;
pub mod key;
pub mod node;
pub mod normalize;
pub mod optimizer;
pub mod physical;
pub mod plan;
pub mod planner;
pub mod report;
pub mod scalar;
pub mod scan;
pub mod selection;
pub mod semantics;
pub mod static_interval;
pub mod text;

pub use crate::cache::MemoryQueryCache;
pub use crate::config::QueryCacheConfig;
pub use crate::fingerprint::normalize_fingerprint_for_caching;
pub use crate::interval::TimeInterval;
pub use crate::normalize::normalize_temporal_bounds_in_expr;
pub use crate::plan::normalize_temporal_bounds_in_plan;
pub use crate::selection::OccupiedIntervalCacheEntry;
