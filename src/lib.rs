//! An incremental index of a source repository: a content-hashed function
//! model, a deterministic snapshot builder, the merge that carries summaries
//! forward, update metrics and the entry-point heuristics.

pub mod text;
pub mod digest;
pub mod model;
pub mod language;
pub mod extract;
pub mod paths;
pub mod snapshot;
pub mod merge;
pub mod metrics;
pub mod ranker;
pub mod config;
