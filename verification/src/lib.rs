//! Core of a web-search relevance engine: query parsing, ranking-policy
//! compilation, multi-signal scoring and two-phase top-k retrieval over an
//! in-memory inverted index.

use vstd::prelude::*;

pub mod api;
pub mod collector;
pub mod highlighted;
pub mod index;
pub mod laws;
pub mod optic;
pub mod parser;
pub mod prettifier;
pub mod query;
pub mod schema;
pub mod searcher;
pub mod signal;
pub mod text;
pub mod timeutil;
pub mod webpage;

verus! {

/// Scale used to store centrality values as fixed-point integers:
/// a real centrality of `1.0` is stored as `CENTRALITY_SCALING`.
pub const CENTRALITY_SCALING: u64 = 1_000_000_000;

} // verus!
