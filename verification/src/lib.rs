//! A subgraph-matching engine: the matching context, its buckets and the
//! expanding graphs that carry partial matches from one plan step to the next.

pub mod adjacency;
pub mod buckets;
pub mod cypher;
pub mod dump;
pub mod dyn_graph;
pub mod expand_graph;
pub mod keys;
pub mod maps;
pub mod matching_ctx;
pub mod operators;
pub mod report;
pub mod schemas;
pub mod vars;
