//! A reputation-and-contribution scoring pipeline for participants in a
//! weighted transaction graph, computed over exact rational arithmetic:
//! eigenvector-centrality post-processing, a "graph value" blending volume,
//! connectivity and reputation, and a rating-driven reputation update.

pub mod ec;
pub mod graph;
pub mod rat;
pub mod reputation;
