//! Quorum-intersection analysis for federated Byzantine agreement systems.

pub mod allocator;
pub mod combos;
pub mod document;
pub mod encoding;
pub mod error;
pub mod fbas;
pub mod fbas_analyze;
pub mod graph;
pub mod index_set;
pub mod interning;
pub mod json_parser;
pub mod keys;
pub mod laws;
pub mod literals;
pub mod ordered;
pub mod quorum;
pub mod quorum_set;
pub mod sat;
pub mod wire;
