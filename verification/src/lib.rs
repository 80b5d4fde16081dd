//! Per-hop trace-graph ferrying and subgraph-pattern matching for a service
//! mesh: each proxy hop merges itself into a causal graph of the request,
//! carries that graph forward in a header, and a designated root hop matches
//! the accumulated graph against a compile-time pattern to answer a query.

pub mod attrs;
pub mod codec;
pub mod direction;
pub mod extract;
pub mod ferry;
pub mod graph;
pub mod hop;
pub mod matcher;
pub mod property;
pub mod target;

pub use direction::TrafficDirection;
