//! Selective entity-graph resources.

pub mod backend;
pub mod inmem;
pub mod skills;
pub mod store;
pub mod tool;

pub use inmem::InMemoryGraph;
pub use store::{GraphEdge, GraphError, Subgraph};
