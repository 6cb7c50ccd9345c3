//! Entity graph data types.

use std::time::SystemTime;
use vstd::prelude::*;

verus! {

/// `std::time::SystemTime`, carried through the library as an opaque stamp.
#[verifier::external_type_specification]
#[verifier::external_body]
pub struct ExSystemTime(SystemTime);

/// `SystemTime::now`: the current wall-clock time. Nothing is promised of
/// the value, which depends on the machine's clock.
#[verifier::external_body]
fn wall_clock_now() -> SystemTime {
    SystemTime::now()
}

/// Errors returned by graph stores.
#[derive(Debug)]
pub enum GraphError {
    /// The requested entity does not exist in the graph.
    NotFound(String),
}

/// Directed edge `src --kind--> dst` observed at `ts`.
#[derive(Debug, PartialEq, Eq)]
pub struct GraphEdge {
    /// Source entity id.
    pub src: String,
    /// Destination entity id.
    pub dst: String,
    /// Edge relation kind.
    pub kind: String,
    /// Observation timestamp.
    pub ts: SystemTime,
}

impl View for GraphEdge {
    type V = (Seq<char>, Seq<char>, Seq<char>);

    /// An edge is seen as its `(src, dst, kind)` triple.
    open spec fn view(&self) -> (Seq<char>, Seq<char>, Seq<char>) {
        (self.src@, self.dst@, self.kind@)
    }
}

impl GraphEdge {
    /// Build a directed edge observed at `ts`.
    pub fn at(src: &str, dst: &str, kind: &str, ts: SystemTime) -> (edge: GraphEdge)
        ensures
            edge.src@ == src@,
            edge.dst@ == dst@,
            edge.kind@ == kind@,
            edge.ts == ts,
    {
        GraphEdge { src: src.to_owned(), dst: dst.to_owned(), kind: kind.to_owned(), ts }
    }

    /// Build a timestamped directed edge observed now: [`GraphEdge::at`]
    /// with the current wall-clock time.
    pub fn new(src: &str, dst: &str, kind: &str) -> (edge: GraphEdge)
        ensures
            edge.src@ == src@,
            edge.dst@ == dst@,
            edge.kind@ == kind@,
    {
        Self::at(src, dst, kind, wall_clock_now())
    }
}

impl Clone for GraphEdge {
    /// A field-by-field copy, timestamp included.
    fn clone(&self) -> (copy: Self)
        ensures
            copy@ == self@,
            copy.ts == self.ts,
    {
        GraphEdge {
            src: self.src.clone(),
            dst: self.dst.clone(),
            kind: self.kind.clone(),
            ts: self.ts,
        }
    }
}

/// Bounded graph expansion result around a seed entity.
#[derive(Debug, Clone, Default)]
pub struct Subgraph {
    /// Seed entity used for expansion.
    pub seed: String,
    /// Entity ids included in the expansion.
    pub nodes: Vec<String>,
    /// Directed edges included in the expansion.
    pub edges: Vec<GraphEdge>,
}

} // verus!
