//! Reusable resources for agent kernels: behaviour-pattern registries,
//! baseline stores, an in-memory entity graph, memory lookup records,
//! trace envelopes and security signal extraction.

pub mod baseline;
pub mod bits;
pub mod graph;
pub mod json;
pub mod memory;
pub mod patterns;
pub mod projection;
pub mod security;
pub mod skills;
pub mod text;
pub mod trace;

pub use baseline::{
    baseline_compare_trace_envelope, BaselineComparison, BaselineError, EntityBaseline,
    InMemoryBaselineStore,
};
pub use bits::{F32Bits, F64Bits};
pub use graph::{GraphEdge, GraphError, InMemoryGraph, Subgraph};
pub use memory::{memory_lookup_trace_envelope, MemoryLookupError, MemoryLookupHit};
pub use patterns::{BehaviorPattern, BehaviorRegistry, PatternId, PatternRule};
pub use security::{security_finding_trace_envelope, FindingSeverity, SecurityFinding};
pub use skills::{BaselineCompareSkill, MemoryPivotSkill};
pub use trace::{ResourceTraceEnvelope, TraceField, TraceValue};
