//! Security signal extraction, security skills and structured findings.

pub mod credential;
pub mod ecs;
pub mod exfil;
pub mod finding;
pub mod lateral;
pub mod recon;

pub use finding::{security_finding_trace_envelope, FindingSeverity, SecurityFinding};
