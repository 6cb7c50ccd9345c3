//! The identifiers, texts and locators under which resource records are
//! projected into prompt context.

use vstd::prelude::*;

use crate::baseline::EntityBaseline;
use crate::graph::store::Subgraph;
use crate::memory::MemoryLookupHit;
use crate::patterns::BehaviorPattern;
use crate::text::{concat2, decimal, decimal_string, starts_with, str_equal};

verus! {

/// `a` followed by `b` and `c`.
fn concat3(a: &str, b: &str, c: &str) -> (s: String)
    ensures
        s@ == a@ + b@ + c@,
{
    let ab = concat2(a, b);
    concat2(ab.as_str(), c)
}

/// `a`, `b`, `c` and `d` in order.
fn concat4(a: &str, b: &str, c: &str, d: &str) -> (s: String)
    ensures
        s@ == a@ + b@ + c@ + d@,
{
    let abc = concat3(a, b, c);
    concat2(abc.as_str(), d)
}

/// Context source id of a behaviour pattern: `behavior_pattern/{id}@v{version}`.
pub fn pattern_context_source_id(p: &BehaviorPattern) -> (id: String)
    ensures
        id@ == "behavior_pattern/"@ + p.id@ + "@v"@ + decimal(p.version as nat),
{
    let v = decimal_string(p.version as u64);
    concat4("behavior_pattern/", p.id.as_str(), "@v", v.as_str())
}

/// Source URI of a behaviour pattern: `behavior-pattern://{id}@v{version}`.
pub fn pattern_context_source_uri(p: &BehaviorPattern) -> (uri: String)
    ensures
        uri@ == "behavior-pattern://"@ + p.id@ + "@v"@ + decimal(p.version as nat),
{
    let v = decimal_string(p.version as u64);
    concat4("behavior-pattern://", p.id.as_str(), "@v", v.as_str())
}

/// Context text of a behaviour pattern: its description, or
/// `behavior pattern {id} version {version}` when it has none.
pub fn pattern_context_text(p: &BehaviorPattern) -> (text: String)
    ensures
        text@ == if p.description@.len() == 0 {
            "behavior pattern "@ + p.id@ + " version "@ + decimal(p.version as nat)
        } else {
            p.description@
        },
{
    if p.description.as_str().is_empty() {
        let v = decimal_string(p.version as u64);
        concat4("behavior pattern ", p.id.as_str(), " version ", v.as_str())
    } else {
        p.description.clone()
    }
}

/// Context source id of a baseline: `baseline/{entity}/{metric}`.
pub fn baseline_context_source_id(b: &EntityBaseline) -> (id: String)
    ensures
        id@ == "baseline/"@ + b.entity@ + "/"@ + b.metric@,
{
    concat4("baseline/", b.entity.as_str(), "/", b.metric.as_str())
}

/// Source URI of a baseline: `baseline://{entity}/{metric}`.
pub fn baseline_context_source_uri(b: &EntityBaseline) -> (uri: String)
    ensures
        uri@ == "baseline://"@ + b.entity@ + "/"@ + b.metric@,
{
    concat4("baseline://", b.entity.as_str(), "/", b.metric.as_str())
}

/// Context source id of the memory hit at `rank`: its key, or
/// `memory.hit/{rank}` when it has none.
pub fn memory_hit_context_source_id(hit: &MemoryLookupHit, rank: usize) -> (id: String)
    ensures
        id@ == match hit.key {
            Some(k) => k@,
            None => "memory.hit/"@ + decimal(rank as nat),
        },
{
    match &hit.key {
        Some(k) => k.clone(),
        None => {
            let r = decimal_string(rank as u64);
            concat2("memory.hit/", r.as_str())
        },
    }
}

/// Context source id of a graph expansion: `graph/{seed}`.
pub fn subgraph_context_source_id(sub: &Subgraph) -> (id: String)
    ensures
        id@ == "graph/"@ + sub.seed@,
{
    concat2("graph/", sub.seed.as_str())
}

/// Source URI of a graph expansion: `graph://{seed}`.
pub fn subgraph_context_source_uri(sub: &Subgraph) -> (uri: String)
    ensures
        uri@ == "graph://"@ + sub.seed@,
{
    concat2("graph://", sub.seed.as_str())
}

/// Context text of a graph expansion:
/// `graph expansion for {seed}: {n} nodes, {m} edges`.
pub fn subgraph_context_text(sub: &Subgraph) -> (text: String)
    ensures
        text@ == "graph expansion for "@ + sub.seed@ + ": "@ + decimal(sub.nodes@.len()) + " nodes, "@
            + decimal(sub.edges@.len()) + " edges"@,
{
    let n = decimal_string(sub.nodes.len() as u64);
    let m = decimal_string(sub.edges.len() as u64);
    let head = concat4("graph expansion for ", sub.seed.as_str(), ": ", n.as_str());
    concat4(head.as_str(), " nodes, ", m.as_str(), " edges")
}

/// Score weight of a graph expansion: its node count plus its edge count,
/// saturating at `usize::MAX`.
pub fn subgraph_context_weight(sub: &Subgraph) -> (w: usize)
    ensures
        w == if sub.nodes@.len() + sub.edges@.len() > usize::MAX {
            usize::MAX as int
        } else {
            (sub.nodes@.len() + sub.edges@.len()) as int
        },
{
    sub.nodes.len().saturating_add(sub.edges.len())
}

/// Evidence is projected as memory when the memory pivot skill recorded it
/// or its label starts with `memory.`; otherwise as a resource.
pub fn evidence_is_memory(source_skill: &str, label: &str) -> (memory: bool)
    ensures
        memory == (source_skill@ == "general.memory_pivot"@ || ("memory."@.len() <= label@.len()
            && label@.take("memory."@.len() as int) == "memory."@)),
{
    str_equal(source_skill, "general.memory_pivot") || starts_with(label, "memory.")
}

/// Context source id of evidence: `{source_skill}/{label}`.
pub fn evidence_context_source_id(source_skill: &str, label: &str) -> (id: String)
    ensures
        id@ == source_skill@ + "/"@ + label@,
{
    concat3(source_skill, "/", label)
}

/// Source URI of evidence: `evidence://{source_skill}/{label}`.
pub fn evidence_context_source_uri(source_skill: &str, label: &str) -> (uri: String)
    ensures
        uri@ == "evidence://"@ + source_skill@ + "/"@ + label@,
{
    concat4("evidence://", source_skill, "/", label)
}

/// Context text of evidence: its detail's `summary`, else its detail's
/// `description`, else its label.
pub fn evidence_text(summary: Option<&str>, description: Option<&str>, label: &str) -> (text: String)
    ensures
        text@ == match summary {
            Some(s) => s@,
            None => match description {
                Some(d) => d@,
                None => label@,
            },
        },
{
    match summary {
        Some(s) => s.to_owned(),
        None => match description {
            Some(d) => d.to_owned(),
            None => label.to_owned(),
        },
    }
}

} // verus!
