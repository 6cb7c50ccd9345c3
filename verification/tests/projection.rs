use rig_resources::projection::{
    baseline_context_source_id, baseline_context_source_uri, evidence_context_source_id,
    evidence_context_source_uri, evidence_is_memory, evidence_text, memory_hit_context_source_id,
    pattern_context_source_id, pattern_context_source_uri, pattern_context_text,
    subgraph_context_source_id, subgraph_context_source_uri, subgraph_context_text,
    subgraph_context_weight,
};
use rig_resources::text::decimal_string;
use rig_resources::trace::{field, TRACE_ENVELOPE_VERSION};
use rig_resources::{
    BehaviorPattern, EntityBaseline, F32Bits, F64Bits, GraphEdge, MemoryLookupHit, PatternRule,
    ResourceTraceEnvelope, Subgraph, TraceValue,
};

fn spray_pattern() -> BehaviorPattern {
    BehaviorPattern::new(
        "spray",
        2,
        PatternRule {
            required: vec!["auth.failure.burst".into()],
            forbidden: vec!["baseline.within".into()],
        },
        F32Bits(0.25_f32.to_bits()),
    )
}

#[test]
fn behavior_pattern_projects_to_resource_context() {
    let pattern = spray_pattern().with_description("password spray around one host");
    assert_eq!(pattern_context_source_id(&pattern), "behavior_pattern/spray@v2");
    assert_eq!(pattern_context_source_uri(&pattern), "behavior-pattern://spray@v2");
    assert_eq!(pattern_context_text(&pattern), "password spray around one host");
    assert_eq!(pattern.rule.required[0], "auth.failure.burst");
}

#[test]
fn pattern_without_description_gets_synthesised_text() {
    let pattern = spray_pattern();
    assert_eq!(pattern_context_text(&pattern), "behavior pattern spray version 2");
}

#[test]
fn memory_hits_project_with_stable_ranks() {
    let hits = vec![
        MemoryLookupHit::new(F32Bits(0.9_f32.to_bits()), "first")
            .with_key("episode-1")
            .with_source_uri("memory://episode/1"),
        MemoryLookupHit::new(F32Bits(0.5_f32.to_bits()), "second"),
    ];
    assert_eq!(memory_hit_context_source_id(&hits[0], 0), "episode-1");
    assert_eq!(memory_hit_context_source_id(&hits[1], 1), "memory.hit/1");
    assert_eq!(memory_hit_context_source_id(&hits[1], 42), "memory.hit/42");
}

#[test]
fn baseline_projects_by_entity_and_metric() {
    let b = EntityBaseline {
        entity: "host-1".into(),
        metric: "dns_qps".into(),
        mean: F64Bits(10.0_f64.to_bits()),
        std_dev: F64Bits(20.0_f64.to_bits()),
        samples: 100,
    };
    assert_eq!(baseline_context_source_id(&b), "baseline/host-1/dns_qps");
    assert_eq!(baseline_context_source_uri(&b), "baseline://host-1/dns_qps");
}

#[test]
fn subgraph_projects_to_resource_context() {
    let subgraph = Subgraph {
        seed: "host-1".into(),
        nodes: vec!["host-1".into(), "host-2".into()],
        edges: vec![GraphEdge::new("host-1", "host-2", "connects")],
    };
    assert_eq!(subgraph_context_source_id(&subgraph), "graph/host-1");
    assert_eq!(subgraph_context_source_uri(&subgraph), "graph://host-1");
    assert_eq!(subgraph_context_weight(&subgraph), 3);
    assert_eq!(
        subgraph_context_text(&subgraph),
        "graph expansion for host-1: 2 nodes, 1 edges"
    );
}

#[test]
fn evidence_projection_classifies_memory() {
    assert!(evidence_is_memory("general.memory_pivot", "anything"));
    assert!(evidence_is_memory("other", "memory.hit"));
    assert!(!evidence_is_memory("knowledge.behavior_pattern", "pattern:spray"));
    assert!(!evidence_is_memory("other", "memory"));
    assert_eq!(
        evidence_context_source_id("knowledge.behavior_pattern", "pattern:spray"),
        "knowledge.behavior_pattern/pattern:spray"
    );
    assert_eq!(
        evidence_context_source_uri("detector", "finding"),
        "evidence://detector/finding"
    );
}

#[test]
fn decimal_strings() {
    assert_eq!(decimal_string(0), "0");
    assert_eq!(decimal_string(7), "7");
    assert_eq!(decimal_string(1_700_000_000_000), "1700000000000");
    assert_eq!(decimal_string(u64::MAX), "18446744073709551615");
}

#[test]
fn envelope_builders_fill_each_part() {
    let envelope = ResourceTraceEnvelope::new("graph", "expand", "graph_expansion")
        .with_input_summary(vec![field("entity", TraceValue::Text("host-1".into()))])
        .with_output_summary(vec![field("distinct_neighbours", TraceValue::UInt(4))])
        .with_reason("threshold_exceeded")
        .with_metadata(vec![field("depth", TraceValue::UInt(2))]);
    assert_eq!(envelope.version, TRACE_ENVELOPE_VERSION);
    assert_eq!(envelope.resource, "graph");
    assert_eq!(envelope.operation, "expand");
    assert_eq!(envelope.trace_kind, "graph_expansion");
    assert_eq!(envelope.input_summary.as_ref().unwrap()[0].key, "entity");
    assert_eq!(
        envelope.output_summary.as_ref().unwrap()[0].value,
        TraceValue::UInt(4)
    );
    assert_eq!(envelope.reason.as_deref(), Some("threshold_exceeded"));
    assert_eq!(envelope.metadata.as_ref().unwrap().len(), 1);
    let bare = ResourceTraceEnvelope::new("graph", "expand", "graph_expansion");
    assert!(bare.input_summary.is_none());
    assert!(bare.output_summary.is_none());
    assert!(bare.reason.is_none());
    assert!(bare.metadata.is_none());
}

#[test]
fn evidence_text_falls_back_from_summary_to_description_to_label() {
    assert_eq!(evidence_text(Some("matching episode"), Some("d"), "memory.hit"), "matching episode");
    assert_eq!(evidence_text(None, Some("spray pattern"), "pattern:spray"), "spray pattern");
    assert_eq!(evidence_text(None, None, "pattern:spray"), "pattern:spray");
}
