use rig_resources::memory::{default_k, f32_bits_finite, validate_lookup_k, TRACE_REASON_NO_HITS};
use rig_resources::trace::TRACE_ENVELOPE_VERSION;
use rig_resources::{memory_lookup_trace_envelope, F32Bits, MemoryLookupHit, TraceField, TraceValue};

fn score(x: f32) -> F32Bits {
    F32Bits(x.to_bits())
}

fn field_of<'a>(summary: &'a Option<Vec<TraceField>>, key: &str) -> Option<&'a TraceValue> {
    summary
        .as_ref()
        .and_then(|fields| fields.iter().find(|f| f.key == key).map(|f| &f.value))
}

fn text(s: &str) -> TraceValue {
    TraceValue::Text(s.to_string())
}

#[test]
fn lookup_hit_serializes_shared_metadata() {
    let hit = MemoryLookupHit::new(score(0.75), "matched episode")
        .with_key("ep-7")
        .with_source_uri("memory://episode/7")
        .with_principal("alice")
        .with_scope("workspace")
        .with_recorded_at_millis(1_700_000_000_000);

    assert_eq!(hit.key.as_deref(), Some("ep-7"));
    assert_eq!(hit.source_uri.as_deref(), Some("memory://episode/7"));
    assert_eq!(hit.principal.as_deref(), Some("alice"));
    assert_eq!(hit.scope.as_deref(), Some("workspace"));
    assert_eq!(hit.recorded_at_millis, Some(1_700_000_000_000_i64));
    assert_eq!(hit.summary, "matched episode");
    assert!(hit.metadata.is_null());
}

#[test]
fn lookup_k_must_be_positive() {
    assert!(validate_lookup_k(0).is_err());
    assert_eq!(
        validate_lookup_k(0).unwrap_err(),
        "memory.lookup requires k >= 1"
    );
    assert_eq!(validate_lookup_k(1), Ok(1));
    assert_eq!(validate_lookup_k(default_k()), Ok(3));
}

#[test]
fn finite_score_bits() {
    assert!(f32_bits_finite(score(0.5)));
    assert!(f32_bits_finite(score(0.0)));
    assert!(!f32_bits_finite(score(f32::NAN)));
    assert!(!f32_bits_finite(score(f32::INFINITY)));
    assert!(!f32_bits_finite(score(f32::NEG_INFINITY)));
}

#[test]
fn trace_envelope_summarises_hits_and_metadata() {
    let hits = vec![
        MemoryLookupHit::new(score(0.91), "top hit")
            .with_key("ep-1")
            .with_source_uri("memory://ep/1")
            .with_recorded_at_millis(1_700_000_000_000)
            .with_principal("alice")
            .with_scope("workspace"),
        MemoryLookupHit::new(score(0.42), "runner up").with_key("ep-2"),
    ];

    let envelope =
        memory_lookup_trace_envelope("beacon", 3, &hits, Some("alice"), Some("workspace"));

    assert_eq!(envelope.version, TRACE_ENVELOPE_VERSION);
    assert_eq!(envelope.resource, "memory");
    assert_eq!(envelope.operation, "lookup");
    assert_eq!(envelope.trace_kind, "memory_lookup");
    assert_eq!(field_of(&envelope.input_summary, "query"), Some(&text("beacon")));
    assert_eq!(field_of(&envelope.input_summary, "k"), Some(&TraceValue::UInt(3)));
    assert_eq!(field_of(&envelope.input_summary, "principal"), Some(&text("alice")));
    assert_eq!(field_of(&envelope.input_summary, "scope"), Some(&text("workspace")));
    assert_eq!(
        field_of(&envelope.output_summary, "hit_count"),
        Some(&TraceValue::UInt(2))
    );
    match field_of(&envelope.output_summary, "top_score") {
        Some(TraceValue::Float32(bits)) => {
            assert!((f32::from_bits(bits.0) as f64 - 0.91).abs() < 1e-6)
        }
        other => panic!("unexpected top_score {other:?}"),
    }
    assert_eq!(field_of(&envelope.output_summary, "top_key"), Some(&text("ep-1")));
    assert!(envelope.reason.is_none());
    assert_eq!(
        field_of(&envelope.metadata, "source_uri"),
        Some(&text("memory://ep/1"))
    );
    assert_eq!(
        field_of(&envelope.metadata, "recorded_at_millis"),
        Some(&TraceValue::Int(1_700_000_000_000_i64))
    );
    // Caller-supplied principal/scope matches the top hit, so they are
    // not echoed into metadata.
    assert!(field_of(&envelope.metadata, "top_principal").is_none());
    assert!(field_of(&envelope.metadata, "top_scope").is_none());
}

#[test]
fn trace_envelope_emits_no_hits_reason_when_empty() {
    let envelope = memory_lookup_trace_envelope("nothing", 5, &[], None, None);
    assert_eq!(
        field_of(&envelope.output_summary, "hit_count"),
        Some(&TraceValue::UInt(0))
    );
    assert!(field_of(&envelope.output_summary, "top_score").is_none());
    assert_eq!(envelope.reason.as_deref(), Some(TRACE_REASON_NO_HITS));
    assert!(envelope.metadata.is_none());
    assert!(field_of(&envelope.input_summary, "principal").is_none());
}

#[test]
fn trace_envelope_records_mismatched_top_principal_scope() {
    let hits = vec![MemoryLookupHit::new(score(0.5), "cross-tenant")
        .with_key("ep-9")
        .with_principal("bob")
        .with_scope("other")];

    let envelope = memory_lookup_trace_envelope("q", 1, &hits, Some("alice"), Some("workspace"));

    assert_eq!(field_of(&envelope.metadata, "top_principal"), Some(&text("bob")));
    assert_eq!(field_of(&envelope.metadata, "top_scope"), Some(&text("other")));
}

#[test]
fn trace_envelope_skips_non_finite_top_score_and_empty_metadata() {
    let hits = vec![MemoryLookupHit::new(score(f32::NAN), "odd")];
    let envelope = memory_lookup_trace_envelope("q", 2, &hits, None, None);
    let output = envelope.output_summary.as_ref().unwrap();
    assert_eq!(output.len(), 1);
    assert_eq!(output[0].key, "hit_count");
    assert!(envelope.reason.is_none());
    // The top hit carries no provenance, so metadata stays null.
    assert!(envelope.metadata.is_none());
}

#[test]
fn cloned_hit_keeps_metadata() {
    let mut meta = serde_json::Map::new();
    meta.insert("rank".to_string(), serde_json::Value::from(1));
    let hit = MemoryLookupHit::new(score(0.9), "top")
        .with_key("ep-1")
        .with_metadata(serde_json::Value::Object(meta));
    let copy = hit.clone();
    assert_eq!(copy.metadata["rank"], 1);
    assert_eq!(copy.key.as_deref(), Some("ep-1"));
    assert_eq!(copy.summary, "top");
}
