use rig_resources::baseline::{
    TRACE_REASON_EXCEEDS_BOUNDS, TRACE_REASON_NOT_FOUND, TRACE_REASON_WITHIN_BOUNDS,
};
use rig_resources::trace::TRACE_ENVELOPE_VERSION;
use rig_resources::{
    baseline_compare_trace_envelope, BaselineComparison, BaselineError, EntityBaseline, F64Bits,
    InMemoryBaselineStore, TraceField, TraceValue,
};

fn make_baseline(entity: &str, metric: &str, mean: f64, sd: f64) -> EntityBaseline {
    EntityBaseline {
        entity: entity.into(),
        metric: metric.into(),
        mean: F64Bits(mean.to_bits()),
        std_dev: F64Bits(sd.to_bits()),
        samples: 100,
    }
}

/// The floating-point half of a comparison, as the application computes it.
fn compare_with(b: &EntityBaseline, observed: f64, k: f64) -> BaselineComparison {
    let mean = f64::from_bits(b.mean.0);
    let sd = f64::from_bits(b.std_dev.0);
    let bound = (k * sd).max(f64::EPSILON);
    let deviation = (observed - mean).abs();
    let z = (observed - mean) / sd;
    BaselineComparison {
        within: deviation <= bound,
        bound: F64Bits(bound.to_bits()),
        deviation: F64Bits(deviation.to_bits()),
        z_score: if sd != 0.0 && z.is_finite() {
            Some(F64Bits(z.to_bits()))
        } else {
            None
        },
    }
}

fn lookup<'a>(summary: &'a Option<Vec<TraceField>>, key: &str) -> Option<&'a TraceValue> {
    summary
        .as_ref()
        .and_then(|fields| fields.iter().find(|f| f.key == key).map(|f| &f.value))
}

fn float_of(v: Option<&TraceValue>) -> f64 {
    match v {
        Some(TraceValue::Float64(bits)) => f64::from_bits(bits.0),
        other => panic!("not a double: {other:?}"),
    }
}

#[test]
fn store_put_then_get() {
    let mut store = InMemoryBaselineStore::new();
    store.put(make_baseline("e", "m", 5.0, 1.0));
    let got = store.get("e", "m").unwrap();
    assert_eq!(got.samples, 100);
    assert!(store.contains("e", "m"));
}

#[test]
fn store_get_missing_reports_not_found() {
    let store = InMemoryBaselineStore::new();
    match store.get("ghost", "metric") {
        Err(BaselineError::NotFound { entity, metric }) => {
            assert_eq!(entity, "ghost");
            assert_eq!(metric, "metric");
        }
        Ok(_) => panic!("empty store returned a baseline"),
    }
    assert!(!store.contains("ghost", "metric"));
    assert!(store.is_empty());
}

#[test]
fn store_put_replaces_same_key_and_keeps_others() {
    let mut store = InMemoryBaselineStore::new();
    store.put(make_baseline("e", "m", 5.0, 1.0));
    store.put(make_baseline("e", "other", 6.0, 1.0));
    let mut replacement = make_baseline("e", "m", 9.0, 3.0);
    replacement.samples = 7;
    store.put(replacement);
    assert_eq!(store.len(), 2);
    let got = store.get("e", "m").unwrap();
    assert_eq!(got.samples, 7);
    assert_eq!(f64::from_bits(got.mean.0), 9.0);
    let other = store.get("e", "other").unwrap();
    assert_eq!(f64::from_bits(other.mean.0), 6.0);
    assert!(!store.contains("other", "m"));
}

#[test]
fn trace_envelope_within_bounds_includes_metadata() {
    let b = make_baseline("host-1", "fanout", 10.0, 2.0);
    let c = compare_with(&b, 11.0, 2.0);
    let envelope = baseline_compare_trace_envelope(
        "host-1",
        "fanout",
        F64Bits(11.0_f64.to_bits()),
        F64Bits(2.0_f64.to_bits()),
        Some((&b, c)),
    );

    assert_eq!(envelope.version, TRACE_ENVELOPE_VERSION);
    assert_eq!(envelope.resource, "baseline");
    assert_eq!(envelope.operation, "compare");
    assert_eq!(envelope.trace_kind, "baseline_compare");
    assert_eq!(
        lookup(&envelope.input_summary, "entity"),
        Some(&TraceValue::Text("host-1".into()))
    );
    assert_eq!(
        lookup(&envelope.input_summary, "metric"),
        Some(&TraceValue::Text("fanout".into()))
    );
    let observed = float_of(lookup(&envelope.input_summary, "observed_value"));
    assert!((observed - 11.0).abs() < 1e-9);
    assert_eq!(
        lookup(&envelope.output_summary, "available"),
        Some(&TraceValue::Bool(true))
    );
    assert_eq!(
        lookup(&envelope.output_summary, "within"),
        Some(&TraceValue::Bool(true))
    );
    let mean = float_of(lookup(&envelope.output_summary, "mean"));
    assert!((mean - 10.0).abs() < 1e-9);
    let bound = float_of(lookup(&envelope.output_summary, "bound"));
    assert!((bound - 4.0).abs() < 1e-9);
    assert_eq!(envelope.reason.as_deref(), Some(TRACE_REASON_WITHIN_BOUNDS));
    assert_eq!(
        lookup(&envelope.metadata, "samples"),
        Some(&TraceValue::UInt(100))
    );
    let z = float_of(lookup(&envelope.metadata, "z_score"));
    assert!((z - 0.5).abs() < 1e-9);
}

#[test]
fn trace_envelope_exceeds_bounds_sets_reason() {
    let b = make_baseline("host-1", "fanout", 10.0, 2.0);
    let c = compare_with(&b, 20.0, 2.0);
    let envelope = baseline_compare_trace_envelope(
        "host-1",
        "fanout",
        F64Bits(20.0_f64.to_bits()),
        F64Bits(2.0_f64.to_bits()),
        Some((&b, c)),
    );
    assert_eq!(
        lookup(&envelope.output_summary, "within"),
        Some(&TraceValue::Bool(false))
    );
    assert_eq!(envelope.reason.as_deref(), Some(TRACE_REASON_EXCEEDS_BOUNDS));
    let deviation = float_of(lookup(&envelope.output_summary, "deviation"));
    assert!((deviation - 10.0).abs() < 1e-9);
}

#[test]
fn trace_envelope_not_found_omits_baseline_fields() {
    let envelope = baseline_compare_trace_envelope(
        "ghost",
        "metric",
        F64Bits(7.0_f64.to_bits()),
        F64Bits(2.0_f64.to_bits()),
        None,
    );
    assert_eq!(
        lookup(&envelope.output_summary, "available"),
        Some(&TraceValue::Bool(false))
    );
    assert_eq!(
        lookup(&envelope.output_summary, "within"),
        Some(&TraceValue::Bool(false))
    );
    assert!(lookup(&envelope.output_summary, "mean").is_none());
    assert_eq!(envelope.reason.as_deref(), Some(TRACE_REASON_NOT_FOUND));
    assert!(envelope.metadata.is_none());
}

#[test]
fn trace_envelope_without_spread_omits_z_score() {
    let b = make_baseline("host-1", "fanout", 10.0, 0.0);
    let c = compare_with(&b, 10.0, 2.0);
    let envelope = baseline_compare_trace_envelope(
        "host-1",
        "fanout",
        F64Bits(10.0_f64.to_bits()),
        F64Bits(2.0_f64.to_bits()),
        Some((&b, c)),
    );
    assert_eq!(envelope.reason.as_deref(), Some(TRACE_REASON_WITHIN_BOUNDS));
    let metadata = envelope.metadata.as_ref().unwrap();
    assert_eq!(metadata.len(), 1);
    assert_eq!(metadata[0].key, "samples");
    let input = envelope.input_summary.as_ref().unwrap();
    let keys: Vec<&str> = input.iter().map(|f| f.key.as_str()).collect();
    assert_eq!(keys, vec!["entity", "metric", "observed_value", "k"]);
}
