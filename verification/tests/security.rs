use rig_resources::security::ecs::signals;
use rig_resources::security::ecs::{
    add_ecs_security_signals, ecs_security_signals, find_string_field, push_unique,
};
use rig_resources::trace::TRACE_ENVELOPE_VERSION;
use rig_resources::{
    security_finding_trace_envelope, F64Bits, FindingSeverity, SecurityFinding, TraceField,
    TraceValue,
};

fn value_at<'a>(summary: &'a Option<Vec<TraceField>>, key: &str) -> Option<&'a TraceValue> {
    summary
        .as_ref()
        .and_then(|fields| fields.iter().find(|f| f.key == key).map(|f| &f.value))
}

fn weight(s: FindingSeverity) -> f64 {
    f64::from_bits(s.confidence_weight().0)
}

#[test]
fn extracts_auth_failure() {
    let row = br#"{"event.category":"authentication","event.outcome":"failure"}"#;
    let found = ecs_security_signals(row);
    assert!(found.contains(&signals::AUTH_FAILURE));
    assert!(!found.contains(&signals::AUTH_SUCCESS));
}

#[test]
fn extracts_lateral_chain_pieces() {
    let row = br#"{"event.category":"process","event.action":"psexec"}"#;
    let found = ecs_security_signals(row);
    assert!(found.contains(&signals::PROCESS_SPAWN));
    assert!(found.contains(&signals::LATERAL_MOVE));
}

#[test]
fn adds_signals_without_duplicates() {
    let row = br#"{"event.category":"network","network.direction":"outbound"}"#;
    let mut ctx_signals: Vec<String> = Vec::new();
    add_ecs_security_signals(&mut ctx_signals, row);
    add_ecs_security_signals(&mut ctx_signals, row);
    assert_eq!(
        ctx_signals
            .iter()
            .filter(|signal| signal.as_str() == signals::NET_CONNECT)
            .count(),
        1
    );
    assert!(ctx_signals.iter().any(|s| s == signals::NETWORK_EGRESS));
}

#[test]
fn non_utf8_row_yields_no_signals() {
    let row: &[u8] = &[0xff, 0xfe, b'{', b'}'];
    assert!(ecs_security_signals(row).is_empty());
    let mut existing = vec!["keep".to_string()];
    add_ecs_security_signals(&mut existing, row);
    assert_eq!(existing, vec!["keep".to_string()]);
}

#[test]
fn row_signals_have_no_duplicates() {
    let row = br#"{"event.category":"authentication","event.outcome":"success","event.action":"rdp","network.direction":"inbound"}"#;
    let found = ecs_security_signals(row);
    for (i, a) in found.iter().enumerate() {
        for b in found.iter().skip(i + 1) {
            assert_ne!(a, b);
        }
    }
    assert!(found.contains(&signals::AUTH_SUCCESS));
}

#[test]
fn find_string_field_reads_quoted_values() {
    let text = r#"{"a" : "x y", "b":7, "c":"z"}"#;
    assert_eq!(find_string_field(text, "a").as_deref(), Some("x y"));
    assert_eq!(find_string_field(text, "b"), None);
    assert_eq!(find_string_field(text, "c").as_deref(), Some("z"));
    assert_eq!(find_string_field(text, "missing"), None);
    assert_eq!(find_string_field(r#"{"a": "unterminated"#, "a"), None);
}

#[test]
fn push_unique_skips_present_signal() {
    let mut out: Vec<&'static str> = vec![signals::DNS_QUERY];
    push_unique(&mut out, signals::DNS_QUERY);
    push_unique(&mut out, signals::NET_CONNECT);
    assert_eq!(out, vec![signals::DNS_QUERY, signals::NET_CONNECT]);
}

#[test]
fn severity_weights_are_monotonic() {
    let weights = [
        weight(FindingSeverity::Info),
        weight(FindingSeverity::Low),
        weight(FindingSeverity::Medium),
        weight(FindingSeverity::High),
        weight(FindingSeverity::Critical),
    ];
    for window in weights.windows(2) {
        assert!(window[0] < window[1], "weights must be strictly increasing");
    }
    for w in weights {
        assert!((0.0..=1.0).contains(&w));
    }
    assert!((weights[2] - 0.55).abs() < 1e-12);
}

#[test]
fn severity_wire_names() {
    assert_eq!(FindingSeverity::Info.as_str(), "info");
    assert_eq!(FindingSeverity::Low.as_str(), "low");
    assert_eq!(FindingSeverity::Medium.as_str(), "medium");
    assert_eq!(FindingSeverity::High.as_str(), "high");
    assert_eq!(FindingSeverity::Critical.as_str(), "critical");
}

#[test]
fn synthesises_source_uri_and_source_id_when_missing() {
    let finding = SecurityFinding::new("recon.high_fanout", FindingSeverity::Medium, "fanout");
    assert_eq!(finding.context_source_id(), "security.finding/recon.high_fanout");
    assert_eq!(
        finding.resolved_source_uri(),
        "security-finding://recon.high_fanout"
    );
    assert!(finding.principal.is_none());
}

#[test]
fn source_id_and_uri_use_principal_and_explicit_uri() {
    let finding = SecurityFinding::new("credential.password_spray", FindingSeverity::High, "x")
        .with_principal("host-1")
        .with_source_uri("siem://event/42");
    assert_eq!(
        finding.context_source_id(),
        "security.finding/credential.password_spray/host-1"
    );
    assert_eq!(finding.resolved_source_uri(), "siem://event/42");
}

#[test]
fn explicit_confidence_overrides_severity_weight() {
    let finding = SecurityFinding::new("exfil.slow_beacon", FindingSeverity::Low, "beacon")
        .with_confidence(F64Bits(0.99_f64.to_bits()));
    let confidence = f64::from_bits(finding.effective_confidence().0);
    assert!((confidence - 0.99).abs() < 1e-9);
    let default = SecurityFinding::new("exfil.slow_beacon", FindingSeverity::Low, "beacon");
    assert_eq!(default.effective_confidence(), FindingSeverity::Low.confidence_weight());
}

#[test]
fn signals_accumulate_in_order() {
    let finding = SecurityFinding::new("a", FindingSeverity::Info, "s")
        .with_signals(&["one", "two"])
        .add_signal("three");
    assert_eq!(finding.signals, vec!["one", "two", "three"]);
}

#[test]
fn trace_envelope_captures_input_output_and_mitre() {
    let finding = SecurityFinding::new("lateral.auth_spawn_connect", FindingSeverity::High, "chain")
        .with_principal("host-9")
        .with_signals(&["auth.success", "process.spawn", "net.connect"])
        .with_source_skill("lateral.auth_spawn_connect")
        .with_technique_id("T1021")
        .with_tactic("lateral-movement");

    let envelope = security_finding_trace_envelope(&finding);

    assert_eq!(envelope.version, TRACE_ENVELOPE_VERSION);
    assert_eq!(envelope.resource, "security");
    assert_eq!(envelope.operation, "finding");
    assert_eq!(envelope.trace_kind, "security_finding");
    assert_eq!(
        value_at(&envelope.input_summary, "finding_id"),
        Some(&TraceValue::Text("lateral.auth_spawn_connect".into()))
    );
    assert_eq!(
        value_at(&envelope.input_summary, "principal"),
        Some(&TraceValue::Text("host-9".into()))
    );
    assert_eq!(
        value_at(&envelope.input_summary, "source_skill"),
        Some(&TraceValue::Text("lateral.auth_spawn_connect".into()))
    );
    match value_at(&envelope.input_summary, "signals") {
        Some(TraceValue::TextList(list)) => assert_eq!(list[1], "process.spawn"),
        other => panic!("unexpected signals {other:?}"),
    }
    assert_eq!(
        value_at(&envelope.output_summary, "severity"),
        Some(&TraceValue::Text("high".into()))
    );
    match value_at(&envelope.output_summary, "confidence") {
        Some(TraceValue::Float64(bits)) => {
            assert!((f64::from_bits(bits.0) - weight(FindingSeverity::High)).abs() < 1e-9)
        }
        other => panic!("unexpected confidence {other:?}"),
    }
    assert_eq!(
        value_at(&envelope.metadata, "technique_id"),
        Some(&TraceValue::Text("T1021".into()))
    );
    assert_eq!(
        value_at(&envelope.metadata, "tactic"),
        Some(&TraceValue::Text("lateral-movement".into()))
    );
}

#[test]
fn trace_envelope_omits_metadata_when_mitre_absent() {
    let finding = SecurityFinding::new("recon.high_fanout", FindingSeverity::Low, "fanout");
    let envelope = security_finding_trace_envelope(&finding);
    assert!(envelope.metadata.is_none());
    assert_eq!(
        value_at(&envelope.input_summary, "principal"),
        Some(&TraceValue::Null)
    );
    assert!(value_at(&envelope.input_summary, "source_skill").is_none());
}

#[test]
fn trace_envelope_keeps_null_technique_when_only_tactic_set() {
    let finding =
        SecurityFinding::new("x", FindingSeverity::Info, "y").with_tactic("discovery");
    let envelope = security_finding_trace_envelope(&finding);
    assert_eq!(value_at(&envelope.metadata, "technique_id"), Some(&TraceValue::Null));
    assert_eq!(
        value_at(&envelope.metadata, "tactic"),
        Some(&TraceValue::Text("discovery".into()))
    );
}

#[test]
fn adding_row_signals_appends_only_missing_ones() {
    let row = br#"{"event.category":"network","network.direction":"outbound"}"#;
    let mut existing = vec!["auth.success".to_string(), signals::NET_CONNECT.to_string()];
    add_ecs_security_signals(&mut existing, row);
    assert_eq!(
        existing,
        vec!["auth.success".to_string(), signals::NET_CONNECT.to_string(), signals::NETWORK_EGRESS.to_string()]
    );
}
