//! Structured security findings and their trace envelope.

use serde_json::Value;
use vstd::prelude::*;

use crate::bits::F64Bits;
use crate::json::json_null;
use crate::text::concat2;
use crate::trace::{
    field, field_absent, field_is, fields_view, opt_view, summary_view, ResourceTraceEnvelope, TraceField,
    TraceValue, ValueView, TRACE_ENVELOPE_VERSION,
};

verus! {

/// Provider-neutral severity tier for a [`SecurityFinding`].
#[derive(Debug, Clone, Copy, PartialEq, Eq, Structural)]
pub enum FindingSeverity {
    /// Informational signal; not actionable on its own.
    Info,
    /// Low-severity finding; benign anomaly or background noise.
    Low,
    /// Medium-severity finding; worth correlating with other signals.
    Medium,
    /// High-severity finding; likely actionable in isolation.
    High,
    /// Critical finding; immediate triage expected.
    Critical,
}

/// The lowercase wire name of a severity.
pub open spec fn severity_name(s: FindingSeverity) -> Seq<char> {
    match s {
        FindingSeverity::Info => "info"@,
        FindingSeverity::Low => "low"@,
        FindingSeverity::Medium => "medium"@,
        FindingSeverity::High => "high"@,
        FindingSeverity::Critical => "critical"@,
    }
}

/// The default confidence weight of a severity, as `f64` bits:
/// 0.10, 0.30, 0.55, 0.80 and 0.95 from `Info` to `Critical`.
pub open spec fn severity_weight(s: FindingSeverity) -> F64Bits {
    match s {
        FindingSeverity::Info => F64Bits(0x3fb9_9999_9999_999a),
        FindingSeverity::Low => F64Bits(0x3fd3_3333_3333_3333),
        FindingSeverity::Medium => F64Bits(0x3fe1_9999_9999_999a),
        FindingSeverity::High => F64Bits(0x3fe9_9999_9999_999a),
        FindingSeverity::Critical => F64Bits(0x3fee_6666_6666_6666),
    }
}

/// Severity weights increase strictly from `Info` to `Critical` and lie in
/// `[0, 1]`. Each weight is a positive finite `f64`, and the bit patterns of
/// positive finite doubles order exactly as the numbers do; `0` and
/// `0x3ff0_0000_0000_0000` are the patterns of 0.0 and 1.0.
pub proof fn law_severity_weights_increasing()
    ensures
        0 < severity_weight(FindingSeverity::Info).0,
        severity_weight(FindingSeverity::Info).0 < severity_weight(FindingSeverity::Low).0,
        severity_weight(FindingSeverity::Low).0 < severity_weight(FindingSeverity::Medium).0,
        severity_weight(FindingSeverity::Medium).0 < severity_weight(FindingSeverity::High).0,
        severity_weight(FindingSeverity::High).0 < severity_weight(FindingSeverity::Critical).0,
        severity_weight(FindingSeverity::Critical).0 < 0x3ff0_0000_0000_0000u64,
{
}

/// Distinct severities have distinct wire names.
pub proof fn law_severity_names_distinct(a: FindingSeverity, b: FindingSeverity)
    ensures
        severity_name(a) == severity_name(b) ==> a == b,
{
    reveal_strlit("info");
    reveal_strlit("low");
    reveal_strlit("medium");
    reveal_strlit("high");
    reveal_strlit("critical");
    assert("info"@.len() == 4 && "info"@[0] == 'i');
    assert("low"@.len() == 3);
    assert("medium"@.len() == 6);
    assert("high"@.len() == 4 && "high"@[0] == 'h');
    assert("critical"@.len() == 8);
}

impl FindingSeverity {
    /// Default confidence weight in `[0.0, 1.0]` associated with this
    /// severity tier, as `f64` bits.
    pub fn confidence_weight(self) -> (w: F64Bits)
        ensures
            w == severity_weight(self),
    {
        match self {
            FindingSeverity::Info => F64Bits(0x3fb9_9999_9999_999a),
            FindingSeverity::Low => F64Bits(0x3fd3_3333_3333_3333),
            FindingSeverity::Medium => F64Bits(0x3fe1_9999_9999_999a),
            FindingSeverity::High => F64Bits(0x3fe9_9999_9999_999a),
            FindingSeverity::Critical => F64Bits(0x3fee_6666_6666_6666),
        }
    }

    /// Stable lowercase string representation, matching the wire form.
    pub fn as_str(self) -> (s: &'static str)
        ensures
            s@ == severity_name(self),
    {
        match self {
            FindingSeverity::Info => "info",
            FindingSeverity::Low => "low",
            FindingSeverity::Medium => "medium",
            FindingSeverity::High => "high",
            FindingSeverity::Critical => "critical",
        }
    }
}

/// Structured security finding produced by a security skill or detector.
#[derive(Debug, Clone, PartialEq)]
pub struct SecurityFinding {
    /// Stable id identifying the finding kind (e.g. `recon.high_fanout`).
    pub id: String,
    /// Severity tier.
    pub severity: FindingSeverity,
    /// Human-readable summary of the finding.
    pub summary: String,
    /// Principal or entity this finding implicates (host, user, account, ip).
    pub principal: Option<String>,
    /// Caller-defined scope such as tenant, workspace, or project.
    pub scope: Option<String>,
    /// MITRE ATT&CK technique id (e.g. `T1110.003`).
    pub technique_id: Option<String>,
    /// MITRE ATT&CK tactic (e.g. `credential-access`).
    pub tactic: Option<String>,
    /// Id of the skill or detector that produced the finding.
    pub source_skill: Option<String>,
    /// Contributing signals (`auth.failure.burst`, ...).
    pub signals: Vec<String>,
    /// URI for the original source record.
    pub source_uri: Option<String>,
    /// Millis since the Unix epoch when the underlying event was recorded.
    pub recorded_at_millis: Option<i64>,
    /// Explicit confidence override in `[0.0, 1.0]`, as `f64` bits;
    /// defaults to the severity weight when unset.
    pub confidence: Option<F64Bits>,
    /// Free-form structured detail attached to the finding.
    pub detail: Value,
}

/// The confidence a finding carries: its explicit confidence, or the
/// weight of its severity.
pub open spec fn effective_confidence_of(f: SecurityFinding) -> F64Bits {
    match f.confidence {
        Some(c) => c,
        None => severity_weight(f.severity),
    }
}

/// The `source_uri` provenance key of a finding: its own, or one made from
/// the finding id.
pub open spec fn resolved_source_uri_of(f: SecurityFinding) -> Seq<char> {
    match f.source_uri {
        Some(u) => u@,
        None => "security-finding://"@ + f.id@,
    }
}

/// The context source id of a finding: `security.finding/{id}`, followed by
/// `/{principal}` when a principal is set.
pub open spec fn context_source_id_of(f: SecurityFinding) -> Seq<char> {
    match f.principal {
        Some(p) => "security.finding/"@ + f.id@ + "/"@ + p@,
        None => "security.finding/"@ + f.id@,
    }
}

impl SecurityFinding {
    /// Construct a finding with the required fields populated.
    pub fn new(id: &str, severity: FindingSeverity, summary: &str) -> (f: SecurityFinding)
        ensures
            f.id@ == id@,
            f.severity == severity,
            f.summary@ == summary@,
            f.principal is None,
            f.scope is None,
            f.technique_id is None,
            f.tactic is None,
            f.source_skill is None,
            f.signals@.len() == 0,
            f.source_uri is None,
            f.recorded_at_millis is None,
            f.confidence is None,
    {
        SecurityFinding {
            id: id.to_owned(),
            severity,
            summary: summary.to_owned(),
            principal: None,
            scope: None,
            technique_id: None,
            tactic: None,
            source_skill: None,
            signals: Vec::new(),
            source_uri: None,
            recorded_at_millis: None,
            confidence: None,
            detail: json_null(),
        }
    }

    /// Set the principal.
    pub fn with_principal(self, principal: &str) -> (f: SecurityFinding)
        ensures
            opt_view(f.principal) == Some(principal@),
            f == (SecurityFinding { principal: f.principal, ..self }),
    {
        SecurityFinding { principal: Some(principal.to_owned()), ..self }
    }

    /// Set the scope.
    pub fn with_scope(self, scope: &str) -> (f: SecurityFinding)
        ensures
            opt_view(f.scope) == Some(scope@),
            f == (SecurityFinding { scope: f.scope, ..self }),
    {
        SecurityFinding { scope: Some(scope.to_owned()), ..self }
    }

    /// Set the MITRE ATT&CK technique id.
    pub fn with_technique_id(self, technique_id: &str) -> (f: SecurityFinding)
        ensures
            opt_view(f.technique_id) == Some(technique_id@),
            f == (SecurityFinding { technique_id: f.technique_id, ..self }),
    {
        SecurityFinding { technique_id: Some(technique_id.to_owned()), ..self }
    }

    /// Set the MITRE ATT&CK tactic.
    pub fn with_tactic(self, tactic: &str) -> (f: SecurityFinding)
        ensures
            opt_view(f.tactic) == Some(tactic@),
            f == (SecurityFinding { tactic: f.tactic, ..self }),
    {
        SecurityFinding { tactic: Some(tactic.to_owned()), ..self }
    }

    /// Set the id of the producing skill or detector.
    pub fn with_source_skill(self, source_skill: &str) -> (f: SecurityFinding)
        ensures
            opt_view(f.source_skill) == Some(source_skill@),
            f == (SecurityFinding { source_skill: f.source_skill, ..self }),
    {
        SecurityFinding { source_skill: Some(source_skill.to_owned()), ..self }
    }

    /// Replace the contributing signals.
    pub fn with_signals(self, signals: &[&str]) -> (f: SecurityFinding)
        ensures
            f.signals@.map_values(|s: String| s@) == signals@.map_values(|s: &str| s@),
            f == (SecurityFinding { signals: f.signals, ..self }),
    {
        let mut v: Vec<String> = Vec::new();
        let mut i: usize = 0;
        while i < signals.len()
            invariant
                i <= signals@.len(),
                v@.map_values(|s: String| s@) == signals@.take(i as int).map_values(|s: &str| s@),
            decreases signals.len() - i,
        {
            let ghost prev = v@.map_values(|s: String| s@);
            let owned = signals[i].to_owned();
            proof {
                assert(owned@ == signals@[i as int]@);
            }
            v.push(owned);
            proof {
                assert(v@.map_values(|s: String| s@) =~= prev.push(signals@[i as int]@));
                assert(signals@.take(i + 1).map_values(|s: &str| s@) =~= signals@.take(i as int).map_values(|s: &str| s@).push(signals@[i as int]@));
            }
            i = i + 1;
        }
        proof {
            assert(signals@.take(signals@.len() as int) =~= signals@);
        }
        SecurityFinding { signals: v, ..self }
    }

    /// Append a single signal.
    pub fn add_signal(self, signal: &str) -> (f: SecurityFinding)
        ensures
            f.signals@.map_values(|s: String| s@) == self.signals@.map_values(|s: String| s@).push(signal@),
            f == (SecurityFinding { signals: f.signals, ..self }),
    {
        let mut signals = self.signals;
        let ghost before = signals@.map_values(|s: String| s@);
        signals.push(signal.to_owned());
        proof {
            assert(signals@.map_values(|s: String| s@) =~= before.push(signal@));
        }
        SecurityFinding { signals, ..self }
    }

    /// Set the URI of the original source record.
    pub fn with_source_uri(self, source_uri: &str) -> (f: SecurityFinding)
        ensures
            opt_view(f.source_uri) == Some(source_uri@),
            f == (SecurityFinding { source_uri: f.source_uri, ..self }),
    {
        SecurityFinding { source_uri: Some(source_uri.to_owned()), ..self }
    }

    /// Set the time the underlying event was recorded.
    pub fn with_recorded_at_millis(self, recorded_at_millis: i64) -> (f: SecurityFinding)
        ensures
            f == (SecurityFinding { recorded_at_millis: Some(recorded_at_millis), ..self }),
    {
        SecurityFinding { recorded_at_millis: Some(recorded_at_millis), ..self }
    }

    /// Set the confidence explicitly, overriding the severity weight.
    pub fn with_confidence(self, confidence: F64Bits) -> (f: SecurityFinding)
        ensures
            f == (SecurityFinding { confidence: Some(confidence), ..self }),
    {
        SecurityFinding { confidence: Some(confidence), ..self }
    }

    /// Set the structured detail.
    pub fn with_detail(self, detail: Value) -> (f: SecurityFinding)
        ensures
            f == (SecurityFinding { detail, ..self }),
    {
        SecurityFinding { detail, ..self }
    }

    /// Effective confidence, defaulting to the severity weight.
    pub fn effective_confidence(&self) -> (c: F64Bits)
        ensures
            c == effective_confidence_of(*self),
    {
        match self.confidence {
            Some(c) => c,
            None => self.severity.confidence_weight(),
        }
    }

    /// Resolve the `source_uri` provenance key, synthesising one from the
    /// finding id when the caller did not provide one.
    pub fn resolved_source_uri(&self) -> (uri: String)
        ensures
            uri@ == resolved_source_uri_of(*self),
    {
        match &self.source_uri {
            Some(u) => u.clone(),
            None => concat2("security-finding://", self.id.as_str()),
        }
    }

    /// The source id under which the finding is projected into context.
    pub fn context_source_id(&self) -> (id: String)
        ensures
            id@ == context_source_id_of(*self),
    {
        let base = concat2("security.finding/", self.id.as_str());
        match &self.principal {
            Some(p) => {
                let with_slash = concat2(base.as_str(), "/");
                concat2(with_slash.as_str(), p.as_str())
            },
            None => base,
        }
    }
}

/// Input summary of a finding's envelope: its id, principal (or null),
/// signals, and the producing skill when known.
pub open spec fn finding_input_view(f: SecurityFinding) -> Seq<(Seq<char>, ValueView)> {
    let base = seq![
        ("finding_id"@, ValueView::Text(f.id@)),
        ("principal"@, match f.principal {
            Some(p) => ValueView::Text(p@),
            None => ValueView::Null,
        }),
        ("signals"@, ValueView::TextList(f.signals@.map_values(|s: String| s@))),
    ];
    match f.source_skill {
        Some(s) => base.push(("source_skill"@, ValueView::Text(s@))),
        None => base,
    }
}

/// What a finding's envelope input reports, field by field: its id, its
/// principal (null when unset), its signals in order, and the producing
/// skill exactly when known; and what a finding carries as confidence,
/// source locator and context id: the explicit confidence or else its
/// severity's weight, the explicit source URI or else one made from the
/// id, and `security.finding/{id}` followed by `/{principal}` when set.
pub proof fn law_finding_fields(f: SecurityFinding)
    ensures
        field_is(finding_input_view(f), "finding_id"@, ValueView::Text(f.id@)),
        field_is(
            finding_input_view(f),
            "principal"@,
            match f.principal {
                Some(p) => ValueView::Text(p@),
                None => ValueView::Null,
            },
        ),
        field_is(finding_input_view(f), "signals"@, ValueView::TextList(f.signals@.map_values(|s: String| s@))),
        match f.source_skill {
            Some(k) => field_is(finding_input_view(f), "source_skill"@, ValueView::Text(k@)),
            None => field_absent(finding_input_view(f), "source_skill"@),
        },
        f.confidence matches Some(c) ==> effective_confidence_of(f) == c,
        f.confidence is None ==> effective_confidence_of(f) == severity_weight(f.severity),
        f.source_uri matches Some(u) ==> resolved_source_uri_of(f) == u@,
        f.source_uri is None ==> resolved_source_uri_of(f) == "security-finding://"@ + f.id@,
        f.principal is None ==> context_source_id_of(f) == "security.finding/"@ + f.id@,
        f.principal matches Some(p) ==> context_source_id_of(f) == "security.finding/"@ + f.id@ + "/"@ + p@,
{
    reveal_strlit("finding_id");
    reveal_strlit("principal");
    reveal_strlit("signals");
    reveal_strlit("source_skill");
    assert("finding_id"@.len() == 10);
    assert("principal"@.len() == 9);
    assert("signals"@.len() == 7);
    assert("source_skill"@.len() == 12);
    let v = finding_input_view(f);
    assert(v[0].0 == "finding_id"@ && v[1].0 == "principal"@ && v[2].0 == "signals"@);
    match f.source_skill {
        Some(k) => {
            assert(v[3] == ("source_skill"@, ValueView::Text(k@)));
        },
        None => {},
    }
}

/// An optional string as a trace value: its text, or null.
pub open spec fn text_or_null(o: Option<String>) -> ValueView {
    match o {
        Some(s) => ValueView::Text(s@),
        None => ValueView::Null,
    }
}

/// An optional string as a trace value.
fn text_or_null_value(o: &Option<String>) -> (v: TraceValue)
    ensures
        v@ == text_or_null(*o),
{
    match o {
        Some(s) => TraceValue::Text(s.clone()),
        None => TraceValue::Null,
    }
}

/// A copy of a list of strings as a trace value.
fn text_list(v: &Vec<String>) -> (t: TraceValue)
    ensures
        t@ == ValueView::TextList(v@.map_values(|s: String| s@)),
{
    let copy = crate::text::clone_strings(v);
    TraceValue::TextList(copy)
}

/// Build the trace envelope describing the production of a security
/// finding: input signals, output severity and confidence, and the MITRE
/// technique and tactic as metadata when either is set.
pub fn security_finding_trace_envelope(finding: &SecurityFinding) -> (env: ResourceTraceEnvelope)
    ensures
        env.version == TRACE_ENVELOPE_VERSION,
        env.resource@ == "security"@,
        env.operation@ == "finding"@,
        env.trace_kind@ == "security_finding"@,
        summary_view(env.input_summary) == Some(finding_input_view(*finding)),
        summary_view(env.output_summary) == Some(
            seq![
                ("severity"@, ValueView::Text(severity_name(finding.severity))),
                ("confidence"@, ValueView::Float64(effective_confidence_of(*finding))),
            ],
        ),
        env.reason is None,
        summary_view(env.metadata) == if finding.technique_id is Some || finding.tactic is Some {
            Some(
                seq![
                    ("technique_id"@, text_or_null(finding.technique_id)),
                    ("tactic"@, text_or_null(finding.tactic)),
                ],
            )
        } else {
            None
        },
{
    let mut input: Vec<TraceField> = Vec::new();
    input.push(field("finding_id", TraceValue::Text(finding.id.clone())));
    input.push(field("principal", text_or_null_value(&finding.principal)));
    input.push(field("signals", text_list(&finding.signals)));
    let ghost base = fields_view(input@);
    proof {
        assert(base =~= finding_input_view(SecurityFinding { source_skill: None, ..*finding }));
    }
    match &finding.source_skill {
        Some(skill) => {
            input.push(field("source_skill", TraceValue::Text(skill.clone())));
            proof {
                assert(fields_view(input@) =~= base.push(("source_skill"@, ValueView::Text(skill@))));
            }
        },
        None => {},
    }
    let mut output: Vec<TraceField> = Vec::new();
    output.push(field("severity", TraceValue::Text(finding.severity.as_str().to_owned())));
    output.push(field("confidence", TraceValue::Float64(finding.effective_confidence())));
    proof {
        assert(fields_view(output@) =~= seq![
            ("severity"@, ValueView::Text(severity_name(finding.severity))),
            ("confidence"@, ValueView::Float64(effective_confidence_of(*finding))),
        ]);
    }
    let mut env = ResourceTraceEnvelope::new("security", "finding", "security_finding")
        .with_input_summary(input)
        .with_output_summary(output);
    if finding.technique_id.is_some() || finding.tactic.is_some() {
        let mut metadata: Vec<TraceField> = Vec::new();
        metadata.push(field("technique_id", text_or_null_value(&finding.technique_id)));
        metadata.push(field("tactic", text_or_null_value(&finding.tactic)));
        proof {
            assert(fields_view(metadata@) =~= seq![
                ("technique_id"@, text_or_null(finding.technique_id)),
                ("tactic"@, text_or_null(finding.tactic)),
            ]);
        }
        env = env.with_metadata(metadata);
    }
    env
}

} // verus!
