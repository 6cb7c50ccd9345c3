//! Local resource trace envelopes for evidence metadata.
//!
//! An envelope records, in one stable shape, the input and output of a
//! resource-side decision (graph expansion, security finding, baseline
//! comparison, memory lookup). Summaries are JSON-like objects: ordered
//! key/value fields, or null when absent.

use vstd::prelude::*;

use crate::bits::{F32Bits, F64Bits};

verus! {

/// Current envelope version.
pub const TRACE_ENVELOPE_VERSION: u32 = 1;

/// One value of a trace summary field.
#[derive(Debug, Clone, PartialEq)]
pub enum TraceValue {
    /// JSON `null`.
    Null,
    /// A boolean.
    Bool(bool),
    /// A signed integer.
    Int(i64),
    /// An unsigned integer.
    UInt(u64),
    /// A single-precision number.
    Float32(F32Bits),
    /// A double-precision number.
    Float64(F64Bits),
    /// A string.
    Text(String),
    /// A list of strings.
    TextList(Vec<String>),
}

/// A trace value seen as plain values.
pub enum ValueView {
    Null,
    Bool(bool),
    Int(i64),
    UInt(u64),
    Float32(F32Bits),
    Float64(F64Bits),
    Text(Seq<char>),
    TextList(Seq<Seq<char>>),
}

impl View for TraceValue {
    type V = ValueView;

    open spec fn view(&self) -> ValueView {
        match self {
            TraceValue::Null => ValueView::Null,
            TraceValue::Bool(b) => ValueView::Bool(*b),
            TraceValue::Int(i) => ValueView::Int(*i),
            TraceValue::UInt(u) => ValueView::UInt(*u),
            TraceValue::Float32(f) => ValueView::Float32(*f),
            TraceValue::Float64(f) => ValueView::Float64(*f),
            TraceValue::Text(s) => ValueView::Text(s@),
            TraceValue::TextList(v) => ValueView::TextList(v@.map_values(|s: String| s@)),
        }
    }
}

/// One `key: value` field of a trace summary.
#[derive(Debug, Clone, PartialEq)]
pub struct TraceField {
    /// Field name.
    pub key: String,
    /// Field value.
    pub value: TraceValue,
}

/// The fields of a summary as `(key, value)` pairs.
pub open spec fn fields_view(fields: Seq<TraceField>) -> Seq<(Seq<char>, ValueView)> {
    fields.map_values(|f: TraceField| (f.key@, f.value@))
}

/// A summary seen as plain values: `None` stands for JSON `null`.
pub open spec fn summary_view(summary: Option<Vec<TraceField>>) -> Option<Seq<(Seq<char>, ValueView)>> {
    match summary {
        Some(fields) => Some(fields_view(fields@)),
        None => None,
    }
}

/// An optional string seen as its characters.
pub open spec fn opt_view(o: Option<String>) -> Option<Seq<char>> {
    match o {
        Some(s) => Some(s@),
        None => None,
    }
}

/// `fields` has a field named `key`, and every field so named holds `v`.
pub open spec fn field_is(fields: Seq<(Seq<char>, ValueView)>, key: Seq<char>, v: ValueView) -> bool {
    &&& exists|i: int| 0 <= i < fields.len() && #[trigger] fields[i] == (key, v)
    &&& forall|i: int| 0 <= i < fields.len() && (#[trigger] fields[i]).0 == key ==> fields[i].1 == v
}

/// No field of `fields` is named `key`.
pub open spec fn field_absent(fields: Seq<(Seq<char>, ValueView)>, key: Seq<char>) -> bool {
    forall|i: int| 0 <= i < fields.len() ==> (#[trigger] fields[i]).0 != key
}

/// No field is named anything in an empty summary.
pub proof fn lemma_field_absent_empty(key: Seq<char>)
    ensures
        field_absent(Seq::empty(), key),
{
}

/// Appending a field named `k`: it is the one field named `k` when none was
/// there before, and fields of other names are as they were.
pub proof fn lemma_field_push(fields: Seq<(Seq<char>, ValueView)>, k: Seq<char>, v: ValueView, key: Seq<char>, w: ValueView)
    ensures
        field_absent(fields, k) ==> field_is(fields.push((k, v)), k, v),
        key != k ==> (field_is(fields.push((k, v)), key, w) <==> field_is(fields, key, w)),
        key != k ==> (field_absent(fields.push((k, v)), key) <==> field_absent(fields, key)),
{
    let f = fields.push((k, v));
    if field_absent(fields, k) {
        assert(f[fields.len() as int] == (k, v));
    }
    if key != k {
        if field_is(fields, key, w) {
            let i = choose|i: int| 0 <= i < fields.len() && #[trigger] fields[i] == (key, w);
            assert(f[i] == (key, w));
        }
        if field_is(f, key, w) {
            let i = choose|i: int| 0 <= i < f.len() && #[trigger] f[i] == (key, w);
            assert(fields[i] == (key, w));
            assert forall|j: int| 0 <= j < fields.len() && (#[trigger] fields[j]).0 == key implies fields[j].1 == w by {
                assert(f[j] == fields[j]);
            }
        }
        if field_absent(f, key) {
            assert forall|j: int| 0 <= j < fields.len() implies (#[trigger] fields[j]).0 != key by {
                assert(f[j] == fields[j]);
            }
        }
    }
}

/// Build a `key: value` field.
pub fn field(key: &str, value: TraceValue) -> (f: TraceField)
    ensures
        f.key@ == key@,
        f.value == value,
{
    TraceField { key: key.to_owned(), value }
}

/// Machine-readable trace envelope for resource-side decisions.
#[derive(Debug, Clone, PartialEq)]
pub struct ResourceTraceEnvelope {
    /// Trace shape version.
    pub version: u32,
    /// Category such as `graph`, `security`, `baseline`, or `memory`.
    pub resource: String,
    /// Specific operation performed by the resource.
    pub operation: String,
    /// Machine-readable trace kind such as `graph_expansion`.
    pub trace_kind: String,
    /// Compact, non-secret input summary (`None` is null).
    pub input_summary: Option<Vec<TraceField>>,
    /// Compact output summary (`None` is null).
    pub output_summary: Option<Vec<TraceField>>,
    /// Optional reason code for skip, suppress, deny, or not-applicable paths.
    pub reason: Option<String>,
    /// Additional resource-specific metadata (`None` is null).
    pub metadata: Option<Vec<TraceField>>,
}

impl ResourceTraceEnvelope {
    /// Create a trace envelope with empty summaries.
    pub fn new(resource: &str, operation: &str, trace_kind: &str) -> (env: ResourceTraceEnvelope)
        ensures
            env.version == TRACE_ENVELOPE_VERSION,
            env.resource@ == resource@,
            env.operation@ == operation@,
            env.trace_kind@ == trace_kind@,
            env.input_summary is None,
            env.output_summary is None,
            env.reason is None,
            env.metadata is None,
    {
        ResourceTraceEnvelope {
            version: TRACE_ENVELOPE_VERSION,
            resource: resource.to_owned(),
            operation: operation.to_owned(),
            trace_kind: trace_kind.to_owned(),
            input_summary: None,
            output_summary: None,
            reason: None,
            metadata: None,
        }
    }

    /// Attach the input summary.
    pub fn with_input_summary(self, input_summary: Vec<TraceField>) -> (env: ResourceTraceEnvelope)
        ensures
            env == (ResourceTraceEnvelope { input_summary: Some(input_summary), ..self }),
    {
        ResourceTraceEnvelope { input_summary: Some(input_summary), ..self }
    }

    /// Attach the output summary.
    pub fn with_output_summary(self, output_summary: Vec<TraceField>) -> (env: ResourceTraceEnvelope)
        ensures
            env == (ResourceTraceEnvelope { output_summary: Some(output_summary), ..self }),
    {
        ResourceTraceEnvelope { output_summary: Some(output_summary), ..self }
    }

    /// Attach a machine-readable reason code.
    pub fn with_reason(self, reason: &str) -> (env: ResourceTraceEnvelope)
        ensures
            env.reason matches Some(r) && r@ == reason@,
            env.version == self.version,
            env.resource == self.resource,
            env.operation == self.operation,
            env.trace_kind == self.trace_kind,
            env.input_summary == self.input_summary,
            env.output_summary == self.output_summary,
            env.metadata == self.metadata,
    {
        ResourceTraceEnvelope { reason: Some(reason.to_owned()), ..self }
    }

    /// Attach resource-specific metadata.
    pub fn with_metadata(self, metadata: Vec<TraceField>) -> (env: ResourceTraceEnvelope)
        ensures
            env == (ResourceTraceEnvelope { metadata: Some(metadata), ..self }),
    {
        ResourceTraceEnvelope { metadata: Some(metadata), ..self }
    }
}

} // verus!
