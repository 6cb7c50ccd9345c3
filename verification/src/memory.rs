//! Memory lookup records and the `memory.lookup` trace envelope.

use serde_json::Value;
use vstd::prelude::*;

use crate::bits::F32Bits;
use crate::json::json_null;
use crate::text::str_equal;
use crate::trace::{
    field, field_absent, field_is, fields_view, lemma_field_push, opt_view, summary_view, ResourceTraceEnvelope,
    TraceField, TraceValue,
    ValueView, TRACE_ENVELOPE_VERSION,
};

verus! {

/// Stable name of the memory lookup tool.
pub const MEMORY_LOOKUP_TOOL_NAME: &'static str = "memory.lookup";
/// Reason code emitted when a lookup returned zero hits.
pub const TRACE_REASON_NO_HITS: &'static str = "no_hits";
/// Reason code emitted when the backing memory store failed.
pub const TRACE_REASON_BACKEND_ERROR: &'static str = "backend_error";

/// Error returned by a memory lookup store.
#[derive(Debug)]
pub enum MemoryLookupError {
    /// The backing memory store failed.
    Backend(String),
}

/// Check the `k` of a `memory.lookup` request: at least one hit must be
/// requested.
pub fn validate_lookup_k(k: usize) -> (res: Result<usize, String>)
    ensures
        match res {
            Ok(n) => k >= 1 && n == k,
            Err(msg) => k == 0 && msg@ == "memory.lookup requires k >= 1"@,
        },
{
    if k == 0 {
        Err("memory.lookup requires k >= 1".to_owned())
    } else {
        Ok(k)
    }
}

/// Default number of hits requested from `memory.lookup`.
pub fn default_k() -> (k: usize)
    ensures
        k == 3,
{
    3
}

/// One hit returned by a memory lookup store.
#[derive(Debug)]
pub struct MemoryLookupHit {
    /// Retrieval score in `[0, 1]`; higher is more similar.
    pub score: F32Bits,
    /// Short text summary suitable for evidence display.
    pub summary: String,
    /// Optional stable store key, frame id, or episode id.
    pub key: Option<String>,
    /// Optional URI or locator for the backing memory source.
    pub source_uri: Option<String>,
    /// Optional principal, actor, tenant, or subject associated with the hit.
    pub principal: Option<String>,
    /// Optional caller-defined lookup scope such as tenant, workspace, or profile.
    pub scope: Option<String>,
    /// Optional milliseconds since the Unix epoch when the source was recorded.
    pub recorded_at_millis: Option<i64>,
    /// Optional store-specific metadata.
    pub metadata: Value,
}

impl Clone for MemoryLookupHit {
    /// A field-by-field copy.
    fn clone(&self) -> (copy: Self)
        ensures
            copy == *self,
    {
        MemoryLookupHit {
            score: self.score,
            summary: self.summary.clone(),
            key: clone_opt(&self.key),
            source_uri: clone_opt(&self.source_uri),
            principal: clone_opt(&self.principal),
            scope: clone_opt(&self.scope),
            recorded_at_millis: self.recorded_at_millis,
            metadata: self.metadata.clone(),
        }
    }
}

/// A copy of an optional string.
fn clone_opt(o: &Option<String>) -> (copy: Option<String>)
    ensures
        copy == *o,
{
    match o {
        Some(s) => Some(s.clone()),
        None => None,
    }
}

impl MemoryLookupHit {
    /// Create a hit with no key or metadata.
    pub fn new(score: F32Bits, summary: &str) -> (hit: MemoryLookupHit)
        ensures
            hit.score == score,
            hit.summary@ == summary@,
            hit.key is None,
            hit.source_uri is None,
            hit.principal is None,
            hit.scope is None,
            hit.recorded_at_millis is None,
    {
        MemoryLookupHit {
            score,
            summary: summary.to_owned(),
            key: None,
            source_uri: None,
            principal: None,
            scope: None,
            recorded_at_millis: None,
            metadata: json_null(),
        }
    }

    /// Attach a stable storage key.
    pub fn with_key(self, key: &str) -> (hit: MemoryLookupHit)
        ensures
            opt_view(hit.key) == Some(key@),
            hit == (MemoryLookupHit { key: hit.key, ..self }),
    {
        MemoryLookupHit { key: Some(key.to_owned()), ..self }
    }

    /// Attach a source URI or locator.
    pub fn with_source_uri(self, source_uri: &str) -> (hit: MemoryLookupHit)
        ensures
            opt_view(hit.source_uri) == Some(source_uri@),
            hit == (MemoryLookupHit { source_uri: hit.source_uri, ..self }),
    {
        MemoryLookupHit { source_uri: Some(source_uri.to_owned()), ..self }
    }

    /// Attach the principal, actor, tenant, or subject associated with the hit.
    pub fn with_principal(self, principal: &str) -> (hit: MemoryLookupHit)
        ensures
            opt_view(hit.principal) == Some(principal@),
            hit == (MemoryLookupHit { principal: hit.principal, ..self }),
    {
        MemoryLookupHit { principal: Some(principal.to_owned()), ..self }
    }

    /// Attach the caller-defined lookup scope.
    pub fn with_scope(self, scope: &str) -> (hit: MemoryLookupHit)
        ensures
            opt_view(hit.scope) == Some(scope@),
            hit == (MemoryLookupHit { scope: hit.scope, ..self }),
    {
        MemoryLookupHit { scope: Some(scope.to_owned()), ..self }
    }

    /// Attach the source record timestamp in milliseconds since the Unix epoch.
    pub fn with_recorded_at_millis(self, recorded_at_millis: i64) -> (hit: MemoryLookupHit)
        ensures
            hit == (MemoryLookupHit { recorded_at_millis: Some(recorded_at_millis), ..self }),
    {
        MemoryLookupHit { recorded_at_millis: Some(recorded_at_millis), ..self }
    }

    /// Attach store-specific metadata.
    pub fn with_metadata(self, metadata: Value) -> (hit: MemoryLookupHit)
        ensures
            hit == (MemoryLookupHit { metadata, ..self }),
    {
        MemoryLookupHit { metadata, ..self }
    }
}

/// The bit pattern of a finite `f32` (exponent bits not all set): what
/// `f32::is_finite` tests, and what a JSON number can hold.
pub open spec fn f32_finite(x: F32Bits) -> bool {
    (x.0 >> 23u32) & 0xffu32 != 0xffu32
}

/// An `f32` is finite exactly when its exponent bits (mask `0x7f80_0000`)
/// are not all set: infinities and NaNs are the patterns with all of them
/// set.
pub proof fn law_f32_finite_mask(x: F32Bits)
    ensures
        f32_finite(x) <==> (x.0 & 0x7f80_0000u32) != 0x7f80_0000u32,
{
    let b = x.0;
    assert(((b >> 23u32) & 0xffu32 != 0xffu32) <==> ((b & 0x7f80_0000u32) != 0x7f80_0000u32)) by (bit_vector);
}

/// Whether the `f32` held by `x` is finite.
pub fn f32_bits_finite(x: F32Bits) -> (finite: bool)
    ensures
        finite == f32_finite(x),
{
    (x.0 >> 23u32) & 0xffu32 != 0xffu32
}

/// An optional borrowed string seen as its characters.
pub open spec fn opt_str_view(o: Option<&str>) -> Option<Seq<char>> {
    match o {
        Some(s) => Some(s@),
        None => None,
    }
}

/// `base` with `(key, Text(v))` appended when `v` is present.
pub open spec fn push_text(
    base: Seq<(Seq<char>, ValueView)>,
    key: Seq<char>,
    v: Option<Seq<char>>,
) -> Seq<(Seq<char>, ValueView)> {
    match v {
        Some(s) => base.push((key, ValueView::Text(s))),
        None => base,
    }
}

/// Input summary of a lookup: the query, `k`, and the caller's principal
/// and scope when given.
pub open spec fn lookup_input_view(
    query: Seq<char>,
    k: usize,
    principal: Option<Seq<char>>,
    scope: Option<Seq<char>>,
) -> Seq<(Seq<char>, ValueView)> {
    push_text(
        push_text(
            seq![("query"@, ValueView::Text(query)), ("k"@, ValueView::UInt(k as u64))],
            "principal"@,
            principal,
        ),
        "scope"@,
        scope,
    )
}

/// Output summary of a lookup: the hit count, then the top hit's score
/// (when finite) and key (when present).
pub open spec fn lookup_output_view(hits: Seq<MemoryLookupHit>) -> Seq<(Seq<char>, ValueView)> {
    let base = seq![("hit_count"@, ValueView::UInt(hits.len() as u64))];
    if hits.len() == 0 {
        base
    } else {
        let top = hits[0];
        let with_score = if f32_finite(top.score) {
            base.push(("top_score"@, ValueView::Float32(top.score)))
        } else {
            base
        };
        push_text(with_score, "top_key"@, opt_view(top.key))
    }
}

/// `mine` when it is present and differs from the caller-supplied `theirs`.
pub open spec fn mismatch(mine: Option<Seq<char>>, theirs: Option<Seq<char>>) -> Option<Seq<char>> {
    match mine {
        Some(m) => if theirs == Some(m) {
            None
        } else {
            Some(m)
        },
        None => None,
    }
}

/// Metadata fields of a lookup taken from the top hit: its source URI and
/// record time, and its principal and scope where they differ from the
/// caller's.
pub open spec fn lookup_metadata_fields(
    top: MemoryLookupHit,
    principal: Option<Seq<char>>,
    scope: Option<Seq<char>>,
) -> Seq<(Seq<char>, ValueView)> {
    let base = push_text(Seq::empty(), "source_uri"@, opt_view(top.source_uri));
    let with_time = match top.recorded_at_millis {
        Some(ms) => base.push(("recorded_at_millis"@, ValueView::Int(ms))),
        None => base,
    };
    push_text(
        push_text(with_time, "top_principal"@, mismatch(opt_view(top.principal), principal)),
        "top_scope"@,
        mismatch(opt_view(top.scope), scope),
    )
}

/// Metadata of a lookup envelope: null without hits or when the top hit
/// yields no field.
pub open spec fn lookup_metadata_view(
    hits: Seq<MemoryLookupHit>,
    principal: Option<Seq<char>>,
    scope: Option<Seq<char>>,
) -> Option<Seq<(Seq<char>, ValueView)>> {
    if hits.len() == 0 {
        None
    } else {
        let fields = lookup_metadata_fields(hits[0], principal, scope);
        if fields.len() == 0 {
            None
        } else {
            Some(fields)
        }
    }
}

/// Appending an optional text field named `k`: it is the one field so
/// named when present and none was before, stays absent when not present,
/// and fields of other names are as they were.
proof fn lemma_push_text(
    base: Seq<(Seq<char>, ValueView)>,
    k: Seq<char>,
    v: Option<Seq<char>>,
    key: Seq<char>,
    w: ValueView,
)
    ensures
        field_absent(base, k) ==> match v {
            Some(t) => field_is(push_text(base, k, v), k, ValueView::Text(t)),
            None => field_absent(push_text(base, k, v), k),
        },
        key != k ==> (field_is(push_text(base, k, v), key, w) <==> field_is(base, key, w)),
        key != k ==> (field_absent(push_text(base, k, v), key) <==> field_absent(base, key)),
{
    match v {
        Some(t) => {
            lemma_field_push(base, k, ValueView::Text(t), key, w);
            lemma_field_push(base, k, ValueView::Text(t), k, w);
        },
        None => {},
    }
}

/// The key texts of the lookup envelope differ from each other.
proof fn lemma_lookup_keys()
    ensures
        "query"@ != "k"@,
        "query"@ != "principal"@,
        "query"@ != "scope"@,
        "k"@ != "principal"@,
        "k"@ != "scope"@,
        "principal"@ != "scope"@,
        "hit_count"@ != "top_score"@,
        "hit_count"@ != "top_key"@,
        "top_score"@ != "top_key"@,
        "source_uri"@ != "recorded_at_millis"@,
        "source_uri"@ != "top_principal"@,
        "source_uri"@ != "top_scope"@,
        "recorded_at_millis"@ != "top_principal"@,
        "recorded_at_millis"@ != "top_scope"@,
        "top_principal"@ != "top_scope"@,
{
    reveal_strlit("query");
    reveal_strlit("k");
    reveal_strlit("principal");
    reveal_strlit("scope");
    reveal_strlit("hit_count");
    reveal_strlit("top_score");
    reveal_strlit("top_key");
    reveal_strlit("source_uri");
    reveal_strlit("recorded_at_millis");
    reveal_strlit("top_principal");
    reveal_strlit("top_scope");
    assert("query"@.len() == 5 && "query"@[0] == 'q');
    assert("k"@.len() == 1);
    assert("principal"@.len() == 9);
    assert("scope"@.len() == 5 && "scope"@[0] == 's');
    assert("hit_count"@.len() == 9 && "hit_count"@[0] == 'h');
    assert("top_score"@.len() == 9 && "top_score"@[0] == 't' && "top_score"@[7] == 'r');
    assert("top_key"@.len() == 7);
    assert("source_uri"@.len() == 10);
    assert("recorded_at_millis"@.len() == 18);
    assert("top_principal"@.len() == 13);
    assert("top_scope"@.len() == 9 && "top_scope"@[7] == 'p');
}

/// What a lookup envelope reports, field by field: the query and `k`, and
/// the caller's principal and scope when given; the number of hits, the
/// top hit's score (when finite) and key (when it has one); and as
/// metadata, only when there is a hit, the top hit's source and record
/// time when it has them, and its principal and scope when it has them and
/// they differ from what the caller gave (a caller that gave none counts as
/// differing). Without hits there is no metadata.
pub proof fn law_lookup_fields(
    query: Seq<char>,
    k: usize,
    hits: Seq<MemoryLookupHit>,
    principal: Option<Seq<char>>,
    scope: Option<Seq<char>>,
)
    ensures
        field_is(lookup_input_view(query, k, principal, scope), "query"@, ValueView::Text(query)),
        field_is(lookup_input_view(query, k, principal, scope), "k"@, ValueView::UInt(k as u64)),
        match principal {
            Some(p) => field_is(lookup_input_view(query, k, principal, scope), "principal"@, ValueView::Text(p)),
            None => field_absent(lookup_input_view(query, k, principal, scope), "principal"@),
        },
        match scope {
            Some(c) => field_is(lookup_input_view(query, k, principal, scope), "scope"@, ValueView::Text(c)),
            None => field_absent(lookup_input_view(query, k, principal, scope), "scope"@),
        },
        field_is(lookup_output_view(hits), "hit_count"@, ValueView::UInt(hits.len() as u64)),
        if hits.len() > 0 && f32_finite(hits[0].score) {
            field_is(lookup_output_view(hits), "top_score"@, ValueView::Float32(hits[0].score))
        } else {
            field_absent(lookup_output_view(hits), "top_score"@)
        },
        if hits.len() > 0 && hits[0].key is Some {
            field_is(lookup_output_view(hits), "top_key"@, ValueView::Text(hits[0].key.unwrap()@))
        } else {
            field_absent(lookup_output_view(hits), "top_key"@)
        },
        hits.len() == 0 ==> lookup_metadata_view(hits, principal, scope) is None,
        hits.len() > 0 && hits[0].source_uri is Some ==> lookup_metadata_view(hits, principal, scope) is Some
            && field_is(
            lookup_metadata_view(hits, principal, scope).unwrap(),
            "source_uri"@,
            ValueView::Text(hits[0].source_uri.unwrap()@),
        ),
        hits.len() > 0 && hits[0].recorded_at_millis is Some ==> lookup_metadata_view(hits, principal, scope) is Some
            && field_is(
            lookup_metadata_view(hits, principal, scope).unwrap(),
            "recorded_at_millis"@,
            ValueView::Int(hits[0].recorded_at_millis.unwrap()),
        ),
        hits.len() > 0 && hits[0].principal is Some && principal != Some(hits[0].principal.unwrap()@)
            ==> lookup_metadata_view(hits, principal, scope) is Some && field_is(
            lookup_metadata_view(hits, principal, scope).unwrap(),
            "top_principal"@,
            ValueView::Text(hits[0].principal.unwrap()@),
        ),
        hits.len() > 0 && (hits[0].principal is None || principal == Some(hits[0].principal.unwrap()@))
            && lookup_metadata_view(hits, principal, scope) is Some ==> field_absent(
            lookup_metadata_view(hits, principal, scope).unwrap(),
            "top_principal"@,
        ),
        hits.len() > 0 && hits[0].scope is Some && scope != Some(hits[0].scope.unwrap()@)
            ==> lookup_metadata_view(hits, principal, scope) is Some && field_is(
            lookup_metadata_view(hits, principal, scope).unwrap(),
            "top_scope"@,
            ValueView::Text(hits[0].scope.unwrap()@),
        ),
        hits.len() > 0 && (hits[0].scope is None || scope == Some(hits[0].scope.unwrap()@))
            && lookup_metadata_view(hits, principal, scope) is Some ==> field_absent(
            lookup_metadata_view(hits, principal, scope).unwrap(),
            "top_scope"@,
        ),
{
    lemma_lookup_keys();
    let w = ValueView::Null;
    // Input summary.
    let base = seq![("query"@, ValueView::Text(query)), ("k"@, ValueView::UInt(k as u64))];
    assert(base[0].0 == "query"@ && base[1].0 == "k"@);
    let b1 = push_text(base, "principal"@, principal);
    lemma_push_text(base, "principal"@, principal, "query"@, ValueView::Text(query));
    lemma_push_text(base, "principal"@, principal, "k"@, ValueView::UInt(k as u64));
    lemma_push_text(base, "principal"@, principal, "scope"@, w);
    lemma_push_text(b1, "scope"@, scope, "query"@, ValueView::Text(query));
    lemma_push_text(b1, "scope"@, scope, "k"@, ValueView::UInt(k as u64));
    match principal {
        Some(p) => {
            lemma_push_text(b1, "scope"@, scope, "principal"@, ValueView::Text(p));
        },
        None => {
            lemma_push_text(b1, "scope"@, scope, "principal"@, w);
        },
    }
    // Output summary.
    let o0 = seq![("hit_count"@, ValueView::UInt(hits.len() as u64))];
    assert(o0[0].0 == "hit_count"@);
    if hits.len() > 0 {
        let top = hits[0];
        let o1 = if f32_finite(top.score) {
            o0.push(("top_score"@, ValueView::Float32(top.score)))
        } else {
            o0
        };
        if f32_finite(top.score) {
            lemma_field_push(o0, "top_score"@, ValueView::Float32(top.score), "hit_count"@, ValueView::UInt(hits.len() as u64));
            lemma_field_push(o0, "top_score"@, ValueView::Float32(top.score), "top_key"@, w);
            lemma_field_push(o0, "top_score"@, ValueView::Float32(top.score), "top_score"@, w);
        }
        lemma_push_text(o1, "top_key"@, opt_view(top.key), "hit_count"@, ValueView::UInt(hits.len() as u64));
        lemma_push_text(o1, "top_key"@, opt_view(top.key), "top_score"@, ValueView::Float32(top.score));
        lemma_push_text(o1, "top_key"@, opt_view(top.key), "top_score"@, w);
        lemma_push_text(o1, "top_key"@, opt_view(top.key), "top_key"@, w);
        // Metadata.
        let e = Seq::<(Seq<char>, ValueView)>::empty();
        let m0 = push_text(e, "source_uri"@, opt_view(top.source_uri));
        lemma_push_text(e, "source_uri"@, opt_view(top.source_uri), "recorded_at_millis"@, w);
        lemma_push_text(e, "source_uri"@, opt_view(top.source_uri), "top_principal"@, w);
        lemma_push_text(e, "source_uri"@, opt_view(top.source_uri), "top_scope"@, w);
        let m1 = match top.recorded_at_millis {
            Some(ms) => m0.push(("recorded_at_millis"@, ValueView::Int(ms))),
            None => m0,
        };
        match top.recorded_at_millis {
            Some(ms) => {
                lemma_field_push(m0, "recorded_at_millis"@, ValueView::Int(ms), "recorded_at_millis"@, w);
                match top.source_uri {
                    Some(u) => lemma_field_push(m0, "recorded_at_millis"@, ValueView::Int(ms), "source_uri"@, ValueView::Text(u@)),
                    None => {},
                }
                lemma_field_push(m0, "recorded_at_millis"@, ValueView::Int(ms), "top_principal"@, w);
                lemma_field_push(m0, "recorded_at_millis"@, ValueView::Int(ms), "top_scope"@, w);
            },
            None => {},
        }
        let tp = mismatch(opt_view(top.principal), principal);
        let m2 = push_text(m1, "top_principal"@, tp);
        match top.source_uri {
            Some(u) => lemma_push_text(m1, "top_principal"@, tp, "source_uri"@, ValueView::Text(u@)),
            None => {},
        }
        match top.recorded_at_millis {
            Some(ms) => lemma_push_text(m1, "top_principal"@, tp, "recorded_at_millis"@, ValueView::Int(ms)),
            None => {},
        }
        lemma_push_text(m1, "top_principal"@, tp, "top_scope"@, w);
        lemma_push_text(m1, "top_principal"@, tp, "top_principal"@, w);
        let ts = mismatch(opt_view(top.scope), scope);
        let m3 = push_text(m2, "top_scope"@, ts);
        match top.source_uri {
            Some(u) => lemma_push_text(m2, "top_scope"@, ts, "source_uri"@, ValueView::Text(u@)),
            None => {},
        }
        match top.recorded_at_millis {
            Some(ms) => lemma_push_text(m2, "top_scope"@, ts, "recorded_at_millis"@, ValueView::Int(ms)),
            None => {},
        }
        match tp {
            Some(pp) => lemma_push_text(m2, "top_scope"@, ts, "top_principal"@, ValueView::Text(pp)),
            None => lemma_push_text(m2, "top_scope"@, ts, "top_principal"@, w),
        }
        lemma_push_text(m2, "top_scope"@, ts, "top_scope"@, w);
        assert(lookup_metadata_fields(top, principal, scope) == m3);
        if top.principal is Some && principal != Some(top.principal.unwrap()@) {
            assert(tp == Some(top.principal.unwrap()@));
        }
        if top.scope is Some && scope != Some(top.scope.unwrap()@) {
            assert(ts == Some(top.scope.unwrap()@));
        }
    }
}

/// Append `(key, Text(v))` to `fields` when `v` is present.
fn push_opt_text(fields: &mut Vec<TraceField>, key: &str, v: &Option<String>)
    ensures
        fields_view(final(fields)@) == push_text(fields_view(old(fields)@), key@, opt_view(*v)),
{
    match v {
        Some(s) => {
            fields.push(field(key, TraceValue::Text(s.clone())));
            proof {
                assert(fields_view(fields@) =~= fields_view(old(fields)@).push((key@, ValueView::Text(s@))));
            }
        },
        None => {},
    }
}

/// `mine` unless the caller supplied the same value.
fn mismatched(mine: &Option<String>, theirs: Option<&str>) -> (m: Option<String>)
    ensures
        opt_view(m) == mismatch(opt_view(*mine), opt_str_view(theirs)),
{
    match mine {
        Some(v) => {
            let same = match theirs {
                Some(t) => str_equal(t, v.as_str()),
                None => false,
            };
            if same {
                None
            } else {
                Some(v.clone())
            }
        },
        None => None,
    }
}

/// Build the trace envelope of one `memory.lookup` invocation: the query,
/// `k` and caller context as input; the hit count and top match as output;
/// the `no_hits` reason when nothing matched; and, as metadata, the top
/// hit's provenance where it adds to what the caller supplied.
pub fn memory_lookup_trace_envelope(
    query: &str,
    k: usize,
    hits: &[MemoryLookupHit],
    principal: Option<&str>,
    scope: Option<&str>,
) -> (env: ResourceTraceEnvelope)
    ensures
        env.version == TRACE_ENVELOPE_VERSION,
        env.resource@ == "memory"@,
        env.operation@ == "lookup"@,
        env.trace_kind@ == "memory_lookup"@,
        summary_view(env.input_summary) == Some(
            lookup_input_view(query@, k, opt_str_view(principal), opt_str_view(scope)),
        ),
        summary_view(env.output_summary) == Some(lookup_output_view(hits@)),
        opt_view(env.reason) == if hits@.len() == 0 {
            Some(TRACE_REASON_NO_HITS@)
        } else {
            None::<Seq<char>>
        },
        summary_view(env.metadata) == lookup_metadata_view(
            hits@,
            opt_str_view(principal),
            opt_str_view(scope),
        ),
{
    let mut input: Vec<TraceField> = Vec::new();
    input.push(field("query", TraceValue::Text(query.to_owned())));
    input.push(field("k", TraceValue::UInt(k as u64)));
    let p_owned = match principal {
        Some(p) => Some(p.to_owned()),
        None => None,
    };
    let s_owned = match scope {
        Some(s) => Some(s.to_owned()),
        None => None,
    };
    proof {
        assert(fields_view(input@) =~= seq![("query"@, ValueView::Text(query@)), ("k"@, ValueView::UInt(k as u64))]);
        assert(opt_view(p_owned) == opt_str_view(principal));
        assert(opt_view(s_owned) == opt_str_view(scope));
    }
    push_opt_text(&mut input, "principal", &p_owned);
    push_opt_text(&mut input, "scope", &s_owned);

    let mut output: Vec<TraceField> = Vec::new();
    output.push(field("hit_count", TraceValue::UInt(hits.len() as u64)));
    proof {
        assert(fields_view(output@) =~= seq![("hit_count"@, ValueView::UInt(hits@.len() as u64))]);
    }
    if hits.len() > 0 {
        let top = &hits[0];
        if f32_bits_finite(top.score) {
            let ghost before = fields_view(output@);
            output.push(field("top_score", TraceValue::Float32(top.score)));
            proof {
                assert(fields_view(output@) =~= before.push(("top_score"@, ValueView::Float32(top.score))));
            }
        }
        push_opt_text(&mut output, "top_key", &top.key);
    }

    let mut env = ResourceTraceEnvelope::new("memory", "lookup", "memory_lookup")
        .with_input_summary(input)
        .with_output_summary(output);

    if hits.len() == 0 {
        env = env.with_reason(TRACE_REASON_NO_HITS);
    }

    if hits.len() > 0 {
        let top = &hits[0];
        let mut metadata: Vec<TraceField> = Vec::new();
        proof {
            assert(fields_view(metadata@) =~= Seq::<(Seq<char>, ValueView)>::empty());
        }
        push_opt_text(&mut metadata, "source_uri", &top.source_uri);
        match top.recorded_at_millis {
            Some(ms) => {
                let ghost before = fields_view(metadata@);
                metadata.push(field("recorded_at_millis", TraceValue::Int(ms)));
                proof {
                    assert(fields_view(metadata@) =~= before.push(("recorded_at_millis"@, ValueView::Int(ms))));
                }
            },
            None => {},
        }
        let top_principal = mismatched(&top.principal, principal);
        push_opt_text(&mut metadata, "top_principal", &top_principal);
        let top_scope = mismatched(&top.scope, scope);
        push_opt_text(&mut metadata, "top_scope", &top_scope);
        if metadata.len() > 0 {
            env = env.with_metadata(metadata);
        }
    }
    env
}

} // verus!
