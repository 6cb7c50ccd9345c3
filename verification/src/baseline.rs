//! Environmental baselines keyed by entity and metric.

use vstd::prelude::*;

use crate::bits::F64Bits;
use crate::text::str_equal;
use crate::trace::{
    field, field_absent, field_is, fields_view, opt_view, summary_view, ResourceTraceEnvelope, TraceField,
    TraceValue, ValueView, TRACE_ENVELOPE_VERSION,
};

verus! {

/// Reason emitted when no baseline existed for the requested `(entity, metric)` pair.
pub const TRACE_REASON_NOT_FOUND: &'static str = "baseline_not_found";
/// Reason emitted when the observation fell inside the `mean ± k·σ` bound.
pub const TRACE_REASON_WITHIN_BOUNDS: &'static str = "within_bounds";
/// Reason emitted when the observation fell outside the `mean ± k·σ` bound.
pub const TRACE_REASON_EXCEEDS_BOUNDS: &'static str = "exceeds_bounds";
/// Canonical name of the `baseline.compare` tool.
pub const BASELINE_COMPARE_TOOL_NAME: &'static str = "baseline.compare";

/// Errors returned by baseline stores.
#[derive(Debug)]
pub enum BaselineError {
    /// No baseline exists for an entity/metric pair.
    NotFound {
        /// Entity identifier used for lookup.
        entity: String,
        /// Metric identifier used for lookup.
        metric: String,
    },
}

/// A baseline seen as plain values.
pub struct BaselineModel {
    pub entity: Seq<char>,
    pub metric: Seq<char>,
    pub mean: F64Bits,
    pub std_dev: F64Bits,
    pub samples: u64,
}

/// Statistical envelope for one (entity, metric) pair.
#[derive(Debug)]
pub struct EntityBaseline {
    /// Entity identifier (host, user, service, etc.).
    pub entity: String,
    /// Metric name represented by this baseline.
    pub metric: String,
    /// Observed mean.
    pub mean: F64Bits,
    /// Sample standard deviation.
    pub std_dev: F64Bits,
    /// Number of observations used to build the baseline.
    pub samples: u64,
}

impl Clone for EntityBaseline {
    /// A field-by-field copy.
    fn clone(&self) -> (copy: Self)
        ensures
            copy.model() == self.model(),
    {
        EntityBaseline {
            entity: self.entity.clone(),
            metric: self.metric.clone(),
            mean: self.mean,
            std_dev: self.std_dev,
            samples: self.samples,
        }
    }
}

impl EntityBaseline {
    /// The baseline seen as plain values.
    pub open spec fn model(&self) -> BaselineModel {
        BaselineModel {
            entity: self.entity@,
            metric: self.metric@,
            mean: self.mean,
            std_dev: self.std_dev,
            samples: self.samples,
        }
    }
}

/// The `(entity, metric)` key of a baseline.
pub open spec fn key_of(b: BaselineModel) -> (Seq<char>, Seq<char>) {
    (b.entity, b.metric)
}

/// No two baselines share a key.
pub open spec fn keys_distinct(bs: Seq<BaselineModel>) -> bool {
    forall|i: int, j: int|
        0 <= i < bs.len() && 0 <= j < bs.len() && i != j ==> key_of(#[trigger] bs[i]) != key_of(#[trigger] bs[j])
}

/// Some baseline has key `k`.
pub open spec fn has_key(bs: Seq<BaselineModel>, k: (Seq<char>, Seq<char>)) -> bool {
    exists|i: int| 0 <= i < bs.len() && key_of(#[trigger] bs[i]) == k
}

/// The baselines as a map from key to baseline.
pub open spec fn as_map(bs: Seq<BaselineModel>) -> Map<(Seq<char>, Seq<char>), BaselineModel> {
    Map::new(
        |k: (Seq<char>, Seq<char>)| has_key(bs, k),
        |k: (Seq<char>, Seq<char>)| bs[choose|i: int| 0 <= i < bs.len() && key_of(#[trigger] bs[i]) == k],
    )
}

/// The map view after replacing entry `i`, whose key is that of `b`.
proof fn lemma_as_map_update(bs: Seq<BaselineModel>, i: int, b: BaselineModel)
    requires
        keys_distinct(bs),
        0 <= i < bs.len(),
        key_of(bs[i]) == key_of(b),
    ensures
        keys_distinct(bs.update(i, b)),
        as_map(bs.update(i, b)) == as_map(bs).insert(key_of(b), b),
{
    let u = bs.update(i, b);
    assert forall|a: int, c: int| 0 <= a < u.len() && 0 <= c < u.len() && a != c implies key_of(#[trigger] u[a]) != key_of(#[trigger] u[c]) by {
        assert(key_of(bs[a]) != key_of(bs[c]));
    }
    assert forall|k: (Seq<char>, Seq<char>)| #[trigger] has_key(u, k) <==> has_key(bs, k) || k == key_of(b) by {
        if has_key(bs, k) {
            let j = choose|j: int| 0 <= j < bs.len() && key_of(#[trigger] bs[j]) == k;
            if j == i {
                assert(key_of(u[i]) == k);
            } else {
                assert(key_of(u[j]) == k);
            }
        }
        if k == key_of(b) {
            assert(key_of(u[i]) == k);
        }
        if has_key(u, k) {
            let j = choose|j: int| 0 <= j < u.len() && key_of(#[trigger] u[j]) == k;
            if j != i {
                assert(key_of(bs[j]) == k);
            }
        }
    }
    assert forall|k: (Seq<char>, Seq<char>)| has_key(u, k) implies #[trigger] as_map(u)[k] == as_map(bs).insert(key_of(b), b)[k] by {
        let j = choose|j: int| 0 <= j < u.len() && key_of(#[trigger] u[j]) == k;
        if k == key_of(b) {
            if j != i {
                assert(key_of(u[j]) != key_of(u[i]));
            }
        } else {
            let m = choose|m: int| 0 <= m < bs.len() && key_of(#[trigger] bs[m]) == k;
            assert(j != i);
            assert(key_of(bs[j]) == k);
            if m != j {
                assert(key_of(bs[m]) != key_of(bs[j]));
            }
        }
    }
    assert(as_map(u) =~= as_map(bs).insert(key_of(b), b));
}

/// The map view after appending `b`, whose key is new.
proof fn lemma_as_map_push(bs: Seq<BaselineModel>, b: BaselineModel)
    requires
        keys_distinct(bs),
        !has_key(bs, key_of(b)),
    ensures
        keys_distinct(bs.push(b)),
        as_map(bs.push(b)) == as_map(bs).insert(key_of(b), b),
{
    let u = bs.push(b);
    let i = bs.len() as int;
    assert forall|a: int, c: int| 0 <= a < u.len() && 0 <= c < u.len() && a != c implies key_of(#[trigger] u[a]) != key_of(#[trigger] u[c]) by {
        if a < i && c < i {
            assert(key_of(bs[a]) != key_of(bs[c]));
        } else if a == i {
            assert(u[c] == bs[c]);
        } else {
            assert(u[a] == bs[a]);
        }
    }
    assert forall|k: (Seq<char>, Seq<char>)| #[trigger] has_key(u, k) <==> has_key(bs, k) || k == key_of(b) by {
        if has_key(bs, k) {
            let j = choose|j: int| 0 <= j < bs.len() && key_of(#[trigger] bs[j]) == k;
            assert(key_of(u[j]) == k);
        }
        if k == key_of(b) {
            assert(key_of(u[i]) == k);
        }
        if has_key(u, k) {
            let j = choose|j: int| 0 <= j < u.len() && key_of(#[trigger] u[j]) == k;
            if j != i {
                assert(key_of(bs[j]) == k);
            }
        }
    }
    assert forall|k: (Seq<char>, Seq<char>)| has_key(u, k) implies #[trigger] as_map(u)[k] == as_map(bs).insert(key_of(b), b)[k] by {
        let j = choose|j: int| 0 <= j < u.len() && key_of(#[trigger] u[j]) == k;
        if k == key_of(b) {
            if j != i {
                assert(key_of(bs[j]) == k);
            }
        } else {
            let m = choose|m: int| 0 <= m < bs.len() && key_of(#[trigger] bs[m]) == k;
            assert(j != i);
            assert(key_of(bs[j]) == k);
            if m != j {
                assert(key_of(bs[m]) != key_of(bs[j]));
            }
        }
    }
    assert(as_map(u) =~= as_map(bs).insert(key_of(b), b));
}

/// A duplicate-free list of baselines has as many keys as entries.
proof fn lemma_as_map_len(bs: Seq<BaselineModel>)
    requires
        keys_distinct(bs),
    ensures
        as_map(bs).dom().finite(),
        as_map(bs).dom().len() == bs.len(),
{
    let keys = bs.map_values(|b: BaselineModel| key_of(b));
    assert(as_map(bs).dom() =~= keys.to_set()) by {
        assert forall|k: (Seq<char>, Seq<char>)| as_map(bs).dom().contains(k) <==> keys.to_set().contains(k) by {
            if has_key(bs, k) {
                let j = choose|j: int| 0 <= j < bs.len() && key_of(#[trigger] bs[j]) == k;
                assert(keys[j] == k);
            }
            if keys.contains(k) {
                let j = choose|j: int| 0 <= j < keys.len() && keys[j] == k;
                assert(key_of(bs[j]) == k);
            }
        }
    }
    assert(keys.no_duplicates()) by {
        assert forall|a: int, c: int| 0 <= a < keys.len() && 0 <= c < keys.len() && a != c implies keys[a] != keys[c] by {
            assert(key_of(bs[a]) != key_of(bs[c]));
        }
    }
    keys.unique_seq_to_set();
}

/// In-memory baseline store holding at most one baseline per
/// `(entity, metric)` pair.
#[derive(Debug)]
pub struct InMemoryBaselineStore {
    entries: Vec<EntityBaseline>,
}

impl InMemoryBaselineStore {
    /// The stored baselines, in insertion order of their keys.
    pub closed spec fn baselines(&self) -> Seq<BaselineModel> {
        self.entries@.map_values(|b: EntityBaseline| b.model())
    }

    /// The stored baselines keyed by `(entity, metric)`.
    pub open spec fn contents(&self) -> Map<(Seq<char>, Seq<char>), BaselineModel> {
        as_map(self.baselines())
    }

    #[verifier::type_invariant]
    spec fn unique_keys(self) -> bool {
        keys_distinct(self.entries@.map_values(|b: EntityBaseline| b.model()))
    }

    /// Create an empty store.
    pub fn new() -> (store: InMemoryBaselineStore)
        ensures
            store.contents() == Map::<(Seq<char>, Seq<char>), BaselineModel>::empty(),
    {
        let store = InMemoryBaselineStore { entries: Vec::new() };
        proof {
            assert(store.contents() =~= Map::<(Seq<char>, Seq<char>), BaselineModel>::empty());
        }
        store
    }

    /// Position of the baseline for `(entity, metric)`, if stored.
    fn position(entries: &Vec<EntityBaseline>, entity: &str, metric: &str) -> (pos: Option<usize>)
        ensures
            match pos {
                Some(i) => i < entries@.len() && key_of(entries@[i as int].model()) == (entity@, metric@),
                None => !has_key(entries@.map_values(|b: EntityBaseline| b.model()), (entity@, metric@)),
            },
    {
        let ghost bs = entries@.map_values(|b: EntityBaseline| b.model());
        let mut i: usize = 0;
        while i < entries.len()
            invariant
                i <= entries@.len(),
                bs == entries@.map_values(|b: EntityBaseline| b.model()),
                forall|j: int| 0 <= j < i ==> key_of(#[trigger] bs[j]) != (entity@, metric@),
            decreases entries.len() - i,
        {
            if str_equal(entries[i].entity.as_str(), entity) && str_equal(entries[i].metric.as_str(), metric) {
                return Some(i);
            }
            proof {
                assert(bs[i as int] == entries@[i as int].model());
            }
            i = i + 1;
        }
        None
    }

    /// Insert or replace a baseline.
    pub fn put(&mut self, baseline: EntityBaseline)
        ensures
            final(self).contents() == old(self).contents().insert(key_of(baseline.model()), baseline.model()),
    {
        proof {
            use_type_invariant(&*self);
        }
        let mut v: Vec<EntityBaseline> = Vec::new();
        std::mem::swap(&mut v, &mut self.entries);
        let ghost bs = v@.map_values(|b: EntityBaseline| b.model());
        let ghost m = baseline.model();
        match Self::position(&v, baseline.entity.as_str(), baseline.metric.as_str()) {
            Some(i) => {
                proof {
                    assert(bs[i as int] == v@[i as int].model());
                    lemma_as_map_update(bs, i as int, m);
                }
                v.set(i, baseline);
                proof {
                    assert(v@.map_values(|b: EntityBaseline| b.model()) =~= bs.update(i as int, m));
                }
            },
            None => {
                proof {
                    lemma_as_map_push(bs, m);
                }
                v.push(baseline);
                proof {
                    assert(v@.map_values(|b: EntityBaseline| b.model()) =~= bs.push(m));
                }
            },
        }
        self.entries = v;
    }

    /// Fetch one baseline by entity and metric.
    pub fn get(&self, entity: &str, metric: &str) -> (res: Result<EntityBaseline, BaselineError>)
        ensures
            match res {
                Ok(b) => self.contents().contains_key((entity@, metric@)) && b.model() == self.contents()[(entity@, metric@)],
                Err(BaselineError::NotFound { entity: e, metric: m }) => !self.contents().contains_key((entity@, metric@))
                    && e@ == entity@ && m@ == metric@,
            },
    {
        proof {
            use_type_invariant(self);
        }
        let ghost bs = self.baselines();
        match Self::position(&self.entries, entity, metric) {
            Some(i) => {
                let b = self.entries[i].clone();
                proof {
                    let k = (entity@, metric@);
                    assert(bs[i as int] == self.entries@[i as int].model());
                    assert(has_key(bs, k));
                    let c = choose|j: int| 0 <= j < bs.len() && key_of(#[trigger] bs[j]) == k;
                    if c != i as int {
                        assert(key_of(bs[c]) != key_of(bs[i as int]));
                    }
                }
                Ok(b)
            },
            None => Err(BaselineError::NotFound { entity: entity.to_owned(), metric: metric.to_owned() }),
        }
    }

    /// Return `true` when a baseline exists for entity and metric.
    pub fn contains(&self, entity: &str, metric: &str) -> (found: bool)
        ensures
            found == self.contents().contains_key((entity@, metric@)),
    {
        let ghost bs = self.baselines();
        match Self::position(&self.entries, entity, metric) {
            Some(i) => {
                proof {
                    assert(bs[i as int] == self.entries@[i as int].model());
                }
                true
            },
            None => false,
        }
    }

    /// Number of baselines stored.
    pub fn len(&self) -> (n: usize)
        ensures
            n == self.contents().len(),
    {
        proof {
            use_type_invariant(self);
            lemma_as_map_len(self.baselines());
        }
        self.entries.len()
    }

    /// Whether the store contains no baselines.
    pub fn is_empty(&self) -> (e: bool)
        ensures
            e == (self.contents().len() == 0),
    {
        proof {
            use_type_invariant(self);
            lemma_as_map_len(self.baselines());
        }
        self.entries.len() == 0
    }
}

/// The floating-point outcome of comparing an observation with a baseline,
/// computed by the caller: whether it fell within `mean ± k·σ`, the bound
/// `max(k·σ, ε)`, the absolute deviation from the mean, and the signed
/// z-score when the standard deviation is non-zero and the score finite.
#[derive(Debug, Clone, Copy)]
pub struct BaselineComparison {
    /// The observation lies within the bound.
    pub within: bool,
    /// `max(k * std_dev, f64::EPSILON)`.
    pub bound: F64Bits,
    /// `|observed - mean|`.
    pub deviation: F64Bits,
    /// `(observed - mean) / std_dev`, when defined.
    pub z_score: Option<F64Bits>,
}

/// Input summary of a comparison envelope.
pub open spec fn compare_input_view(entity: Seq<char>, metric: Seq<char>, observed: F64Bits, k: F64Bits) -> Seq<
    (Seq<char>, ValueView),
> {
    seq![
        ("entity"@, ValueView::Text(entity)),
        ("metric"@, ValueView::Text(metric)),
        ("observed_value"@, ValueView::Float64(observed)),
        ("k"@, ValueView::Float64(k)),
    ]
}

/// Output summary of a comparison against baseline `b`.
pub open spec fn compare_output_view(b: BaselineModel, c: BaselineComparison) -> Seq<(Seq<char>, ValueView)> {
    seq![
        ("available"@, ValueView::Bool(true)),
        ("within"@, ValueView::Bool(c.within)),
        ("mean"@, ValueView::Float64(b.mean)),
        ("std_dev"@, ValueView::Float64(b.std_dev)),
        ("bound"@, ValueView::Float64(c.bound)),
        ("deviation"@, ValueView::Float64(c.deviation)),
    ]
}

/// Metadata of a comparison against baseline `b`: its sample count and the
/// z-score when defined.
pub open spec fn compare_metadata_view(b: BaselineModel, c: BaselineComparison) -> Seq<(Seq<char>, ValueView)> {
    let base = seq![("samples"@, ValueView::UInt(b.samples))];
    match c.z_score {
        Some(z) => base.push(("z_score"@, ValueView::Float64(z))),
        None => base,
    }
}

/// Build the trace envelope of one `baseline.compare` evaluation. Without a
/// baseline the comparison is not available (`baseline_not_found`); with
/// one, the envelope carries the baseline's statistics and the caller's
/// comparison, and the reason says whether the observation fell within the
/// bound.
pub fn baseline_compare_trace_envelope(
    entity: &str,
    metric: &str,
    observed: F64Bits,
    k: F64Bits,
    compared: Option<(&EntityBaseline, BaselineComparison)>,
) -> (env: ResourceTraceEnvelope)
    ensures
        env.version == TRACE_ENVELOPE_VERSION,
        env.resource@ == "baseline"@,
        env.operation@ == "compare"@,
        env.trace_kind@ == "baseline_compare"@,
        summary_view(env.input_summary) == Some(compare_input_view(entity@, metric@, observed, k)),
        match compared {
            None => {
                &&& summary_view(env.output_summary) == Some(
                    seq![("available"@, ValueView::Bool(false)), ("within"@, ValueView::Bool(false))],
                )
                &&& opt_view(env.reason) == Some(TRACE_REASON_NOT_FOUND@)
                &&& env.metadata is None
            },
            Some((b, c)) => {
                &&& summary_view(env.output_summary) == Some(compare_output_view(b.model(), c))
                &&& opt_view(env.reason) == Some(
                    if c.within {
                        TRACE_REASON_WITHIN_BOUNDS@
                    } else {
                        TRACE_REASON_EXCEEDS_BOUNDS@
                    },
                )
                &&& summary_view(env.metadata) == Some(compare_metadata_view(b.model(), c))
            },
        },
{
    let mut input: Vec<TraceField> = Vec::new();
    input.push(field("entity", TraceValue::Text(entity.to_owned())));
    input.push(field("metric", TraceValue::Text(metric.to_owned())));
    input.push(field("observed_value", TraceValue::Float64(observed)));
    input.push(field("k", TraceValue::Float64(k)));
    proof {
        assert(fields_view(input@) =~= compare_input_view(entity@, metric@, observed, k));
    }
    let env = ResourceTraceEnvelope::new("baseline", "compare", "baseline_compare").with_input_summary(input);
    match compared {
        None => {
            let mut output: Vec<TraceField> = Vec::new();
            output.push(field("available", TraceValue::Bool(false)));
            output.push(field("within", TraceValue::Bool(false)));
            proof {
                assert(fields_view(output@) =~= seq![("available"@, ValueView::Bool(false)), ("within"@, ValueView::Bool(false))]);
            }
            env.with_output_summary(output).with_reason(TRACE_REASON_NOT_FOUND)
        },
        Some((b, c)) => {
            let mut output: Vec<TraceField> = Vec::new();
            output.push(field("available", TraceValue::Bool(true)));
            output.push(field("within", TraceValue::Bool(c.within)));
            output.push(field("mean", TraceValue::Float64(b.mean)));
            output.push(field("std_dev", TraceValue::Float64(b.std_dev)));
            output.push(field("bound", TraceValue::Float64(c.bound)));
            output.push(field("deviation", TraceValue::Float64(c.deviation)));
            proof {
                assert(fields_view(output@) =~= compare_output_view(b.model(), c));
            }
            let reason = if c.within {
                TRACE_REASON_WITHIN_BOUNDS
            } else {
                TRACE_REASON_EXCEEDS_BOUNDS
            };
            let mut metadata: Vec<TraceField> = Vec::new();
            metadata.push(field("samples", TraceValue::UInt(b.samples)));
            let ghost base = fields_view(metadata@);
            match c.z_score {
                Some(z) => {
                    metadata.push(field("z_score", TraceValue::Float64(z)));
                    proof {
                        assert(fields_view(metadata@) =~= base.push(("z_score"@, ValueView::Float64(z))));
                    }
                },
                None => {},
            }
            proof {
                assert(fields_view(metadata@) =~= compare_metadata_view(b.model(), c));
            }
            env.with_output_summary(output).with_reason(reason).with_metadata(metadata)
        },
    }
}

/// What a comparison envelope reports, field by field: the entity, metric,
/// observation and `k` it was asked about; for a baseline `b` compared as
/// `c`, that a baseline is available, whether the observation is within
/// the bound, the baseline's mean and standard deviation, the bound and
/// the deviation, and as metadata the baseline's sample count and the
/// z-score exactly when there is one.
pub proof fn law_compare_fields(
    entity: Seq<char>,
    metric: Seq<char>,
    observed: F64Bits,
    k: F64Bits,
    b: BaselineModel,
    c: BaselineComparison,
)
    ensures
        field_is(compare_input_view(entity, metric, observed, k), "entity"@, ValueView::Text(entity)),
        field_is(compare_input_view(entity, metric, observed, k), "metric"@, ValueView::Text(metric)),
        field_is(compare_input_view(entity, metric, observed, k), "observed_value"@, ValueView::Float64(observed)),
        field_is(compare_input_view(entity, metric, observed, k), "k"@, ValueView::Float64(k)),
        field_is(compare_output_view(b, c), "available"@, ValueView::Bool(true)),
        field_is(compare_output_view(b, c), "within"@, ValueView::Bool(c.within)),
        field_is(compare_output_view(b, c), "mean"@, ValueView::Float64(b.mean)),
        field_is(compare_output_view(b, c), "std_dev"@, ValueView::Float64(b.std_dev)),
        field_is(compare_output_view(b, c), "bound"@, ValueView::Float64(c.bound)),
        field_is(compare_output_view(b, c), "deviation"@, ValueView::Float64(c.deviation)),
        field_is(compare_metadata_view(b, c), "samples"@, ValueView::UInt(b.samples)),
        match c.z_score {
            Some(z) => field_is(compare_metadata_view(b, c), "z_score"@, ValueView::Float64(z)),
            None => field_absent(compare_metadata_view(b, c), "z_score"@),
        },
{
    reveal_strlit("entity");
    reveal_strlit("metric");
    reveal_strlit("observed_value");
    reveal_strlit("k");
    reveal_strlit("available");
    reveal_strlit("within");
    reveal_strlit("mean");
    reveal_strlit("std_dev");
    reveal_strlit("bound");
    reveal_strlit("deviation");
    reveal_strlit("samples");
    reveal_strlit("z_score");
    let inp = compare_input_view(entity, metric, observed, k);
    assert(inp[0] == ("entity"@, ValueView::Text(entity)));
    assert(inp[1] == ("metric"@, ValueView::Text(metric)));
    assert(inp[2] == ("observed_value"@, ValueView::Float64(observed)));
    assert(inp[3] == ("k"@, ValueView::Float64(k)));
    assert("entity"@.len() == 6 && "entity"@[0] == 'e');
    assert("metric"@.len() == 6 && "metric"@[0] == 'm');
    assert("observed_value"@.len() == 14);
    assert("k"@.len() == 1);
    assert("available"@.len() == 9 && "available"@[0] == 'a');
    assert("within"@.len() == 6);
    assert("mean"@.len() == 4);
    assert("std_dev"@.len() == 7 && "std_dev"@[0] == 's');
    assert("bound"@.len() == 5);
    assert("deviation"@.len() == 9 && "deviation"@[0] == 'd');
    assert("samples"@.len() == 7 && "samples"@[0] == 's');
    assert("z_score"@.len() == 7 && "z_score"@[0] == 'z');
    let out = compare_output_view(b, c);
    assert(out[0] == ("available"@, ValueView::Bool(true)));
    assert(out[1] == ("within"@, ValueView::Bool(c.within)));
    assert(out[2] == ("mean"@, ValueView::Float64(b.mean)));
    assert(out[3] == ("std_dev"@, ValueView::Float64(b.std_dev)));
    assert(out[4] == ("bound"@, ValueView::Float64(c.bound)));
    assert(out[5] == ("deviation"@, ValueView::Float64(c.deviation)));
    let meta = compare_metadata_view(b, c);
    assert(meta[0] == ("samples"@, ValueView::UInt(b.samples)));
    match c.z_score {
        Some(z) => {
            assert(meta[1] == ("z_score"@, ValueView::Float64(z)));
        },
        None => {},
    }
}

/// A read gives back the last write: when `after` is `before` with
/// baseline `b` put into it (what [`InMemoryBaselineStore::put`] ensures),
/// `get` of `b`'s key finds `b`, the store holds that key, and every other
/// key reads as before.
pub proof fn law_get_after_put(
    before: InMemoryBaselineStore,
    after: InMemoryBaselineStore,
    b: BaselineModel,
    k: (Seq<char>, Seq<char>),
)
    requires
        after.contents() == before.contents().insert(key_of(b), b),
    ensures
        after.contents().contains_key(key_of(b)),
        after.contents()[key_of(b)] == b,
        k != key_of(b) ==> (after.contents().contains_key(k) == before.contents().contains_key(k)),
        k != key_of(b) && before.contents().contains_key(k) ==> after.contents()[k] == before.contents()[k],
{
}

} // verus!
