//! Domain-neutral behavioural pattern primitives.

use vstd::prelude::*;

use crate::bits::F32Bits;
use crate::text::{clone_strings, concat2, contains_str, str_equal};

verus! {

/// Stable identifier of the behaviour-pattern skill.
pub const BEHAVIOR_PATTERN_SKILL_ID: &'static str = "knowledge.behavior_pattern";

/// Stable identifier for a behavior pattern.
pub type PatternId = String;

/// The characters of each string of a list.
pub open spec fn strs(v: Seq<String>) -> Seq<Seq<char>> {
    v.map_values(|s: String| s@)
}

/// Every signal of `required` is present in `signals` and none of
/// `forbidden` is.
pub open spec fn rule_matches(
    required: Seq<Seq<char>>,
    forbidden: Seq<Seq<char>>,
    signals: Seq<Seq<char>>,
) -> bool {
    &&& forall|i: int| 0 <= i < required.len() ==> signals.contains(#[trigger] required[i])
    &&& forall|i: int| 0 <= i < forbidden.len() ==> !signals.contains(#[trigger] forbidden[i])
}

/// A rule matches exactly when every required signal is present and no
/// forbidden signal is: a present forbidden signal blocks it, a missing
/// required signal blocks it, and adding signals that are not forbidden
/// never undoes a match.
pub proof fn law_rule_matching(
    required: Seq<Seq<char>>,
    forbidden: Seq<Seq<char>>,
    signals: Seq<Seq<char>>,
    extra: Seq<Seq<char>>,
)
    ensures
        rule_matches(required, forbidden, signals) <==> ((forall|x: Seq<char>|
            #[trigger] required.contains(x) ==> signals.contains(x)) && (forall|x: Seq<char>|
            #[trigger] forbidden.contains(x) ==> !signals.contains(x))),
        rule_matches(required, forbidden, signals) && (forall|x: Seq<char>|
            #[trigger] extra.contains(x) ==> !forbidden.contains(x)) ==> rule_matches(
            required,
            forbidden,
            signals + extra,
        ),
{
    if rule_matches(required, forbidden, signals) {
        assert forall|x: Seq<char>| #[trigger] required.contains(x) implies signals.contains(x) by {
            let i = choose|i: int| 0 <= i < required.len() && required[i] == x;
        }
        assert forall|x: Seq<char>| #[trigger] forbidden.contains(x) implies !signals.contains(x) by {
            let i = choose|i: int| 0 <= i < forbidden.len() && forbidden[i] == x;
        }
        if forall|x: Seq<char>| #[trigger] extra.contains(x) ==> !forbidden.contains(x) {
            let all = signals + extra;
            assert forall|i: int| 0 <= i < required.len() implies all.contains(#[trigger] required[i]) by {
                let j = choose|j: int| 0 <= j < signals.len() && signals[j] == required[i];
                assert(all[j] == required[i]);
            }
            assert forall|i: int| 0 <= i < forbidden.len() implies !all.contains(#[trigger] forbidden[i]) by {
                if all.contains(forbidden[i]) {
                    let j = choose|j: int| 0 <= j < all.len() && all[j] == forbidden[i];
                    assert(forbidden.contains(forbidden[i]));
                    if j < signals.len() {
                        assert(signals[j] == forbidden[i]);
                    } else {
                        assert(extra[j - signals.len()] == forbidden[i]);
                        assert(extra.contains(forbidden[i]));
                    }
                }
            }
        }
    }
    if (forall|x: Seq<char>| #[trigger] required.contains(x) ==> signals.contains(x)) && (forall|x: Seq<char>|
        #[trigger] forbidden.contains(x) ==> !signals.contains(x)) {
        assert forall|i: int| 0 <= i < required.len() implies signals.contains(#[trigger] required[i]) by {
            assert(required.contains(required[i]));
        }
        assert forall|i: int| 0 <= i < forbidden.len() implies !signals.contains(#[trigger] forbidden[i]) by {
            assert(forbidden.contains(forbidden[i]));
        }
    }
}

/// One rule clause: every signal in `required` must be present, and none
/// of the signals in `forbidden` may be present.
#[derive(Debug, Default)]
pub struct PatternRule {
    /// Signals that must be present for the rule to match.
    pub required: Vec<String>,
    /// Signals that must be absent for the rule to match.
    pub forbidden: Vec<String>,
}

impl Clone for PatternRule {
    /// A copy of both signal lists.
    fn clone(&self) -> (copy: Self)
        ensures
            copy.required@ == self.required@,
            copy.forbidden@ == self.forbidden@,
    {
        PatternRule { required: clone_strings(&self.required), forbidden: clone_strings(&self.forbidden) }
    }
}

impl PatternRule {
    /// The rule matches the given signals.
    pub open spec fn matches_signals(&self, signals: Seq<Seq<char>>) -> bool {
        rule_matches(strs(self.required@), strs(self.forbidden@), signals)
    }

    /// Return `true` when `signals` holds every required signal and none of
    /// the forbidden ones.
    pub fn matches(&self, signals: &Vec<String>) -> (m: bool)
        ensures
            m == self.matches_signals(strs(signals@)),
    {
        let mut i: usize = 0;
        while i < self.required.len()
            invariant
                i <= self.required@.len(),
                forall|j: int| 0 <= j < i ==> strs(signals@).contains(#[trigger] strs(self.required@)[j]),
            decreases self.required.len() - i,
        {
            if !contains_str(signals, self.required[i].as_str()) {
                proof {
                    assert(!strs(signals@).contains(strs(self.required@)[i as int]));
                }
                return false;
            }
            i = i + 1;
        }
        let mut k: usize = 0;
        while k < self.forbidden.len()
            invariant
                k <= self.forbidden@.len(),
                forall|j: int| 0 <= j < self.required@.len() ==> strs(signals@).contains(#[trigger] strs(self.required@)[j]),
                forall|j: int| 0 <= j < k ==> !strs(signals@).contains(#[trigger] strs(self.forbidden@)[j]),
            decreases self.forbidden.len() - k,
        {
            if contains_str(signals, self.forbidden[k].as_str()) {
                proof {
                    assert(strs(signals@).contains(strs(self.forbidden@)[k as int]));
                }
                return false;
            }
            k = k + 1;
        }
        true
    }
}

/// A behaviour pattern seen as plain values.
pub struct PatternModel {
    pub id: Seq<char>,
    pub version: u32,
    pub description: Seq<char>,
    pub required: Seq<Seq<char>>,
    pub forbidden: Seq<Seq<char>>,
    pub confidence_delta: F32Bits,
    pub conclude: bool,
}

/// One immutable behaviour pattern.
#[derive(Debug)]
pub struct BehaviorPattern {
    /// Stable pattern identifier.
    pub id: PatternId,
    /// Monotonic pattern version; higher versions replace older registry entries.
    pub version: u32,
    /// Human-readable pattern description.
    pub description: String,
    /// Signal rule used to match investigations.
    pub rule: PatternRule,
    /// Confidence delta applied when the pattern matches.
    pub confidence_delta: F32Bits,
    /// Whether a match should request conclusion of the investigation loop.
    pub conclude: bool,
}

impl Clone for BehaviorPattern {
    /// A field-by-field copy.
    fn clone(&self) -> (copy: Self)
        ensures
            copy.model() == self.model(),
    {
        BehaviorPattern {
            id: self.id.clone(),
            version: self.version,
            description: self.description.clone(),
            rule: self.rule.clone(),
            confidence_delta: self.confidence_delta,
            conclude: self.conclude,
        }
    }
}

impl BehaviorPattern {
    /// The pattern seen as plain values.
    pub open spec fn model(&self) -> PatternModel {
        PatternModel {
            id: self.id@,
            version: self.version,
            description: self.description@,
            required: strs(self.rule.required@),
            forbidden: strs(self.rule.forbidden@),
            confidence_delta: self.confidence_delta,
            conclude: self.conclude,
        }
    }

    /// Build a behavior pattern with an empty description.
    pub fn new(id: &str, version: u32, rule: PatternRule, delta: F32Bits) -> (p: BehaviorPattern)
        ensures
            p.id@ == id@,
            p.version == version,
            p.description@ == Seq::<char>::empty(),
            p.rule == rule,
            p.confidence_delta == delta,
            !p.conclude,
    {
        BehaviorPattern {
            id: id.to_owned(),
            version,
            description: String::new(),
            rule,
            confidence_delta: delta,
            conclude: false,
        }
    }

    /// Attach a human-readable description.
    pub fn with_description(self, description: &str) -> (p: BehaviorPattern)
        ensures
            p.description@ == description@,
            p.id == self.id,
            p.version == self.version,
            p.rule == self.rule,
            p.confidence_delta == self.confidence_delta,
            p.conclude == self.conclude,
    {
        BehaviorPattern { description: description.to_owned(), ..self }
    }

    /// Mark this pattern as requesting a conclude action on match.
    pub fn concluding(self) -> (p: BehaviorPattern)
        ensures
            p.conclude,
            p.id == self.id,
            p.version == self.version,
            p.description == self.description,
            p.rule == self.rule,
            p.confidence_delta == self.confidence_delta,
    {
        BehaviorPattern { conclude: true, ..self }
    }

    /// Label of the evidence recorded when this pattern matches:
    /// `pattern:{id}`.
    pub fn evidence_label(&self) -> (label: String)
        ensures
            label@ == "pattern:"@ + self.id@,
    {
        concat2("pattern:", self.id.as_str())
    }
}

/// No two patterns share an id.
pub open spec fn ids_distinct(ps: Seq<PatternModel>) -> bool {
    forall|i: int, j: int| 0 <= i < ps.len() && 0 <= j < ps.len() && i != j ==> (#[trigger] ps[i]).id != (#[trigger] ps[j]).id
}

/// Some stored pattern has id `id`.
pub open spec fn has_id(ps: Seq<PatternModel>, id: Seq<char>) -> bool {
    exists|i: int| 0 <= i < ps.len() && (#[trigger] ps[i]).id == id
}

/// The position of the pattern with id `id`.
pub open spec fn position_of(ps: Seq<PatternModel>, id: Seq<char>) -> int {
    choose|i: int| 0 <= i < ps.len() && (#[trigger] ps[i]).id == id
}

/// The registry after registering `p`: a pattern with the same id is
/// replaced when `p`'s version is at least the stored one (and kept
/// otherwise); a new id is appended.
pub open spec fn register_model(ps: Seq<PatternModel>, p: PatternModel) -> Seq<PatternModel> {
    if has_id(ps, p.id) {
        let i = position_of(ps, p.id);
        if p.version >= ps[i].version {
            ps.update(i, p)
        } else {
            ps
        }
    } else {
        ps.push(p)
    }
}

/// The registry after registering each of `new` in order.
pub open spec fn extend_model(ps: Seq<PatternModel>, new: Seq<PatternModel>) -> Seq<PatternModel>
    decreases new.len(),
{
    if new.len() == 0 {
        ps
    } else {
        register_model(extend_model(ps, new.drop_last()), new.last())
    }
}

/// Registering keeps the highest version per id: afterwards ids are still
/// distinct, exactly one pattern carries the registered id, its version is
/// the larger of the stored and the registered one, a new id adds one
/// pattern at the end, and every pattern with another id is unchanged in
/// place. The pattern kept under the id is the registered one in full
/// (rule, description, delta, conclusion) when its version is at least the
/// stored one, and the stored one in full otherwise.
pub proof fn law_register_keeps_highest_version(ps: Seq<PatternModel>, p: PatternModel)
    requires
        ids_distinct(ps),
    ensures
        ids_distinct(register_model(ps, p)),
        has_id(register_model(ps, p), p.id),
        register_model(ps, p)[position_of(register_model(ps, p), p.id)].version == if has_id(ps, p.id) {
            if p.version >= ps[position_of(ps, p.id)].version {
                p.version
            } else {
                ps[position_of(ps, p.id)].version
            }
        } else {
            p.version
        },
        register_model(ps, p).len() == if has_id(ps, p.id) {
            ps.len()
        } else {
            ps.len() + 1
        },
        forall|j: int| 0 <= j < ps.len() && ps[j].id != p.id ==> #[trigger] register_model(ps, p)[j] == ps[j],
        !has_id(ps, p.id) || p.version >= ps[position_of(ps, p.id)].version ==> register_model(ps, p)[position_of(
            register_model(ps, p),
            p.id,
        )] == p,
        has_id(ps, p.id) && p.version < ps[position_of(ps, p.id)].version ==> register_model(ps, p)[position_of(
            register_model(ps, p),
            p.id,
        )] == ps[position_of(ps, p.id)],
{
    let r = register_model(ps, p);
    if has_id(ps, p.id) {
        let i = position_of(ps, p.id);
        assert(r[i].id == p.id);
        let c = position_of(r, p.id);
        if c != i {
            assert(ps[c].id != ps[i].id);
        }
        assert forall|a: int, b: int| 0 <= a < r.len() && 0 <= b < r.len() && a != b implies (#[trigger] r[a]).id != (#[trigger] r[b]).id by {
            assert(ps[a].id != ps[b].id);
        }
    } else {
        let i = ps.len() as int;
        assert(r[i].id == p.id);
        let c = position_of(r, p.id);
        if c != i {
            assert(r[c] == ps[c]);
        }
        assert forall|a: int, b: int| 0 <= a < r.len() && 0 <= b < r.len() && a != b implies (#[trigger] r[a]).id != (#[trigger] r[b]).id by {
            if a < ps.len() && b < ps.len() {
                assert(ps[a].id != ps[b].id);
            } else if a == ps.len() {
                assert(r[b] == ps[b]);
            } else {
                assert(r[a] == ps[a]);
            }
        }
    }
}

/// Registering the same pattern twice has the effect of registering it once.
pub proof fn law_register_idempotent(ps: Seq<PatternModel>, p: PatternModel)
    requires
        ids_distinct(ps),
    ensures
        register_model(register_model(ps, p), p) == register_model(ps, p),
{
    law_register_keeps_highest_version(ps, p);
    let r = register_model(ps, p);
    let c = position_of(r, p.id);
    if has_id(ps, p.id) && p.version < ps[position_of(ps, p.id)].version {
        assert(r == ps);
    } else {
        if has_id(ps, p.id) {
            let i = position_of(ps, p.id);
            assert(r[i] == p);
            if c != i {
                assert(r[c].id != r[i].id);
            }
        } else {
            let i = ps.len() as int;
            assert(r[i] == p);
            if c != i {
                assert(r[c].id != r[i].id);
            }
        }
        assert(r[c] == p);
        assert(register_model(r, p) =~= r.update(c, p));
        assert(r.update(c, p) =~= r);
    }
}

/// Versioned registry of behaviour patterns that keeps the highest-version
/// pattern per id, in registration order.
#[derive(Debug)]
pub struct BehaviorRegistry {
    patterns: Vec<BehaviorPattern>,
}

impl BehaviorRegistry {
    /// The registered patterns, in registry order.
    pub closed spec fn models(&self) -> Seq<PatternModel> {
        self.patterns@.map_values(|p: BehaviorPattern| p.model())
    }

    #[verifier::type_invariant]
    spec fn unique_ids(self) -> bool {
        ids_distinct(self.patterns@.map_values(|p: BehaviorPattern| p.model()))
    }

    /// Create an empty behavior-pattern registry.
    pub fn new() -> (r: BehaviorRegistry)
        ensures
            r.models() == Seq::<PatternModel>::empty(),
    {
        let r = BehaviorRegistry { patterns: Vec::new() };
        proof {
            assert(r.patterns@.map_values(|p: BehaviorPattern| p.model()) =~= Seq::<PatternModel>::empty());
        }
        r
    }

    /// Register a pattern, replacing an existing pattern with the same id
    /// when the new version is greater than or equal to the stored version.
    pub fn register(&mut self, pattern: BehaviorPattern)
        ensures
            final(self).models() == register_model(old(self).models(), pattern.model()),
            ids_distinct(final(self).models()),
    {
        proof {
            use_type_invariant(&*self);
        }
        let mut v: Vec<BehaviorPattern> = Vec::new();
        std::mem::swap(&mut v, &mut self.patterns);
        let ghost ps = v@.map_values(|p: BehaviorPattern| p.model());
        let ghost m = pattern.model();
        assert(ps == old(self).models());
        let mut i: usize = 0;
        let mut found: Option<usize> = None;
        while i < v.len()
            invariant_except_break
                found is None,
            invariant
                i <= v@.len(),
                ps == v@.map_values(|p: BehaviorPattern| p.model()),
                m == pattern.model(),
                ids_distinct(ps),
                forall|j: int| 0 <= j < i ==> ps[j].id != m.id,
            ensures
                found matches Some(k) ==> k < v@.len() && ps[k as int].id == m.id,
                found is None ==> !has_id(ps, m.id),
            decreases v.len() - i,
        {
            proof {
                assert(ps[i as int] == v@[i as int].model());
            }
            if str_equal(v[i].id.as_str(), pattern.id.as_str()) {
                found = Some(i);
                break;
            }
            i = i + 1;
        }
        match found {
            Some(k) => {
                proof {
                    assert(has_id(ps, m.id));
                    let c = position_of(ps, m.id);
                    if c != k as int {
                        assert(ps[c].id != ps[k as int].id);
                    }
                    assert(c == k as int);
                    assert(ps[k as int] == v@[k as int].model());
                }
                if pattern.version >= v[k].version {
                    v.set(k, pattern);
                    proof {
                        let after = v@.map_values(|p: BehaviorPattern| p.model());
                        assert(after =~= ps.update(k as int, m));
                        assert forall|a: int, b: int| 0 <= a < after.len() && 0 <= b < after.len() && a != b implies (#[trigger] after[a]).id != (#[trigger] after[b]).id by {
                            assert(ps[a].id != ps[b].id);
                        }
                    }
                }
            },
            None => {
                v.push(pattern);
                proof {
                    let after = v@.map_values(|p: BehaviorPattern| p.model());
                    assert(after =~= ps.push(m));
                    assert forall|a: int, b: int| 0 <= a < after.len() && 0 <= b < after.len() && a != b implies (#[trigger] after[a]).id != (#[trigger] after[b]).id by {
                        if a < ps.len() && b < ps.len() {
                            assert(ps[a].id != ps[b].id);
                        } else if a == ps.len() {
                            assert(after[b] == ps[b]);
                        } else {
                            assert(after[a] == ps[a]);
                        }
                    }
                }
            },
        }
        self.patterns = v;
    }

    /// Register every pattern from `patterns`, in order.
    pub fn extend(&mut self, patterns: Vec<BehaviorPattern>)
        ensures
            final(self).models() == extend_model(
                old(self).models(),
                patterns@.map_values(|p: BehaviorPattern| p.model()),
            ),
            ids_distinct(final(self).models()),
    {
        proof {
            use_type_invariant(&*self);
        }
        let ghost start = self.models();
        let ghost new = patterns@.map_values(|p: BehaviorPattern| p.model());
        let mut rest = patterns;
        let total = rest.len();
        let mut done: usize = 0;
        let ghost all = rest@;
        while rest.len() > 0
            invariant
                all.map_values(|p: BehaviorPattern| p.model()) == new,
                total == all.len(),
                done + rest@.len() == all.len(),
                rest@ == all.subrange(all.len() - rest@.len(), all.len() as int),
                self.models() == extend_model(start, new.take(done as int)),
                ids_distinct(self.models()),
            decreases rest.len(),
        {
            let p = rest.remove(0);
            proof {
                assert(p == all[done as int]);
                assert(new.take(done + 1).drop_last() =~= new.take(done as int));
                assert(new.take(done + 1).last() == p.model());
                assert(rest@ =~= all.subrange(all.len() - rest@.len(), all.len() as int));
            }
            self.register(p);
            done = done + 1;
        }
        proof {
            assert(new.take(done as int) =~= new);
        }
    }

    /// Number of patterns currently registered.
    pub fn len(&self) -> (n: usize)
        ensures
            n == self.models().len(),
    {
        self.patterns.len()
    }

    /// Whether the registry is empty.
    pub fn is_empty(&self) -> (e: bool)
        ensures
            e == (self.models().len() == 0),
    {
        self.patterns.len() == 0
    }

    /// Copies of all registered patterns, in registry order.
    pub fn snapshot(&self) -> (s: Vec<BehaviorPattern>)
        ensures
            s@.map_values(|p: BehaviorPattern| p.model()) == self.models(),
    {
        let mut s: Vec<BehaviorPattern> = Vec::new();
        let mut i: usize = 0;
        while i < self.patterns.len()
            invariant
                i <= self.patterns@.len(),
                s@.map_values(|p: BehaviorPattern| p.model()) == self.models().take(i as int),
            decreases self.patterns.len() - i,
        {
            let c = self.patterns[i].clone();
            let ghost before = s@.map_values(|p: BehaviorPattern| p.model());
            proof {
                assert(c.model() == self.patterns@[i as int].model());
                assert(self.models()[i as int] == c.model());
                assert(self.models().take(i + 1) =~= self.models().take(i as int).push(c.model()));
            }
            s.push(c);
            proof {
                assert(s@.map_values(|p: BehaviorPattern| p.model()) =~= before.push(c.model()));
            }
            i = i + 1;
        }
        proof {
            assert(self.models().take(self.models().len() as int) =~= self.models());
        }
        s
    }

    /// Copies of the registered patterns whose rule matches `signals`, in
    /// registry order.
    pub fn matching(&self, signals: &Vec<String>) -> (m: Vec<BehaviorPattern>)
        ensures
            m@.map_values(|p: BehaviorPattern| p.model()) == self.models().filter(
                |p: PatternModel| rule_matches(p.required, p.forbidden, strs(signals@)),
            ),
    {
        let ghost pred = |p: PatternModel| rule_matches(p.required, p.forbidden, strs(signals@));
        let mut m: Vec<BehaviorPattern> = Vec::new();
        let mut i: usize = 0;
        while i < self.patterns.len()
            invariant
                i <= self.patterns@.len(),
                pred == (|p: PatternModel| rule_matches(p.required, p.forbidden, strs(signals@))),
                m@.map_values(|p: BehaviorPattern| p.model()) == self.models().take(i as int).filter(pred),
            decreases self.patterns.len() - i,
        {
            let ghost before = self.models().take(i as int);
            proof {
                assert(self.models().take(i + 1) =~= before.push(self.patterns@[i as int].model()));
                before.lemma_filter_push(self.patterns@[i as int].model(), pred);
            }
            if self.patterns[i].rule.matches(signals) {
                m.push(self.patterns[i].clone());
                proof {
                    assert(m@.map_values(|p: BehaviorPattern| p.model()) =~= before.filter(pred).push(self.patterns@[i as int].model()));
                }
            }
            i = i + 1;
        }
        proof {
            assert(self.models().take(self.models().len() as int) =~= self.models());
        }
        m
    }

    /// The patterns whose rule matches `signals` (in registry order) and
    /// whether any of them requests that the investigation conclude.
    pub fn evaluate(&self, signals: &Vec<String>) -> (verdict: (Vec<BehaviorPattern>, bool))
        ensures
            verdict.0@.map_values(|p: BehaviorPattern| p.model()) == self.models().filter(
                |p: PatternModel| rule_matches(p.required, p.forbidden, strs(signals@)),
            ),
            verdict.1 == exists|i: int| 0 <= i < verdict.0@.len() && (#[trigger] verdict.0@[i]).conclude,
    {
        let matched = self.matching(signals);
        let mut conclude = false;
        let mut i: usize = 0;
        while i < matched.len()
            invariant
                i <= matched@.len(),
                conclude == exists|j: int| 0 <= j < i && (#[trigger] matched@[j]).conclude,
            decreases matched.len() - i,
        {
            if matched[i].conclude {
                conclude = true;
            }
            i = i + 1;
        }
        (matched, conclude)
    }
}

} // verus!
