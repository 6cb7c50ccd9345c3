use rig_resources::security::credential::PasswordSpraySkill;
use rig_resources::security::exfil::SlowBeaconSkill;
use rig_resources::security::lateral::{required_chain, AuthSpawnConnectSkill};
use rig_resources::security::recon::{EntropyCheckSkill, HighFanoutSkill};
use rig_resources::skills::{memory_pivot_evidence, MEMORY_PIVOT_SKILL_ID};
use rig_resources::{
    BaselineCompareSkill, BehaviorPattern, BehaviorRegistry, F32Bits, MemoryPivotSkill,
    PatternRule,
};

fn delta(x: f32) -> F32Bits {
    F32Bits(x.to_bits())
}

fn as_f32(b: F32Bits) -> f32 {
    f32::from_bits(b.0)
}

fn signal_list(signals: &[&str]) -> Vec<String> {
    signals.iter().map(|s| s.to_string()).collect()
}

fn required_rule(required: &[&str]) -> PatternRule {
    PatternRule {
        required: signal_list(required),
        forbidden: vec![],
    }
}

#[test]
fn registry_keeps_highest_version() {
    let mut registry = BehaviorRegistry::new();
    registry.register(BehaviorPattern::new("p", 1, PatternRule::default(), delta(0.1)));
    registry.register(BehaviorPattern::new("p", 2, PatternRule::default(), delta(0.2)));
    registry.register(BehaviorPattern::new("p", 1, PatternRule::default(), delta(0.9)));
    let snapshot = registry.snapshot();
    assert_eq!(snapshot.len(), 1);
    assert_eq!(snapshot[0].version, 2);
    assert!((as_f32(snapshot[0].confidence_delta) - 0.2).abs() < 1e-6);
}

#[test]
fn registry_replaces_equal_version_in_place() {
    let mut registry = BehaviorRegistry::new();
    registry.register(BehaviorPattern::new("a", 1, PatternRule::default(), delta(0.1)));
    registry.register(BehaviorPattern::new("b", 1, PatternRule::default(), delta(0.1)));
    registry.register(
        BehaviorPattern::new("a", 1, PatternRule::default(), delta(0.3)).with_description("again"),
    );
    let snapshot = registry.snapshot();
    assert_eq!(snapshot.len(), 2);
    assert_eq!(snapshot[0].id, "a");
    assert_eq!(snapshot[0].description, "again");
    assert_eq!(snapshot[1].id, "b");
    assert_eq!(registry.len(), 2);
    assert!(!registry.is_empty());
}

#[test]
fn registry_register_twice_is_idempotent() {
    let mut once = BehaviorRegistry::new();
    let mut twice = BehaviorRegistry::new();
    let pattern = BehaviorPattern::new("p", 3, required_rule(&["x"]), delta(0.4));
    once.register(pattern.clone());
    twice.register(pattern.clone());
    twice.register(pattern);
    assert_eq!(once.len(), twice.len());
    assert_eq!(twice.snapshot()[0].version, 3);
}

#[test]
fn registry_extend_registers_each_pattern() {
    let mut registry = BehaviorRegistry::new();
    assert!(registry.is_empty());
    registry.extend(vec![
        BehaviorPattern::new("a", 1, PatternRule::default(), delta(0.1)),
        BehaviorPattern::new("b", 2, PatternRule::default(), delta(0.2)),
        BehaviorPattern::new("a", 3, PatternRule::default(), delta(0.3)),
    ]);
    let snapshot = registry.snapshot();
    assert_eq!(snapshot.len(), 2);
    assert_eq!(snapshot[0].id, "a");
    assert_eq!(snapshot[0].version, 3);
    assert_eq!(snapshot[1].id, "b");
}

#[test]
fn forbidden_signal_blocks_match() {
    let rule = PatternRule {
        required: vec!["a".into()],
        forbidden: vec!["b".into()],
    };
    let ctx_ok = signal_list(&["a"]);
    let ctx_block = signal_list(&["a", "b"]);
    assert!(rule.matches(&ctx_ok));
    assert!(!rule.matches(&ctx_block));
}

#[test]
fn empty_rule_matches_anything() {
    let rule = PatternRule::default();
    assert!(rule.matches(&Vec::new()));
    assert!(rule.matches(&signal_list(&["whatever"])));
}

#[test]
fn matching_pattern_lifts_and_records_evidence() {
    let mut reg = BehaviorRegistry::new();
    reg.register(
        BehaviorPattern::new("brute", 1, required_rule(&["auth.failure.burst"]), delta(0.25))
            .with_description("password spray"),
    );
    let (matched, conclude) = reg.evaluate(&signal_list(&["auth.failure.burst"]));
    assert_eq!(matched.len(), 1);
    assert!((as_f32(matched[0].confidence_delta) - 0.25).abs() < 1e-6);
    assert_eq!(matched[0].description, "password spray");
    assert!(!conclude);
}

#[test]
fn nonmatching_pattern_is_inert() {
    let mut reg = BehaviorRegistry::new();
    reg.register(BehaviorPattern::new("x", 1, required_rule(&["never"]), delta(0.5)));
    let (matched, conclude) = reg.evaluate(&Vec::new());
    assert!(matched.is_empty());
    assert!(!conclude);
}

#[test]
fn concluding_pattern_requests_conclusion() {
    let mut reg = BehaviorRegistry::new();
    reg.register(BehaviorPattern::new("soft", 1, required_rule(&["a"]), delta(0.1)));
    reg.register(BehaviorPattern::new("hard", 1, required_rule(&["b"]), delta(0.1)).concluding());
    let (only_soft, conclude_soft) = reg.evaluate(&signal_list(&["a"]));
    assert_eq!(only_soft.len(), 1);
    assert!(!conclude_soft);
    let (both, conclude_both) = reg.evaluate(&signal_list(&["a", "b"]));
    assert_eq!(both.len(), 2);
    assert_eq!(both[0].id, "soft");
    assert_eq!(both[1].id, "hard");
    assert!(conclude_both);
    assert_eq!(reg.matching(&signal_list(&["b"])).len(), 1);
}

#[test]
fn baseline_compare_suppresses_when_within() {
    let skill = BaselineCompareSkill;
    assert_eq!(skill.id(), "general.baseline_compare");
    assert!(skill.applies(&signal_list(&["baseline.available", "baseline.within"])));
    assert!(!skill.applies(&signal_list(&["baseline.available"])));
    let effect = skill.effect();
    assert_eq!(effect.label, "baseline.suppress");
    assert!((as_f32(effect.delta) + 0.2).abs() < 1e-6);
    assert!(!effect.conclude);
}

#[test]
fn lifts_on_burst_signal() {
    let skill = PasswordSpraySkill;
    assert_eq!(skill.id(), "credential.password_spray");
    assert!(skill.applies(&signal_list(&["auth.failure.burst"])));
    assert!(!skill.applies(&signal_list(&["auth.failure"])));
    let effect = skill.effect();
    assert!(as_f32(effect.delta) > 0.0);
    assert_eq!(effect.label, "credential.spray");
}

#[test]
fn lifts_on_regular_beacon() {
    let skill = SlowBeaconSkill;
    assert!(skill.applies(&signal_list(&["beacon.regular"])));
    assert!(!skill.applies(&Vec::new()));
    assert!(as_f32(skill.effect().delta) > 0.0);
}

#[test]
fn fires_when_full_chain_present() {
    let skill = AuthSpawnConnectSkill;
    let chain = required_chain();
    assert_eq!(chain, ["auth.success", "process.spawn", "net.connect"]);
    assert!(skill.applies(&signal_list(&chain)));
    assert!(!skill.applies(&signal_list(&["auth.success", "process.spawn"])));
    let effect = skill.effect();
    assert!(effect.conclude);
    assert!((as_f32(effect.delta) - 0.3).abs() < 1e-6);
}

#[test]
fn high_fanout_lifts_when_signal_present() {
    let skill = HighFanoutSkill::default();
    assert!(skill.applies(&signal_list(&["fanout.high"])));
    assert!(!skill.applies(&signal_list(&["fanout.low"])));
    let effect = skill.effect();
    assert!((as_f32(effect.delta) - 0.2).abs() < 1e-6);
    assert_eq!(effect.label, "recon.fanout");

    let entropy = EntropyCheckSkill::default();
    assert!(entropy.applies(&signal_list(&["entropy.anomalous"])));
    assert!((as_f32(entropy.effect().delta) - 0.1).abs() < 1e-6);
}

#[test]
fn memory_pivot_defaults() {
    let skill = MemoryPivotSkill::default();
    assert!((as_f32(skill.min_confidence) - 0.4).abs() < 1e-6);
    assert_eq!(skill.k, 3);
    assert_eq!(MEMORY_PIVOT_SKILL_ID, "general.memory_pivot");
}

#[test]
fn pattern_evidence_label_names_the_pattern() {
    let pattern = BehaviorPattern::new("brute", 1, PatternRule::default(), delta(0.25));
    assert_eq!(pattern.evidence_label(), "pattern:brute");
}

#[test]
fn memory_pivot_records_top_hit_and_trace() {
    assert_eq!(memory_pivot_evidence(Some(2), 2), (true, true));
    assert_eq!(memory_pivot_evidence(Some(0), 0), (false, true));
    assert_eq!(memory_pivot_evidence(Some(2), 0), (true, false));
    assert_eq!(memory_pivot_evidence(None, 0), (false, false));
}
