//! Lateral-movement skills.

use vstd::prelude::*;

use crate::bits::F32Bits;
use crate::skills::{has_signal, SkillEffect};
use crate::text::contains_str;

verus! {

/// The signals of an auth -> spawn -> connect chain, in order.
pub fn required_chain() -> (chain: [&'static str; 3])
    ensures
        chain[0]@ == "auth.success"@,
        chain[1]@ == "process.spawn"@,
        chain[2]@ == "net.connect"@,
{
    ["auth.success", "process.spawn", "net.connect"]
}

/// Detects a successful auth followed by a spawned process that initiates
/// outbound connections.
#[derive(Debug, Default, Clone, Copy)]
pub struct AuthSpawnConnectSkill;

impl AuthSpawnConnectSkill {
    /// Stable skill identifier.
    pub fn id(&self) -> (id: &'static str)
        ensures
            id@ == "lateral.auth_spawn_connect"@,
    {
        "lateral.auth_spawn_connect"
    }

    /// Human-readable description.
    pub fn description(&self) -> (d: &'static str)
        ensures
            d@ == "Detects auth->spawn->connect chains characteristic of lateral movement."@,
    {
        "Detects auth->spawn->connect chains characteristic of lateral movement."
    }

    /// The skill applies when every signal of the chain is present.
    pub fn applies(&self, signals: &Vec<String>) -> (a: bool)
        ensures
            a == (has_signal(signals@, "auth.success"@) && has_signal(signals@, "process.spawn"@)
                && has_signal(signals@, "net.connect"@)),
    {
        let chain = required_chain();
        contains_str(signals, chain[0]) && contains_str(signals, chain[1]) && contains_str(signals, chain[2])
    }

    /// Records `lateral.chain`, raises confidence by 0.3 and concludes.
    pub fn effect(&self) -> (e: SkillEffect)
        ensures
            e.label@ == "lateral.chain"@,
            e.delta == F32Bits(0x3e99_999a),
            e.conclude,
    {
        SkillEffect { label: "lateral.chain", delta: F32Bits(0x3e99_999a), conclude: true }
    }
}

} // verus!
