//! Credential-attack skills.

use vstd::prelude::*;

use crate::bits::F32Bits;
use crate::skills::{has_signal, SkillEffect};
use crate::text::contains_str;

verus! {

/// Fires when an `auth.failure.burst` signal is present.
#[derive(Debug, Default, Clone, Copy)]
pub struct PasswordSpraySkill;

impl PasswordSpraySkill {
    /// Stable skill identifier.
    pub fn id(&self) -> (id: &'static str)
        ensures
            id@ == "credential.password_spray"@,
    {
        "credential.password_spray"
    }

    /// Human-readable description.
    pub fn description(&self) -> (d: &'static str)
        ensures
            d@ == "Lifts confidence on bursts of authentication failures across distinct accounts."@,
    {
        "Lifts confidence on bursts of authentication failures across distinct accounts."
    }

    /// The skill applies when `auth.failure.burst` is present.
    pub fn applies(&self, signals: &Vec<String>) -> (a: bool)
        ensures
            a == has_signal(signals@, "auth.failure.burst"@),
    {
        contains_str(signals, "auth.failure.burst")
    }

    /// Records `credential.spray` and raises confidence by 0.25.
    pub fn effect(&self) -> (e: SkillEffect)
        ensures
            e.label@ == "credential.spray"@,
            e.delta == F32Bits(0x3e80_0000),
            !e.conclude,
    {
        SkillEffect { label: "credential.spray", delta: F32Bits(0x3e80_0000), conclude: false }
    }
}

} // verus!
