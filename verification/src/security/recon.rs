//! Reconnaissance skills.

use vstd::prelude::*;

use crate::bits::F32Bits;
use crate::skills::{has_signal, SkillEffect};
use crate::text::contains_str;

verus! {

/// Fires when a `fanout.high` signal is present.
#[derive(Debug, Clone, Copy)]
pub struct HighFanoutSkill {
    /// Confidence lift, as `f32` bits.
    pub lift: F32Bits,
}

impl Default for HighFanoutSkill {
    /// A lift of 0.2.
    fn default() -> (s: Self)
        ensures
            s.lift == F32Bits(0x3e4c_cccd),
    {
        HighFanoutSkill { lift: F32Bits(0x3e4c_cccd) }
    }
}

impl HighFanoutSkill {
    /// Stable skill identifier.
    pub fn id(&self) -> (id: &'static str)
        ensures
            id@ == "recon.high_fanout"@,
    {
        "recon.high_fanout"
    }

    /// Human-readable description.
    pub fn description(&self) -> (d: &'static str)
        ensures
            d@ == "Lifts confidence when the entity exhibits high host fan-out."@,
    {
        "Lifts confidence when the entity exhibits high host fan-out."
    }

    /// The skill applies when `fanout.high` is present.
    pub fn applies(&self, signals: &Vec<String>) -> (a: bool)
        ensures
            a == has_signal(signals@, "fanout.high"@),
    {
        contains_str(signals, "fanout.high")
    }

    /// Records `recon.fanout` and raises confidence by the configured lift.
    pub fn effect(&self) -> (e: SkillEffect)
        ensures
            e.label@ == "recon.fanout"@,
            e.delta == self.lift,
            !e.conclude,
    {
        SkillEffect { label: "recon.fanout", delta: self.lift, conclude: false }
    }
}

/// Fires when grammar entropy looks anomalous (`entropy.anomalous` signal).
#[derive(Debug, Clone, Copy)]
pub struct EntropyCheckSkill {
    /// Confidence lift, as `f32` bits.
    pub lift: F32Bits,
}

impl Default for EntropyCheckSkill {
    /// A lift of 0.1.
    fn default() -> (s: Self)
        ensures
            s.lift == F32Bits(0x3dcc_cccd),
    {
        EntropyCheckSkill { lift: F32Bits(0x3dcc_cccd) }
    }
}

impl EntropyCheckSkill {
    /// Stable skill identifier.
    pub fn id(&self) -> (id: &'static str)
        ensures
            id@ == "recon.entropy_check"@,
    {
        "recon.entropy_check"
    }

    /// Human-readable description.
    pub fn description(&self) -> (d: &'static str)
        ensures
            d@ == "Lifts confidence when grammar entropy is flagged anomalous."@,
    {
        "Lifts confidence when grammar entropy is flagged anomalous."
    }

    /// The skill applies when `entropy.anomalous` is present.
    pub fn applies(&self, signals: &Vec<String>) -> (a: bool)
        ensures
            a == has_signal(signals@, "entropy.anomalous"@),
    {
        contains_str(signals, "entropy.anomalous")
    }

    /// Records `recon.entropy` and raises confidence by the configured lift.
    pub fn effect(&self) -> (e: SkillEffect)
        ensures
            e.label@ == "recon.entropy"@,
            e.delta == self.lift,
            !e.conclude,
    {
        SkillEffect { label: "recon.entropy", delta: self.lift, conclude: false }
    }
}

} // verus!
