//! Exfiltration / beaconing skills.

use vstd::prelude::*;

use crate::bits::F32Bits;
use crate::skills::{has_signal, SkillEffect};
use crate::text::contains_str;

verus! {

/// Fires on `beacon.regular` (low-and-slow regular outbound cadence).
#[derive(Debug, Default, Clone, Copy)]
pub struct SlowBeaconSkill;

impl SlowBeaconSkill {
    /// Stable skill identifier.
    pub fn id(&self) -> (id: &'static str)
        ensures
            id@ == "exfil.slow_beacon"@,
    {
        "exfil.slow_beacon"
    }

    /// Human-readable description.
    pub fn description(&self) -> (d: &'static str)
        ensures
            d@ == "Lifts confidence on regular outbound beaconing cadence."@,
    {
        "Lifts confidence on regular outbound beaconing cadence."
    }

    /// The skill applies when `beacon.regular` is present.
    pub fn applies(&self, signals: &Vec<String>) -> (a: bool)
        ensures
            a == has_signal(signals@, "beacon.regular"@),
    {
        contains_str(signals, "beacon.regular")
    }

    /// Records `exfil.beacon` and raises confidence by 0.2.
    pub fn effect(&self) -> (e: SkillEffect)
        ensures
            e.label@ == "exfil.beacon"@,
            e.delta == F32Bits(0x3e4c_cccd),
            !e.conclude,
    {
        SkillEffect { label: "exfil.beacon", delta: F32Bits(0x3e4c_cccd), conclude: false }
    }
}

} // verus!
