//! Decision logic of the prebuilt skills: when each applies and what it
//! records when it runs.

use vstd::prelude::*;

use crate::bits::F32Bits;
use crate::patterns::strs;
use crate::text::contains_str;

verus! {

/// What a skill does when it runs: the label of the evidence it records,
/// the confidence delta it applies, and whether it asks the investigation
/// to conclude.
#[derive(Debug, Clone, Copy)]
pub struct SkillEffect {
    /// Label of the recorded evidence.
    pub label: &'static str,
    /// Confidence delta.
    pub delta: F32Bits,
    /// The skill requests a conclude action.
    pub conclude: bool,
}

/// `signals` holds signal `s`.
pub open spec fn has_signal(signals: Seq<String>, s: Seq<char>) -> bool {
    strs(signals).contains(s)
}

/// `general.baseline_compare`: suppresses confidence when behaviour falls
/// inside the entity's known baseline. It applies only when both the
/// `baseline.available` and `baseline.within` signals are present.
#[derive(Debug, Default, Clone, Copy)]
pub struct BaselineCompareSkill;

impl BaselineCompareSkill {
    /// Stable skill identifier.
    pub fn id(&self) -> (id: &'static str)
        ensures
            id@ == "general.baseline_compare"@,
    {
        "general.baseline_compare"
    }

    /// Human-readable description.
    pub fn description(&self) -> (d: &'static str)
        ensures
            d@ == "Suppresses confidence when observed behaviour is within the entity's known baseline."@,
    {
        "Suppresses confidence when observed behaviour is within the entity's known baseline."
    }

    /// The skill applies when a baseline is available and the observation
    /// is within it.
    pub fn applies(&self, signals: &Vec<String>) -> (a: bool)
        ensures
            a == (has_signal(signals@, "baseline.available"@) && has_signal(signals@, "baseline.within"@)),
    {
        contains_str(signals, "baseline.available") && contains_str(signals, "baseline.within")
    }

    /// Records `baseline.suppress` and lowers confidence by 0.2.
    pub fn effect(&self) -> (e: SkillEffect)
        ensures
            e.label@ == "baseline.suppress"@,
            e.delta == F32Bits(0xbe4c_cccd),
            !e.conclude,
    {
        SkillEffect { label: "baseline.suppress", delta: F32Bits(0xbe4c_cccd), conclude: false }
    }
}

/// Stable identifier of the memory pivot skill.
pub const MEMORY_PIVOT_SKILL_ID: &'static str = "general.memory_pivot";

/// `general.memory_pivot`: calls `memory.lookup` once confidence has
/// crossed `min_confidence`; it records evidence but never adjusts
/// confidence on its own.
#[derive(Debug, Clone, Copy)]
pub struct MemoryPivotSkill {
    /// Confidence threshold, as `f32` bits.
    pub min_confidence: F32Bits,
    /// Number of hits requested.
    pub k: usize,
}

impl Default for MemoryPivotSkill {
    /// Threshold 0.4 and three hits.
    fn default() -> (s: Self)
        ensures
            s.min_confidence == F32Bits(0x3ecc_cccd),
            s.k == 3,
    {
        MemoryPivotSkill { min_confidence: F32Bits(0x3ecc_cccd), k: 3 }
    }
}

/// The evidence the memory pivot records after a lookup whose answer held
/// `raw_hits` hits (`None` when it held no hit list), of which `typed_hits`
/// decoded as lookup hits: `(top hit, lookup trace)`. The top hit is
/// recorded when there is one; the trace when every hit decoded.
pub fn memory_pivot_evidence(raw_hits: Option<usize>, typed_hits: usize) -> (rec: (bool, bool))
    ensures
        rec.0 == (raw_hits matches Some(n) && n > 0),
        rec.1 == (raw_hits == Some(typed_hits)),
{
    match raw_hits {
        Some(n) => (n > 0, n == typed_hits),
        None => (false, false),
    }
}

} // verus!
