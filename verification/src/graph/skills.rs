//! Decision logic of the graph expansion skill.

use vstd::prelude::*;

use crate::bits::F32Bits;
use crate::text::str_equal;

verus! {

/// Stable identifier of the graph expansion skill.
pub const GRAPH_EXPANSION_SKILL_ID: &'static str = "graph.expansion";

/// The distinct entities among `nodes` other than `seed`.
pub open spec fn distinct_neighbours(nodes: Seq<Seq<char>>, seed: Seq<char>) -> Set<Seq<char>> {
    nodes.to_set().remove(seed)
}

/// Number of distinct entities in an expansion's node list other than the
/// seed itself.
pub fn distinct_neighbour_count(nodes: &Vec<String>, seed: &str) -> (count: usize)
    ensures
        count == distinct_neighbours(nodes@.map_values(|s: String| s@), seed@).len(),
{
    let ghost all = nodes@.map_values(|s: String| s@);
    let mut seen: Vec<String> = Vec::new();
    let mut i: usize = 0;
    while i < nodes.len()
        invariant
            i <= nodes@.len(),
            all == nodes@.map_values(|s: String| s@),
            seen@.map_values(|s: String| s@).no_duplicates(),
            seen@.map_values(|s: String| s@).to_set() == all.take(i as int).to_set().remove(seed@),
        decreases nodes.len() - i,
    {
        let ghost before = seen@.map_values(|s: String| s@);
        let node = &nodes[i];
        let mut known = str_equal(node.as_str(), seed);
        let mut j: usize = 0;
        while j < seen.len()
            invariant
                j <= seen@.len(),
                before == seen@.map_values(|s: String| s@),
                !known ==> node@ != seed@ && forall|k: int| 0 <= k < j ==> seen@[k]@ != node@,
                known ==> node@ == seed@ || before.contains(node@),
            decreases seen.len() - j,
        {
            if !known && str_equal(seen[j].as_str(), node.as_str()) {
                known = true;
                proof {
                    assert(before[j as int] == node@);
                }
            }
            j = j + 1;
        }
        proof {
            assert(all.take(i + 1) =~= all.take(i as int).push(node@));
            all.take(i as int).lemma_push_to_set_commute(node@);
        }
        if !known {
            proof {
                assert(!before.contains(node@)) by {
                    if before.contains(node@) {
                        let k = choose|k: int| 0 <= k < before.len() && before[k] == node@;
                        assert(seen@[k]@ == node@);
                    }
                }
            }
            seen.push(node.clone());
            proof {
                let after = seen@.map_values(|s: String| s@);
                assert(after =~= before.push(node@));
                before.lemma_push_to_set_commute(node@);
                assert(after.to_set() =~= all.take(i + 1).to_set().remove(seed@));
                assert forall|a: int, b: int| 0 <= a < after.len() && 0 <= b < after.len() && a != b implies after[a] != after[b] by {
                    if a == before.len() {
                        assert(before.contains(before[b]));
                    } else if b == before.len() {
                        assert(before.contains(before[a]));
                    }
                }
            }
        } else {
            proof {
                let after = seen@.map_values(|s: String| s@);
                if node@ != seed@ {
                    assert(before.to_set().contains(node@));
                }
                assert(after.to_set() =~= all.take(i + 1).to_set().remove(seed@));
            }
        }
        i = i + 1;
    }
    proof {
        let s = seen@.map_values(|s: String| s@);
        assert(all.take(nodes@.len() as int) =~= all);
        s.unique_seq_to_set();
    }
    seen.len()
}

/// Tuning of the graph expansion skill.
#[derive(Debug, Clone, Copy)]
pub struct GraphExpansionConfig {
    /// Confidence the investigation must have reached, as `f32` bits.
    pub min_confidence: F32Bits,
    /// Expansion depth requested from the graph tool.
    pub depth: usize,
    /// Distinct neighbours needed to lift confidence.
    pub fanout_threshold: usize,
    /// Confidence lift on a fan-out, as `f32` bits.
    pub confidence_lift: F32Bits,
}

impl Default for GraphExpansionConfig {
    /// Threshold confidence 0.4, depth 2, three neighbours, a lift of 0.15.
    fn default() -> (c: Self)
        ensures
            c.min_confidence == F32Bits(0x3ecc_cccd),
            c.depth == 2,
            c.fanout_threshold == 3,
            c.confidence_lift == F32Bits(0x3e19_999a),
    {
        GraphExpansionConfig {
            min_confidence: F32Bits(0x3ecc_cccd),
            depth: 2,
            fanout_threshold: 3,
            confidence_lift: F32Bits(0x3e19_999a),
        }
    }
}

impl GraphExpansionConfig {
    /// The number of distinct neighbours of `seed` in an expansion's node
    /// list when it reaches the fan-out threshold; `None` below it, when the
    /// skill records nothing.
    pub fn fanout_exceeded(&self, nodes: &Vec<String>, seed: &str) -> (found: Option<usize>)
        ensures
            match found {
                Some(n) => {
                    &&& n == distinct_neighbours(nodes@.map_values(|s: String| s@), seed@).len()
                    &&& n >= self.fanout_threshold
                },
                None => distinct_neighbours(nodes@.map_values(|s: String| s@), seed@).len()
                    < self.fanout_threshold,
            },
    {
        let n = distinct_neighbour_count(nodes, seed);
        if n < self.fanout_threshold {
            None
        } else {
            Some(n)
        }
    }
}

} // verus!
