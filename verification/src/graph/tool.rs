//! Names and defaults of the kernel-facing `graph.entity` tool.

use vstd::prelude::*;

verus! {

/// Stable name of the `graph.entity` tool.
pub const GRAPH_TOOL_NAME: &'static str = "graph.entity";

/// Default number of hops used by `graph.entity` expansion requests.
pub fn default_depth() -> (depth: usize)
    ensures
        depth == 2,
{
    2
}

} // verus!
