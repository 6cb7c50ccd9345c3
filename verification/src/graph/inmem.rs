//! In-memory entity graph backed by a `petgraph` directed graph.

use vstd::prelude::*;

use crate::graph::backend::{
    add_edge, add_node, connecting, connecting_edges, connecting_upto, edge_count, edge_weight, graph_edges,
    graph_nodes, new_graph, node_count, node_name, out_edges, outgoing, outgoing_edges,
    set_edge_weight, EdgeEntry, EntityGraph,
};
use std::time::SystemTime;

use crate::graph::store::{GraphEdge, GraphError, Subgraph};

verus! {

/// The `(src, dst, kind)` triple by which an edge is seen.
pub type EdgeTriple = (Seq<char>, Seq<char>, Seq<char>);

/// Well-formed graph contents: entity names are distinct, every edge joins
/// existing nodes whose names are the edge's `src` and `dst`, and no two
/// edges share source, target and kind.
pub open spec fn wf_model(names: Seq<Seq<char>>, edges: Seq<EdgeEntry>) -> bool {
    &&& names.no_duplicates()
    &&& names.len() <= u32::MAX
    &&& edges.len() <= u32::MAX
    &&& forall|i: int|
        0 <= i < edges.len() ==> {
            &&& (#[trigger] edges[i]).0 < names.len()
            &&& edges[i].1 < names.len()
            &&& names[edges[i].0 as int] == edges[i].2.0
            &&& names[edges[i].1 as int] == edges[i].2.1
        }
    &&& forall|i: int, j: int|
        0 <= i < edges.len() && 0 <= j < edges.len() && i != j ==> !same_slot(
            #[trigger] edges[i],
            (#[trigger] edges[j]).0,
            edges[j].1,
            edges[j].2.2,
        )
}

/// Edge `e` runs from node `s` to node `d` and has kind `kind`.
pub open spec fn same_slot(e: EdgeEntry, s: usize, d: usize, kind: Seq<char>) -> bool {
    e.0 == s && e.1 == d && e.2.2 == kind
}

/// `names` with `x` appended when it is not already present.
pub open spec fn with_name(names: Seq<Seq<char>>, x: Seq<char>) -> Seq<Seq<char>> {
    if names.contains(x) {
        names
    } else {
        names.push(x)
    }
}

/// Some edge of `edges` runs from node `s` to node `d` with kind `kind`.
pub open spec fn slot_taken(edges: Seq<EdgeEntry>, s: usize, d: usize, kind: Seq<char>) -> bool {
    exists|i: int| 0 <= i < edges.len() && same_slot(#[trigger] edges[i], s, d, kind)
}

/// `edges` after storing the edge seen as `w`, observed at `ts`, from `s`
/// to `d`: the edge with the same source, target and kind is replaced, or
/// a new edge is appended.
pub open spec fn upserted_edges(
    edges: Seq<EdgeEntry>,
    s: usize,
    d: usize,
    w: EdgeTriple,
    ts: SystemTime,
) -> Seq<EdgeEntry> {
    if slot_taken(edges, s, d, w.2) {
        let i = choose|i: int| 0 <= i < edges.len() && same_slot(#[trigger] edges[i], s, d, w.2);
        edges.update(i, (s, d, w, ts))
    } else {
        edges.push((s, d, w, ts))
    }
}

/// The entity names after upserting an edge seen as `w`: its endpoints are
/// added when missing.
pub open spec fn upserted_names(names: Seq<Seq<char>>, w: EdgeTriple) -> Seq<Seq<char>> {
    with_name(with_name(names, w.0), w.1)
}

/// Graph contents after upserting an edge seen as `w` and observed at `ts`.
pub open spec fn upsert_model(names: Seq<Seq<char>>, edges: Seq<EdgeEntry>, w: EdgeTriple, ts: SystemTime) -> (
    Seq<Seq<char>>,
    Seq<EdgeEntry>,
) {
    let n1 = upserted_names(names, w);
    (n1, upserted_edges(edges, n1.index_of(w.0) as usize, n1.index_of(w.1) as usize, w, ts))
}

/// The upsert of an edge seen as `w` stays within petgraph's `u32` index
/// space.
pub open spec fn upsert_fits(names: Seq<Seq<char>>, edges: Seq<EdgeEntry>, w: EdgeTriple) -> bool {
    let n1 = upserted_names(names, w);
    &&& n1.len() <= u32::MAX
    &&& if slot_taken(edges, n1.index_of(w.0) as usize, n1.index_of(w.1) as usize, w.2) {
        edges.len() <= u32::MAX
    } else {
        edges.len() + 1 <= u32::MAX
    }
}

/// Edge `e` is stored, timestamp included: some stored edge is seen as `e`
/// and was observed when `e` was.
pub open spec fn stored_edge(edges: Seq<EdgeEntry>, e: GraphEdge) -> bool {
    exists|i: int| 0 <= i < edges.len() && (#[trigger] edges[i]).2 == e@ && edges[i].3 == e.ts
}

/// `(i, t)` occurs among the outgoing edges of `node` below `upto` exactly
/// when edge `i` runs from `node` to `t`.
pub proof fn lemma_out_edges_membership(edges: Seq<EdgeEntry>, node: usize, upto: nat, i: usize, t: usize)
    requires
        upto <= edges.len(),
        edges.len() <= u32::MAX,
    ensures
        out_edges(edges, node, upto).contains((i, t)) <==> (i < upto && edges[i as int].0 == node
            && edges[i as int].1 == t),
    decreases upto,
{
    if upto > 0 {
        lemma_out_edges_membership(edges, node, (upto - 1) as nat, i, t);
        let rest = out_edges(edges, node, (upto - 1) as nat);
        let k = (upto - 1) as int;
        if edges[k].0 == node {
            let s = seq![(k as usize, edges[k].1)] + rest;
            assert(s[0] == (k as usize, edges[k].1));
            if rest.contains((i, t)) {
                let j = choose|j: int| 0 <= j < rest.len() && rest[j] == (i, t);
                assert(s[j + 1] == (i, t));
            }
            if s.contains((i, t)) && (i, t) != (k as usize, edges[k].1) {
                let j = choose|j: int| 0 <= j < s.len() && s[j] == (i, t);
                assert(j != 0);
                assert(rest[j - 1] == (i, t));
            }
        }
    }
}

/// The outgoing edges below `upto` are listed in strictly decreasing edge
/// index order, each below `upto`.
pub proof fn lemma_out_edges_decreasing(edges: Seq<EdgeEntry>, node: usize, upto: nat)
    requires
        upto <= edges.len(),
        edges.len() <= u32::MAX,
    ensures
        forall|a: int, b: int|
            0 <= a < b < out_edges(edges, node, upto).len() ==> out_edges(edges, node, upto)[a].0
                > out_edges(edges, node, upto)[b].0,
        forall|a: int|
            0 <= a < out_edges(edges, node, upto).len() ==> out_edges(edges, node, upto)[a].0
                < upto,
    decreases upto,
{
    if upto > 0 {
        lemma_out_edges_decreasing(edges, node, (upto - 1) as nat);
        let rest = out_edges(edges, node, (upto - 1) as nat);
        let k = (upto - 1) as int;
        if edges[k].0 == node {
            let s = seq![(k as usize, edges[k].1)] + rest;
            assert(s =~= out_edges(edges, node, upto));
            assert forall|a: int| 0 <= a < s.len() implies s[a].0 < upto by {
                if a > 0 {
                    assert(s[a] == rest[a - 1]);
                }
            }
            assert forall|a: int, b: int| 0 <= a < b < s.len() implies s[a].0 > s[b].0 by {
                assert(s[b] == rest[b - 1]);
                if a > 0 {
                    assert(s[a] == rest[a - 1]);
                }
            }
        }
    }
}

/// Edge index `i` is listed among the edges from `a` to `b` below `upto`
/// exactly when edge `i` runs from `a` to `b`.
pub proof fn lemma_connecting_membership(edges: Seq<EdgeEntry>, a: usize, b: usize, upto: nat, i: usize)
    requires
        upto <= edges.len(),
        edges.len() <= u32::MAX,
    ensures
        connecting_upto(edges, a, b, upto).contains(i) <==> (i < upto && edges[i as int].0 == a
            && edges[i as int].1 == b),
    decreases upto,
{
    if upto > 0 {
        lemma_connecting_membership(edges, a, b, (upto - 1) as nat, i);
        let rest = connecting_upto(edges, a, b, (upto - 1) as nat);
        let k = (upto - 1) as int;
        if edges[k].0 == a && edges[k].1 == b {
            let s = seq![k as usize] + rest;
            assert(s[0] == k as usize);
            if rest.contains(i) {
                let j = choose|j: int| 0 <= j < rest.len() && rest[j] == i;
                assert(s[j + 1] == i);
            }
            if s.contains(i) && i != k as usize {
                let j = choose|j: int| 0 <= j < s.len() && s[j] == i;
                assert(j != 0);
                assert(rest[j - 1] == i);
            }
        }
    }
}

/// A subgraph seen as entity names and edge triples.
pub open spec fn subgraph_view(sub: Subgraph) -> (Seq<Seq<char>>, Seq<EdgeTriple>) {
    (sub.nodes@.map_values(|s: String| s@), sub.edges@.map_values(|e: GraphEdge| e@))
}

/// There is a path of at most `d` edges from node `a` to node `b`.
pub open spec fn reachable_within(edges: Seq<EdgeEntry>, a: usize, b: usize, d: nat) -> bool
    decreases d,
{
    a == b || (d > 0 && exists|i: int|
        0 <= i < edges.len() && (#[trigger] edges[i]).1 == b && reachable_within(
            edges,
            a,
            edges[i].0,
            (d - 1) as nat,
        ))
}

/// Reachability within a hop budget is what paths of stored edges give: a
/// node reaches itself; with no hops it reaches nothing else; following a
/// stored edge from a node reachable within `d` hops reaches its target
/// within `d + 1`; and whatever is reachable within `d + 1` hops is the
/// start itself or the target of a stored edge from a node reachable within
/// `d` hops.
pub proof fn law_reachable_steps(edges: Seq<EdgeEntry>, a: usize, b: usize, d: nat, i: int)
    ensures
        reachable_within(edges, a, a, d),
        reachable_within(edges, a, b, 0) <==> a == b,
        0 <= i < edges.len() && reachable_within(edges, a, edges[i].0, d) ==> reachable_within(
            edges,
            a,
            edges[i].1,
            d + 1,
        ),
        reachable_within(edges, a, b, d + 1) ==> (a == b || exists|j: int|
            0 <= j < edges.len() && (#[trigger] edges[j]).1 == b && reachable_within(edges, a, edges[j].0, d)),
{
    if 0 <= i < edges.len() && reachable_within(edges, a, edges[i].0, d) {
        assert(edges[i].1 == edges[i].1);
    }
}

/// A path allowed `d` edges is also allowed any larger budget.
pub proof fn lemma_reachable_monotone(edges: Seq<EdgeEntry>, a: usize, b: usize, d: nat, e: nat)
    requires
        reachable_within(edges, a, b, d),
        d <= e,
    ensures
        reachable_within(edges, a, b, e),
    decreases d,
{
    if a != b {
        let i = choose|i: int|
            0 <= i < edges.len() && (#[trigger] edges[i]).1 == b && reachable_within(
                edges,
                a,
                edges[i].0,
                (d - 1) as nat,
            );
        lemma_reachable_monotone(edges, a, edges[i].0, (d - 1) as nat, (e - 1) as nat);
    }
}

/// Once one more hop reaches nothing new, no larger budget does either.
pub proof fn lemma_reachable_stable(edges: Seq<EdgeEntry>, a: usize, d: nat, e: nat, x: usize)
    requires
        forall|y: usize| #[trigger] reachable_within(edges, a, y, d + 1) ==> reachable_within(edges, a, y, d),
        d <= e,
        reachable_within(edges, a, x, e),
    ensures
        reachable_within(edges, a, x, d),
    decreases e,
{
    if e > d && x != a {
        let i = choose|i: int|
            0 <= i < edges.len() && (#[trigger] edges[i]).1 == x && reachable_within(
                edges,
                a,
                edges[i].0,
                (e - 1) as nat,
            );
        lemma_reachable_stable(edges, a, d, (e - 1) as nat, edges[i].0);
        assert(reachable_within(edges, a, x, d + 1));
    }
}

/// In a well-formed graph every node reachable from node `a` is a node.
pub proof fn lemma_reachable_in_graph(names: Seq<Seq<char>>, edges: Seq<EdgeEntry>, a: usize, b: usize, d: nat)
    requires
        wf_model(names, edges),
        a < names.len(),
        reachable_within(edges, a, b, d),
    ensures
        b < names.len(),
{
    if a != b {
        let i = choose|i: int|
            0 <= i < edges.len() && (#[trigger] edges[i]).1 == b && reachable_within(
                edges,
                a,
                edges[i].0,
                (d - 1) as nat,
            );
    }
}

/// Position of a name in a list of distinct names.
proof fn lemma_index_of_distinct(names: Seq<Seq<char>>, i: int)
    requires
        names.no_duplicates(),
        0 <= i < names.len(),
    ensures
        names.contains(names[i]),
        names.index_of(names[i]) == i,
{
    assert(names[i] == names[i]);
    let k = names.index_of(names[i]);
    assert(0 <= k < names.len() && names[k] == names[i]);
}

/// Entity `x` lies within `depth` hops of node `start`: it is one of the
/// entities an expansion from `start` to `depth` returns.
pub open spec fn expanded_node(
    names: Seq<Seq<char>>,
    edges: Seq<EdgeEntry>,
    start: usize,
    depth: usize,
    x: Seq<char>,
) -> bool {
    names.contains(x) && reachable_within(edges, start, names.index_of(x) as usize, depth as nat)
}

/// Edge triple `t` is an edge leaving an entity within `depth - 1` hops of
/// node `start`: one of the edges an expansion from `start` to `depth`
/// returns.
pub open spec fn expanded_edge(edges: Seq<EdgeEntry>, start: usize, depth: usize, t: EdgeTriple) -> bool {
    depth > 0 && exists|e: int|
        0 <= e < edges.len() && (#[trigger] edges[e]).2 == t && reachable_within(
            edges,
            start,
            edges[e].0,
            (depth - 1) as nat,
        )
}

/// Expansion is complete: every entity reachable from the seed within
/// `depth` hops is in the expansion.
pub proof fn law_expansion_complete(
    names: Seq<Seq<char>>,
    edges: Seq<EdgeEntry>,
    start: usize,
    depth: usize,
    i: usize,
)
    requires
        wf_model(names, edges),
        start < names.len(),
        reachable_within(edges, start, i, depth as nat),
    ensures
        i < names.len(),
        expanded_node(names, edges, start, depth, names[i as int]),
{
    lemma_reachable_in_graph(names, edges, start, i, depth as nat);
    lemma_index_of_distinct(names, i as int);
}

/// Expansion is sound for edges: every edge it returns joins two entities
/// it returns.
pub proof fn law_expansion_edges_closed(
    names: Seq<Seq<char>>,
    edges: Seq<EdgeEntry>,
    start: usize,
    depth: usize,
    t: EdgeTriple,
)
    requires
        wf_model(names, edges),
        expanded_edge(edges, start, depth, t),
    ensures
        expanded_node(names, edges, start, depth, t.0),
        expanded_node(names, edges, start, depth, t.1),
{
    let e = choose|e: int|
        0 <= e < edges.len() && (#[trigger] edges[e]).2 == t && reachable_within(
            edges,
            start,
            edges[e].0,
            (depth - 1) as nat,
        );
    lemma_index_of_distinct(names, edges[e].0 as int);
    lemma_index_of_distinct(names, edges[e].1 as int);
    lemma_reachable_monotone(edges, start, edges[e].0, (depth - 1) as nat, depth as nat);
    assert(reachable_within(edges, start, edges[e].1, depth as nat));
}

/// Expanding to depth 0 returns only the seed and no edge.
pub proof fn law_expansion_depth_zero(
    names: Seq<Seq<char>>,
    edges: Seq<EdgeEntry>,
    start: usize,
    x: Seq<char>,
    t: EdgeTriple,
)
    requires
        wf_model(names, edges),
        start < names.len(),
    ensures
        expanded_node(names, edges, start, 0, x) <==> x == names[start as int],
        !expanded_edge(edges, start, 0, t),
{
    lemma_index_of_distinct(names, start as int);
}

/// A deeper expansion contains a shallower one, entities and edges alike.
pub proof fn law_expansion_monotone(
    names: Seq<Seq<char>>,
    edges: Seq<EdgeEntry>,
    start: usize,
    d1: usize,
    d2: usize,
    x: Seq<char>,
    t: EdgeTriple,
)
    requires
        d1 <= d2,
    ensures
        expanded_node(names, edges, start, d1, x) ==> expanded_node(names, edges, start, d2, x),
        expanded_edge(edges, start, d1, t) ==> expanded_edge(edges, start, d2, t),
{
    if expanded_node(names, edges, start, d1, x) {
        lemma_reachable_monotone(edges, start, names.index_of(x) as usize, d1 as nat, d2 as nat);
    }
    if expanded_edge(edges, start, d1, t) {
        let e = choose|e: int|
            0 <= e < edges.len() && (#[trigger] edges[e]).2 == t && reachable_within(
                edges,
                start,
                edges[e].0,
                (d1 - 1) as nat,
            );
        lemma_reachable_monotone(edges, start, edges[e].0, (d1 - 1) as nat, (d2 - 1) as nat);
    }
}

/// Out-degree of entity `x`: the number of its outgoing edges, or 0 for an
/// unknown entity.
pub open spec fn out_degree_model(names: Seq<Seq<char>>, edges: Seq<EdgeEntry>, x: Seq<char>) -> nat {
    if names.contains(x) {
        outgoing(edges, names.index_of(x) as usize).len()
    } else {
        0
    }
}

/// The largest out-degree among nodes `0..k`, or 0 when `k == 0`.
pub open spec fn max_degree_upto(edges: Seq<EdgeEntry>, k: nat) -> nat
    decreases k,
{
    if k == 0 {
        0
    } else {
        let d = outgoing(edges, (k - 1) as usize).len();
        let m = max_degree_upto(edges, (k - 1) as nat);
        if d > m {
            d
        } else {
            m
        }
    }
}

/// Every node below `k` has out-degree at most `max_degree_upto(edges, k)`.
pub proof fn lemma_degree_below_max(edges: Seq<EdgeEntry>, k: nat, i: nat)
    requires
        i < k,
    ensures
        outgoing(edges, i as usize).len() <= max_degree_upto(edges, k),
    decreases k,
{
    if i < k - 1 {
        lemma_degree_below_max(edges, (k - 1) as nat, i);
    }
}

/// The out-degree of any entity is at most the largest out-degree, so the
/// normalised centrality `degree / max` lies in `[0, 1]`.
pub proof fn law_degree_at_most_max(names: Seq<Seq<char>>, edges: Seq<EdgeEntry>, x: Seq<char>)
    requires
        wf_model(names, edges),
    ensures
        out_degree_model(names, edges, x) <= max_degree_upto(edges, names.len()),
{
    if names.contains(x) {
        let i = names.index_of(x);
        assert(0 <= i < names.len() && names[i] == x);
        lemma_degree_below_max(edges, names.len(), i as nat);
    }
}

/// The largest out-degree among nodes `0..k` bounds every one of them and
/// is reached by one of them (it is 0 when there are none).
pub proof fn lemma_max_degree_attained(edges: Seq<EdgeEntry>, k: nat)
    requires
        k <= usize::MAX,
    ensures
        forall|i: usize| i < k ==> #[trigger] outgoing(edges, i).len() <= max_degree_upto(edges, k),
        k > 0 ==> exists|i: usize| i < k && #[trigger] outgoing(edges, i).len() == max_degree_upto(edges, k),
        k == 0 ==> max_degree_upto(edges, k) == 0,
    decreases k,
{
    if k > 0 {
        lemma_max_degree_attained(edges, (k - 1) as nat);
        let top = (k - 1) as usize;
        if k > 1 {
            let j = choose|i: usize| i < k - 1 && #[trigger] outgoing(edges, i).len() == max_degree_upto(edges, (k - 1) as nat);
            if outgoing(edges, top).len() <= max_degree_upto(edges, (k - 1) as nat) {
                assert(outgoing(edges, j).len() == max_degree_upto(edges, k));
            }
        }
        assert(outgoing(edges, top).len() <= max_degree_upto(edges, k));
    }
}

/// Degree centrality is normalised by a degree some entity has: in a
/// non-empty graph the largest out-degree is the out-degree of some entity,
/// and no entity's out-degree exceeds it; an empty graph has largest
/// out-degree 0.
pub proof fn law_max_degree_attained(names: Seq<Seq<char>>, edges: Seq<EdgeEntry>)
    requires
        wf_model(names, edges),
    ensures
        forall|x: Seq<char>| #[trigger] out_degree_model(names, edges, x) <= max_degree_upto(edges, names.len()),
        names.len() > 0 ==> exists|x: Seq<char>|
            names.contains(x) && #[trigger] out_degree_model(names, edges, x) == max_degree_upto(edges, names.len()),
        names.len() == 0 ==> max_degree_upto(edges, names.len()) == 0,
{
    lemma_max_degree_attained(edges, names.len());
    assert forall|x: Seq<char>| #[trigger] out_degree_model(names, edges, x) <= max_degree_upto(edges, names.len()) by {
        law_degree_at_most_max(names, edges, x);
    }
    if names.len() > 0 {
        let i = choose|i: usize| i < names.len() && #[trigger] outgoing(edges, i).len() == max_degree_upto(edges, names.len());
        lemma_index_of_distinct(names, i as int);
        assert(out_degree_model(names, edges, names[i as int]) == max_degree_upto(edges, names.len()));
    }
}

/// Upserting is idempotent: storing the same `(src, dst, kind)` edge again
/// leaves the graph's contents as they were after the first upsert.
pub proof fn law_upsert_idempotent(names: Seq<Seq<char>>, edges: Seq<EdgeEntry>, w: EdgeTriple, ts: SystemTime)
    requires
        wf_model(names, edges),
        upsert_fits(names, edges, w),
    ensures
        upsert_model(upsert_model(names, edges, w, ts).0, upsert_model(names, edges, w, ts).1, w, ts)
            == upsert_model(names, edges, w, ts),
{
    let n1 = upsert_model(names, edges, w, ts).0;
    let e1 = upsert_model(names, edges, w, ts).1;
    let s = n1.index_of(w.0) as usize;
    let d = n1.index_of(w.1) as usize;
    let n0 = with_name(names, w.0);
    assert(n0.contains(w.0)) by {
        if !names.contains(w.0) {
            assert(n0[names.len() as int] == w.0);
        }
    }
    assert(n1.contains(w.0)) by {
        let k = choose|k: int| 0 <= k < n0.len() && n0[k] == w.0;
        assert(n1[k] == w.0);
    }
    assert(n1.contains(w.1)) by {
        if !n0.contains(w.1) {
            assert(n1[n0.len() as int] == w.1);
        }
    }
    assert(upserted_names(n1, w) == n1);
    if slot_taken(edges, s, d, w.2) {
        let i = choose|i: int| 0 <= i < edges.len() && same_slot(#[trigger] edges[i], s, d, w.2);
        assert(e1 == edges.update(i, (s, d, w, ts)));
        assert(same_slot(e1[i], s, d, w.2));
        let j = choose|j: int| 0 <= j < e1.len() && same_slot(#[trigger] e1[j], s, d, w.2);
        assert(j == i) by {
            if j != i {
                assert(edges[j] == e1[j]);
                assert(!same_slot(edges[j], edges[i].0, edges[i].1, edges[i].2.2));
            }
        }
        assert(e1.update(i, (s, d, w, ts)) =~= e1);
    } else {
        assert(e1 == edges.push((s, d, w, ts)));
        let i = edges.len() as int;
        assert(same_slot(e1[i], s, d, w.2));
        let j = choose|j: int| 0 <= j < e1.len() && same_slot(#[trigger] e1[j], s, d, w.2);
        assert(j == i) by {
            if j != i {
                assert(edges[j] == e1[j]);
            }
        }
        assert(e1.update(i, (s, d, w, ts)) =~= e1);
    }
}

/// Adding a name keeps the existing names in place, contains the new one,
/// and keeps a list of distinct names distinct.
proof fn lemma_with_name(names: Seq<Seq<char>>, x: Seq<char>)
    requires
        names.no_duplicates(),
    ensures
        with_name(names, x).no_duplicates(),
        with_name(names, x).contains(x),
        with_name(names, x).len() == names.len() + if names.contains(x) {
            0int
        } else {
            1int
        },
        forall|k: int| 0 <= k < names.len() ==> #[trigger] with_name(names, x)[k] == names[k],
{
    let r = with_name(names, x);
    if !names.contains(x) {
        assert(r[names.len() as int] == x);
        assert forall|a: int, b: int| 0 <= a < r.len() && 0 <= b < r.len() && a != b implies r[a] != r[b] by {
            if a == names.len() {
                assert(names.contains(names[b]));
            } else if b == names.len() {
                assert(names.contains(names[a]));
            }
        }
    }
}

/// Upserting adds each endpoint that is not yet an entity, and adds an edge
/// exactly when no stored edge has the same source, target and kind (such
/// an edge is replaced instead).
pub proof fn law_upsert_counts(names: Seq<Seq<char>>, edges: Seq<EdgeEntry>, w: EdgeTriple, ts: SystemTime)
    requires
        wf_model(names, edges),
        upsert_fits(names, edges, w),
    ensures
        upsert_model(names, edges, w, ts).0.len() == names.len() + (if names.contains(w.0) {
            0int
        } else {
            1int
        }) + (if names.contains(w.1) || w.1 == w.0 {
            0int
        } else {
            1int
        }),
        upsert_model(names, edges, w, ts).1.len() == edges.len() + if exists|i: int|
            0 <= i < edges.len() && (#[trigger] edges[i]).2 == w {
            0int
        } else {
            1int
        },
{
    let n0 = with_name(names, w.0);
    let n1 = with_name(n0, w.1);
    lemma_with_name(names, w.0);
    lemma_with_name(n0, w.1);
    assert(n0.contains(w.1) <==> (names.contains(w.1) || w.1 == w.0)) by {
        if n0.contains(w.1) && !names.contains(w.1) {
            let k = choose|k: int| 0 <= k < n0.len() && n0[k] == w.1;
            if k < names.len() {
                assert(names[k] == w.1);
            }
        }
        if names.contains(w.1) {
            let k = choose|k: int| 0 <= k < names.len() && names[k] == w.1;
            assert(n0[k] == w.1);
        }
    }
    let s = n1.index_of(w.0) as usize;
    let d = n1.index_of(w.1) as usize;
    assert(n1.contains(w.0)) by {
        let k = choose|k: int| 0 <= k < n0.len() && n0[k] == w.0;
        assert(n1[k] == w.0);
    }
    assert(n1.contains(w.1));
    assert(0 <= n1.index_of(w.0) < n1.len() && n1[n1.index_of(w.0)] == w.0);
    assert(0 <= n1.index_of(w.1) < n1.len() && n1[n1.index_of(w.1)] == w.1);
    assert(0 <= s < n1.len() && n1[s as int] == w.0);
    assert(0 <= d < n1.len() && n1[d as int] == w.1);
    let slot = exists|i: int| 0 <= i < edges.len() && same_slot(#[trigger] edges[i], s, d, w.2);
    let same = exists|i: int| 0 <= i < edges.len() && (#[trigger] edges[i]).2 == w;
    assert(slot <==> same) by {
        if slot {
            let i = choose|i: int| 0 <= i < edges.len() && same_slot(#[trigger] edges[i], s, d, w.2);
            assert(n1[edges[i].0 as int] == names[edges[i].0 as int]);
            assert(n1[edges[i].1 as int] == names[edges[i].1 as int]);
            assert(edges[i].2 == w);
        }
        if same {
            let i = choose|i: int| 0 <= i < edges.len() && (#[trigger] edges[i]).2 == w;
            assert(n1[edges[i].0 as int] == w.0);
            assert(n1[edges[i].1 as int] == w.1);
            lemma_index_of_distinct(n1, edges[i].0 as int);
            lemma_index_of_distinct(n1, edges[i].1 as int);
            assert(same_slot(edges[i], s, d, w.2));
        }
    }
}

/// An entity graph stored in a `petgraph` directed graph, with at most one
/// edge per `(src, dst, kind)`.
pub struct InMemoryGraph {
    graph: EntityGraph,
}

impl InMemoryGraph {
    /// Entity names in node-index order.
    pub closed spec fn names(&self) -> Seq<Seq<char>> {
        graph_nodes(self.graph)
    }

    /// Stored edges in edge-index order.
    pub closed spec fn edges(&self) -> Seq<EdgeEntry> {
        graph_edges(self.graph)
    }

    #[verifier::type_invariant]
    spec fn well_formed(self) -> bool {
        wf_model(graph_nodes(self.graph), graph_edges(self.graph))
    }

    /// Create an empty graph.
    pub fn new() -> (g: InMemoryGraph)
        ensures
            g.names() == Seq::<Seq<char>>::empty(),
            g.edges() == Seq::<EdgeEntry>::empty(),
    {
        InMemoryGraph { graph: new_graph() }
    }

    /// Number of entities stored.
    pub fn node_count(&self) -> (n: usize)
        ensures
            n == self.names().len(),
    {
        node_count(&self.graph)
    }

    /// Number of edges stored.
    pub fn edge_count(&self) -> (n: usize)
        ensures
            n == self.edges().len(),
    {
        edge_count(&self.graph)
    }

    /// The node index of entity `name`, if present.
    fn find_node(g: &EntityGraph, name: &String) -> (found: Option<usize>)
        requires
            graph_nodes(*g).no_duplicates(),
        ensures
            match found {
                Some(i) => i < graph_nodes(*g).len() && graph_nodes(*g)[i as int] == name@
                    && graph_nodes(*g).index_of(name@) == i,
                None => !graph_nodes(*g).contains(name@),
            },
    {
        let n = node_count(g);
        let mut i: usize = 0;
        while i < n
            invariant
                n == graph_nodes(*g).len(),
                graph_nodes(*g).no_duplicates(),
                i <= n,
                forall|j: int| 0 <= j < i ==> graph_nodes(*g)[j] != name@,
            decreases n - i,
        {
            if node_name(g, i).eq(name) {
                proof {
                    let names = graph_nodes(*g);
                    let k = names.index_of(name@);
                    assert(names[i as int] == name@);
                    assert(0 <= k < names.len() && names[k] == name@);
                    if k != i as int {
                        assert(names[k] != names[i as int]);
                    }
                }
                return Some(i);
            }
            i = i + 1;
        }
        None
    }

    /// Return the node index of `name`, adding the entity when absent.
    fn ensure_node(g: &mut EntityGraph, name: &String) -> (ix: usize)
        requires
            wf_model(graph_nodes(*old(g)), graph_edges(*old(g))),
            with_name(graph_nodes(*old(g)), name@).len() <= u32::MAX,
        ensures
            wf_model(graph_nodes(*final(g)), graph_edges(*final(g))),
            graph_nodes(*final(g)) == with_name(graph_nodes(*old(g)), name@),
            graph_edges(*final(g)) == graph_edges(*old(g)),
            ix == graph_nodes(*final(g)).index_of(name@),
            ix < graph_nodes(*final(g)).len(),
            graph_nodes(*final(g))[ix as int] == name@,
    {
        match Self::find_node(g, name) {
            Some(i) => i,
            None => {
                let ghost names = graph_nodes(*g);
                let ix = add_node(g, name.clone());
                proof {
                    let n1 = graph_nodes(*g);
                    assert(n1 == names.push(name@));
                    assert(n1[ix as int] == name@);
                    assert forall|a: int, b: int| 0 <= a < n1.len() && 0 <= b < n1.len() && a != b implies n1[a] != n1[b] by {
                        if a < names.len() && b < names.len() {
                        } else if a == names.len() {
                            assert(n1[b] == names[b]);
                        } else {
                            assert(n1[a] == names[a]);
                        }
                    }
                    let k = n1.index_of(name@);
                    assert(0 <= k < n1.len() && n1[k] == name@);
                    assert(k == ix);
                    let edges = graph_edges(*g);
                    assert forall|i: int| 0 <= i < edges.len() implies {
                        &&& (#[trigger] edges[i]).0 < n1.len()
                        &&& edges[i].1 < n1.len()
                        &&& n1[edges[i].0 as int] == edges[i].2.0
                        &&& n1[edges[i].1 as int] == edges[i].2.1
                    } by {
                        assert(n1[edges[i].0 as int] == names[edges[i].0 as int]);
                        assert(n1[edges[i].1 as int] == names[edges[i].1 as int]);
                    }
                }
                ix
            },
        }
    }

    /// Insert or replace a directed edge. Missing endpoints are added as
    /// entities; an edge with the same source, target and kind is replaced,
    /// so upserting is idempotent per kind.
    pub fn upsert_edge(&mut self, edge: GraphEdge)
        requires
            upsert_fits(old(self).names(), old(self).edges(), edge@),
        ensures
            (final(self).names(), final(self).edges()) == upsert_model(
                old(self).names(),
                old(self).edges(),
                edge@,
                edge.ts,
            ),
            wf_model(final(self).names(), final(self).edges()),
            stored_edge(final(self).edges(), edge),
            final(self).names().len() == old(self).names().len() + (if old(self).names().contains(edge.src@) {
                0int
            } else {
                1int
            }) + (if old(self).names().contains(edge.dst@) || edge.dst@ == edge.src@ {
                0int
            } else {
                1int
            }),
            final(self).edges().len() == old(self).edges().len() + if exists|i: int|
                0 <= i < old(self).edges().len() && (#[trigger] old(self).edges()[i]).2 == edge@ {
                0int
            } else {
                1int
            },
    {
        proof {
            use_type_invariant(&*self);
        }
        let mut g = new_graph();
        std::mem::swap(&mut g, &mut self.graph);
        let ghost names0 = graph_nodes(g);
        let ghost edges0 = graph_edges(g);
        let src = Self::ensure_node(&mut g, &edge.src);
        let ghost names_a = graph_nodes(g);
        let dst = Self::ensure_node(&mut g, &edge.dst);
        let ghost names1 = graph_nodes(g);
        proof {
            assert(names1[src as int] == names_a[src as int]);
            let k = names1.index_of(edge.src@);
            assert(0 <= k < names1.len() && names1[k] == edge.src@);
            if k != src as int {
                assert(names1[k] != names1[src as int]);
            }
        }
        let candidates = connecting_edges(&g, src, dst);
        proof {
            assert forall|k: int| 0 <= k < candidates@.len() implies (#[trigger] candidates@[k]) < edges0.len()
                && edges0[candidates@[k] as int].0 == src && edges0[candidates@[k] as int].1 == dst by {
                assert(candidates@.contains(candidates@[k]));
                lemma_connecting_membership(edges0, src, dst, edges0.len(), candidates@[k]);
            }
        }
        let mut found: Option<usize> = None;
        let mut j: usize = 0;
        while j < candidates.len()
            invariant_except_break
                found is None,
            invariant
                edges0 == graph_edges(g),
                wf_model(graph_nodes(g), edges0),
                forall|k: int| 0 <= k < candidates@.len() ==> (#[trigger] candidates@[k]) < edges0.len(),
                j <= candidates.len(),
                forall|k: int|
                    0 <= k < j ==> edges0[(#[trigger] candidates@[k]) as int].2.2 != edge.kind@,
            ensures
                found matches Some(id) ==> candidates@.contains(id) && edges0[id as int].2.2 == edge.kind@,
                found is None ==> forall|k: int|
                    0 <= k < candidates@.len() ==> edges0[(#[trigger] candidates@[k]) as int].2.2 != edge.kind@,
            decreases candidates.len() - j,
        {
            let id = candidates[j];
            if edge_weight(&g, id).kind.eq(&edge.kind) {
                found = Some(id);
                proof {
                    assert(candidates@[j as int] == id);
                }
                break;
            }
            j = j + 1;
        }
        let ghost w = edge@;
        let ghost ts = edge.ts;
        proof {
            law_upsert_counts(names0, edges0, w, ts);
        }
        match found {
            Some(id) => {
                proof {
                    lemma_connecting_membership(edges0, src, dst, edges0.len(), id);
                    assert(same_slot(edges0[id as int], src, dst, w.2));
                    let c = choose|i: int| 0 <= i < edges0.len() && same_slot(#[trigger] edges0[i], src, dst, w.2);
                    if c != id as int {
                        assert(!same_slot(edges0[c], edges0[id as int].0, edges0[id as int].1, edges0[id as int].2.2));
                    }
                }
                set_edge_weight(&mut g, id, edge);
                proof {
                    let e1 = graph_edges(g);
                    assert(e1 =~= upserted_edges(edges0, src, dst, w, ts));
                    assert(e1[id as int] == (src, dst, w, ts));
                    assert forall|a: int, b: int|
                        0 <= a < e1.len() && 0 <= b < e1.len() && a != b implies !same_slot(
                            #[trigger] e1[a],
                            (#[trigger] e1[b]).0,
                            e1[b].1,
                            e1[b].2.2,
                        ) by {
                        if a == id as int {
                            assert(!same_slot(edges0[b], edges0[a].0, edges0[a].1, edges0[a].2.2));
                        } else if b == id as int {
                            assert(!same_slot(edges0[a], edges0[b].0, edges0[b].1, edges0[b].2.2));
                        } else {
                            assert(!same_slot(edges0[a], edges0[b].0, edges0[b].1, edges0[b].2.2));
                        }
                    }
                }
            },
            None => {
                proof {
                    assert forall|i: int| 0 <= i < edges0.len() implies !same_slot(#[trigger] edges0[i], src, dst, w.2) by {
                        if edges0[i].0 == src && edges0[i].1 == dst {
                            lemma_connecting_membership(edges0, src, dst, edges0.len(), i as usize);
                            let k = choose|k: int| 0 <= k < candidates@.len() && candidates@[k] == i as usize;
                            assert(edges0[candidates@[k] as int].2.2 != w.2);
                        }
                    }
                }
                add_edge(&mut g, src, dst, edge);
                proof {
                    let e1 = graph_edges(g);
                    assert(e1 =~= upserted_edges(edges0, src, dst, w, ts));
                    assert(e1[edges0.len() as int] == (src, dst, w, ts));
                    assert forall|a: int, b: int|
                        0 <= a < e1.len() && 0 <= b < e1.len() && a != b implies !same_slot(
                            #[trigger] e1[a],
                            (#[trigger] e1[b]).0,
                            e1[b].1,
                            e1[b].2.2,
                        ) by {
                        if a == edges0.len() {
                            assert(!same_slot(edges0[b], src, dst, w.2));
                        } else if b == edges0.len() {
                        } else {
                            assert(!same_slot(edges0[a], edges0[b].0, edges0[b].1, edges0[b].2.2));
                        }
                    }
                }
            },
        }
        self.graph = g;
    }

    /// Expand from `seed` up to `depth` hops, breadth first: the result
    /// holds every entity within `depth` hops of the seed (the seed first)
    /// and every edge leaving an entity within `depth - 1` hops, each once.
    /// An unknown seed is reported as `GraphError::NotFound`.
    pub fn expand(&self, seed: &str, depth: usize) -> (res: Result<Subgraph, GraphError>)
        ensures
            match res {
                Ok(sub) => {
                    &&& self.names().contains(seed@)
                    &&& sub.seed@ == seed@
                    &&& subgraph_view(sub).0.len() > 0
                    &&& subgraph_view(sub).0[0] == seed@
                    &&& subgraph_view(sub).0.no_duplicates()
                    &&& forall|x: Seq<char>|
                        #![trigger subgraph_view(sub).0.contains(x)]
                        #![trigger expanded_node(self.names(), self.edges(), self.names().index_of(seed@) as usize, depth, x)]
                        subgraph_view(sub).0.contains(x) <==> expanded_node(
                            self.names(),
                            self.edges(),
                            self.names().index_of(seed@) as usize,
                            depth,
                            x,
                        )
                    &&& forall|k: int| 0 <= k < sub.edges@.len() ==> stored_edge(self.edges(), #[trigger] sub.edges@[k])
                    &&& subgraph_view(sub).1.no_duplicates()
                    &&& forall|t: EdgeTriple|
                        #![trigger subgraph_view(sub).1.contains(t)]
                        #![trigger expanded_edge(self.edges(), self.names().index_of(seed@) as usize, depth, t)]
                        subgraph_view(sub).1.contains(t) <==> expanded_edge(
                            self.edges(),
                            self.names().index_of(seed@) as usize,
                            depth,
                            t,
                        )
                },
                Err(GraphError::NotFound(entity)) => !self.names().contains(seed@) && entity@ == seed@,
            },
    {
        proof {
            use_type_invariant(self);
        }
        let g = &self.graph;
        let ghost names = graph_nodes(*g);
        let ghost es = graph_edges(*g);
        let seed_name = seed.to_owned();
        let start = match Self::find_node(g, &seed_name) {
            Some(i) => i,
            None => {
                return Err(GraphError::NotFound(seed_name));
            },
        };
        let (order, taken) = Self::breadth_first(g, start, depth);
        let mut nodes: Vec<String> = Vec::new();
        let mut q: usize = 0;
        while q < order.len()
            invariant
                names == graph_nodes(*g),
                q <= order@.len(),
                forall|k: int| 0 <= k < order@.len() ==> (#[trigger] order@[k]) < names.len(),
                nodes@.map_values(|s: String| s@) == order@.take(q as int).map_values(|i: usize| names[i as int]),
            decreases order.len() - q,
        {
            let ghost before = nodes@.map_values(|s: String| s@);
            nodes.push(node_name(g, order[q]).clone());
            proof {
                assert(nodes@.map_values(|s: String| s@) =~= before.push(names[order@[q as int] as int]));
                assert(order@.take(q + 1).map_values(|i: usize| names[i as int]) =~= order@.take(q as int).map_values(
                    |i: usize| names[i as int],
                ).push(names[order@[q as int] as int]));
            }
            q = q + 1;
        }
        let mut edges: Vec<GraphEdge> = Vec::new();
        let mut q: usize = 0;
        while q < taken.len()
            invariant
                es == graph_edges(*g),
                q <= taken@.len(),
                forall|k: int| 0 <= k < taken@.len() ==> (#[trigger] taken@[k]) < es.len(),
                edges@.map_values(|e: GraphEdge| e@) == taken@.take(q as int).map_values(|e: usize| es[e as int].2),
                edges@.len() == q,
                forall|k: int| 0 <= k < q ==> (#[trigger] edges@[k]).ts == es[taken@[k] as int].3,
            decreases taken.len() - q,
        {
            let ghost before = edges@.map_values(|e: GraphEdge| e@);
            edges.push(edge_weight(g, taken[q]).clone());
            proof {
                assert(edges@[q as int].ts == es[taken@[q as int] as int].3);
            }
            proof {
                assert(edges@.map_values(|e: GraphEdge| e@) =~= before.push(es[taken@[q as int] as int].2));
                assert(taken@.take(q + 1).map_values(|e: usize| es[e as int].2) =~= taken@.take(q as int).map_values(
                    |e: usize| es[e as int].2,
                ).push(es[taken@[q as int] as int].2));
            }
            q = q + 1;
        }
        let sub = Subgraph { seed: seed_name, nodes, edges };
        proof {
            let nv = order@.map_values(|i: usize| names[i as int]);
            let ev = taken@.map_values(|e: usize| es[e as int].2);
            assert(order@.take(order@.len() as int) =~= order@);
            assert(taken@.take(taken@.len() as int) =~= taken@);
            assert(subgraph_view(sub).0 == nv);
            assert(subgraph_view(sub).1 == ev);
            assert forall|k: int| 0 <= k < sub.edges@.len() implies stored_edge(es, #[trigger] sub.edges@[k]) by {
                let e = taken@[k] as int;
                assert(ev[k] == es[e].2);
                assert(sub.edges@[k]@ == subgraph_view(sub).1[k]);
            }
            assert(names.index_of(seed@) == start as int);
            assert(nv[0] == seed@);
            assert(nv.no_duplicates()) by {
                assert forall|a: int, b: int| 0 <= a < nv.len() && 0 <= b < nv.len() && a != b implies nv[a] != nv[b] by {
                    assert(order@[a] != order@[b]);
                }
            }
            assert forall|x: Seq<char>| nv.contains(x) <==> expanded_node(names, es, start, depth, x) by {
                if nv.contains(x) {
                    let k = choose|k: int| 0 <= k < nv.len() && nv[k] == x;
                    lemma_index_of_distinct(names, order@[k] as int);
                }
                if expanded_node(names, es, start, depth, x) {
                    let i = names.index_of(x);
                    assert(0 <= i < names.len() && names[i] == x);
                    assert(order@.contains(i as usize));
                    let k = choose|k: int| 0 <= k < order@.len() && order@[k] == i as usize;
                    assert(nv[k] == x);
                }
            }
            assert(ev.no_duplicates()) by {
                assert forall|a: int, b: int| 0 <= a < ev.len() && 0 <= b < ev.len() && a != b implies ev[a] != ev[b] by {
                    let ea = taken@[a] as int;
                    let eb = taken@[b] as int;
                    assert(ea != eb);
                    if es[ea].2 == es[eb].2 {
                        assert(names[es[ea].0 as int] == names[es[eb].0 as int]);
                        assert(names[es[ea].1 as int] == names[es[eb].1 as int]);
                        assert(!same_slot(es[ea], es[eb].0, es[eb].1, es[eb].2.2));
                    }
                }
            }
            assert forall|t: EdgeTriple| ev.contains(t) <==> expanded_edge(es, start, depth, t) by {
                if ev.contains(t) {
                    let k = choose|k: int| 0 <= k < ev.len() && ev[k] == t;
                    assert(taken@.contains(taken@[k]));
                    assert(es[taken@[k] as int].2 == t);
                }
                if expanded_edge(es, start, depth, t) {
                    let e = choose|e: int|
                        0 <= e < es.len() && (#[trigger] es[e]).2 == t && reachable_within(
                            es,
                            start,
                            es[e].0,
                            (depth - 1) as nat,
                        );
                    assert(taken@.contains(e as usize));
                    let k = choose|k: int| 0 <= k < taken@.len() && taken@[k] == e as usize;
                    assert(ev[k] == t);
                }
            }
        }
        Ok(sub)
    }

    /// The breadth-first walk from node `start`, layer by layer for at most
    /// `depth` layers: the node indices within `depth` hops, `start` first,
    /// and the indices of the edges leaving nodes within `depth - 1` hops.
    fn breadth_first(g: &EntityGraph, start: usize, depth: usize) -> (walk: (Vec<usize>, Vec<usize>))
        requires
            wf_model(graph_nodes(*g), graph_edges(*g)),
            start < graph_nodes(*g).len(),
        ensures
            walk.0@.len() > 0,
            walk.0@[0] == start,
            walk.0@.no_duplicates(),
            forall|k: int| 0 <= k < walk.0@.len() ==> (#[trigger] walk.0@[k]) < graph_nodes(*g).len()
                && reachable_within(graph_edges(*g), start, walk.0@[k], depth as nat),
            forall|i: usize|
                #[trigger] reachable_within(graph_edges(*g), start, i, depth as nat) ==> walk.0@.contains(i),
            walk.1@.no_duplicates(),
            forall|k: int| 0 <= k < walk.1@.len() ==> (#[trigger] walk.1@[k]) < graph_edges(*g).len(),
            forall|e: int|
                0 <= e < graph_edges(*g).len() ==> (walk.1@.contains(e as usize) <==> (depth > 0
                    && reachable_within(graph_edges(*g), start, (#[trigger] graph_edges(*g)[e]).0, (depth - 1) as nat))),
    {
        let ghost names = graph_nodes(*g);
        let ghost es = graph_edges(*g);
        let n = node_count(g);
        let mut visited: Vec<bool> = Vec::new();
        while visited.len() < n
            invariant
                visited.len() <= n,
                forall|k: int| 0 <= k < visited.len() ==> !visited@[k],
            decreases n - visited.len(),
        {
            visited.push(false);
        }
        visited.set(start, true);
        let mut order: Vec<usize> = Vec::new();
        order.push(start);
        let mut taken: Vec<usize> = Vec::new();
        let mut lo: usize = 0;
        let mut hi: usize = 1;
        let mut r: usize = 0;
        proof {
            assert forall|i: usize| #[trigger] reachable_within(es, start, i, 0) implies i < n && visited@[i as int] by {}
            assert forall|i: int| 0 <= i < n && visited@[i] implies order@.contains(i as usize) by {
                assert(order@[0] == start);
            }
        }
        while r < depth && lo < hi
            invariant
                wf_model(names, es),
                names == graph_nodes(*g),
                es == graph_edges(*g),
                n == names.len(),
                start < n,
                r <= depth,
                visited@.len() == n,
                lo <= hi,
                0 < hi,
                hi == order@.len(),
                order@[0] == start,
                order@.no_duplicates(),
                forall|k: int| 0 <= k < order@.len() ==> (#[trigger] order@[k]) < n && visited@[order@[k] as int],
                forall|i: int| 0 <= i < n && visited@[i] ==> order@.contains(i as usize),
                forall|k: int| 0 <= k < order@.len() ==> reachable_within(es, start, #[trigger] order@[k], r as nat),
                forall|i: usize| #[trigger] reachable_within(es, start, i, r as nat) ==> i < n && visited@[i as int],
                r == 0 ==> lo == 0 && hi == 1,
                r > 0 ==> forall|k: int| 0 <= k < lo ==> reachable_within(es, start, #[trigger] order@[k], (r - 1) as nat),
                r > 0 ==> forall|i: usize|
                    #[trigger] reachable_within(es, start, i, (r - 1) as nat) ==> order@.take(lo as int).contains(i),
                taken@.no_duplicates(),
                forall|k: int| 0 <= k < taken@.len() ==> (#[trigger] taken@[k]) < es.len(),
                forall|e: int|
                    0 <= e < es.len() ==> (taken@.contains(e as usize) <==> order@.take(lo as int).contains(
                        (#[trigger] es[e]).0,
                    )),
                forall|e: int| 0 <= e < es.len() && #[trigger] taken@.contains(e as usize) ==> visited@[es[e].1 as int],
            decreases depth - r,
        {
            let ghost order0 = order@;
            let ghost r0 = r;
            proof {
                assert forall|i: usize| #[trigger] reachable_within(es, start, i, r as nat) implies order0.contains(i) by {}
            }
            let mut k: usize = lo;
            while k < hi
                invariant
                    wf_model(names, es),
                    names == graph_nodes(*g),
                    es == graph_edges(*g),
                    n == names.len(),
                    start < n,
                    r == r0,
                    r < depth,
                    visited@.len() == n,
                    lo <= k <= hi,
                    0 < hi,
                    hi == order0.len(),
                    hi <= order@.len(),
                    forall|q: int| 0 <= q < hi ==> order@[q] == order0[q],
                    order@.no_duplicates(),
                    forall|q: int| 0 <= q < order@.len() ==> (#[trigger] order@[q]) < n && visited@[order@[q] as int],
                    forall|i: int| 0 <= i < n && visited@[i] ==> order@.contains(i as usize),
                    forall|q: int| 0 <= q < hi ==> reachable_within(es, start, #[trigger] order0[q], r as nat),
                    forall|q: int|
                        hi <= q < order@.len() ==> reachable_within(es, start, #[trigger] order@[q], (r + 1) as nat),
                    forall|i: usize| #[trigger] reachable_within(es, start, i, r as nat) ==> order0.contains(i),
                    taken@.no_duplicates(),
                    forall|q: int| 0 <= q < taken@.len() ==> (#[trigger] taken@[q]) < es.len(),
                    forall|e: int|
                        0 <= e < es.len() ==> (taken@.contains(e as usize) <==> order0.take(k as int).contains(
                            (#[trigger] es[e]).0,
                        )),
                    forall|e: int| 0 <= e < es.len() && #[trigger] taken@.contains(e as usize) ==> visited@[es[e].1 as int],
                decreases hi - k,
            {
                let node = order[k];
                proof {
                    assert(node == order0[k as int]);
                }
                let outs = outgoing_edges(g, node);
                proof {
                    lemma_out_edges_decreasing(es, node, es.len());
                }
                let ghost taken0 = taken@;
                let mut j: usize = 0;
                while j < outs.len()
                    invariant
                        wf_model(names, es),
                        names == graph_nodes(*g),
                        es == graph_edges(*g),
                        n == names.len(),
                        node < n,
                        node == order0[k as int],
                        lo <= k < hi,
                        r == r0,
                        visited@.len() == n,
                        hi == order0.len(),
                        hi <= order@.len(),
                        forall|q: int| 0 <= q < hi ==> order@[q] == order0[q],
                        order0.no_duplicates(),
                        order@.no_duplicates(),
                        forall|q: int| 0 <= q < order@.len() ==> (#[trigger] order@[q]) < n && visited@[order@[q] as int],
                        forall|i: int| 0 <= i < n && visited@[i] ==> order@.contains(i as usize),
                        forall|q: int| 0 <= q < hi ==> reachable_within(es, start, #[trigger] order0[q], r as nat),
                        forall|q: int|
                            hi <= q < order@.len() ==> reachable_within(es, start, #[trigger] order@[q], (r + 1) as nat),
                        outs@ == outgoing(es, node),
                        forall|a: int, b: int| 0 <= a < b < outs@.len() ==> outs@[a].0 > outs@[b].0,
                        j <= outs@.len(),
                        taken@ == taken0 + outs@.take(j as int).map_values(|p: (usize, usize)| p.0),
                        taken@.no_duplicates(),
                        forall|q: int| 0 <= q < taken@.len() ==> (#[trigger] taken@[q]) < es.len(),
                        taken0.no_duplicates(),
                        forall|q: int| 0 <= q < taken0.len() ==> (#[trigger] taken0[q]) < es.len(),
                        forall|e: int|
                            0 <= e < es.len() ==> (taken0.contains(e as usize) <==> order0.take(k as int).contains(
                                (#[trigger] es[e]).0,
                            )),
                        forall|e: int| 0 <= e < es.len() && #[trigger] taken0.contains(e as usize) ==> visited@[es[e].1 as int],
                        forall|q: int| 0 <= q < j ==> visited@[(#[trigger] outs@[q]).1 as int],
                    decreases outs.len() - j,
                {
                    let pair = outs[j];
                    let e = pair.0;
                    let t = pair.1;
                    proof {
                        assert(outs@.contains(pair));
                        lemma_out_edges_membership(es, node, es.len(), e, t);
                        assert(es[e as int].1 < n);
                    }
                    let ghost tk = taken@;
                    proof {
                        assert(!tk.contains(e)) by {
                            if taken0.contains(e) {
                                assert(order0.take(k as int).contains(es[e as int].0));
                                let q = choose|q: int| 0 <= q < k && #[trigger] order0.take(k as int)[q] == node;
                                assert(order0[q] == order0[k as int]);
                            }
                            if outs@.take(j as int).map_values(|p: (usize, usize)| p.0).contains(e) {
                                let ids_j = outs@.take(j as int).map_values(|p: (usize, usize)| p.0);
                                let q = choose|q: int| 0 <= q < ids_j.len() && #[trigger] ids_j[q] == e;
                                assert(outs@[q].0 > outs@[j as int].0);
                            }
                        }
                    }
                    taken.push(e);
                    let ghost vb = visited@;
                    if !visited[t] {
                        let ghost ob = order@;
                        proof {
                            assert(!ob.contains(t)) by {
                                if ob.contains(t) {
                                    let q = choose|q: int| 0 <= q < ob.len() && ob[q] == t;
                                }
                            }
                            assert(reachable_within(es, start, t, (r + 1) as nat)) by {
                                assert(es[e as int].1 == t);
                                assert(reachable_within(es, start, es[e as int].0, r as nat));
                            }
                        }
                        visited.set(t, true);
                        order.push(t);
                        proof {
                            assert forall|a: int, b: int| 0 <= a < order@.len() && 0 <= b < order@.len() && a != b implies order@[a] != order@[b] by {
                                if a == ob.len() {
                                    assert(ob.contains(ob[b]));
                                } else if b == ob.len() {
                                    assert(ob.contains(ob[a]));
                                }
                            }
                            assert forall|i: int| 0 <= i < n && visited@[i] implies order@.contains(i as usize) by {
                                if i == t as int {
                                    assert(order@[ob.len() as int] == t);
                                } else {
                                    let q = choose|q: int| 0 <= q < ob.len() && ob[q] == i as usize;
                                    assert(order@[q] == i as usize);
                                }
                            }
                        }
                    }
                    proof {
                        assert(visited@[t as int]);
                        assert forall|q: int| 0 <= q < j + 1 implies visited@[(#[trigger] outs@[q]).1 as int] by {
                            assert(outs@.contains(outs@[q]));
                            lemma_out_edges_membership(es, node, es.len(), outs@[q].0, outs@[q].1);
                            if q < j {
                                assert(vb[outs@[q].1 as int]);
                            } else {
                                assert(outs@[q] == pair);
                            }
                        }
                        assert(outs@.take(j + 1).map_values(|p: (usize, usize)| p.0) =~= outs@.take(j as int).map_values(
                            |p: (usize, usize)| p.0,
                        ).push(e));
                        assert(taken@ =~= tk.push(e));
                        assert forall|a: int, b: int| 0 <= a < taken@.len() && 0 <= b < taken@.len() && a != b implies taken@[a] != taken@[b] by {
                            if a == tk.len() {
                                assert(tk.contains(tk[b]));
                            } else if b == tk.len() {
                                assert(tk.contains(tk[a]));
                            } else {
                                if a < taken0.len() && b < taken0.len() {
                                } else if a >= taken0.len() && b >= taken0.len() {
                                    assert(tk[a] == outs@[a - taken0.len()].0);
                                    assert(tk[b] == outs@[b - taken0.len()].0);
                                } else {
                                    let (x, y) = if a < taken0.len() { (a, b) } else { (b, a) };
                                    let jy = y - taken0.len();
                                    assert(tk[y] == outs@[jy].0);
                                    assert(outs@.contains(outs@[jy]));
                                    lemma_out_edges_membership(es, node, es.len(), outs@[jy].0, outs@[jy].1);
                                    if tk[x] == tk[y] {
                                        assert(taken0[x] == tk[y]);
                                        assert(taken0.contains(tk[y]));
                                        assert(order0.take(k as int).contains(node));
                                        let q = choose|q: int| 0 <= q < k && #[trigger] order0.take(k as int)[q] == node;
                                        assert(order0[q] == order0[k as int]);
                                    }
                                }
                            }
                        }
                        assert forall|q: int| 0 <= q < taken@.len() implies (#[trigger] taken@[q]) < es.len() by {
                            if q >= taken0.len() && q < tk.len() {
                                let jj = q - taken0.len();
                                assert(tk[q] == outs@[jj].0);
                                assert(outs@.contains(outs@[jj]));
                                lemma_out_edges_membership(es, node, es.len(), outs@[jj].0, outs@[jj].1);
                            }
                        }
                    }
                    j = j + 1;
                }
                proof {
                    assert(outs@.take(outs@.len() as int) =~= outs@);
                    let ids = outs@.map_values(|p: (usize, usize)| p.0);
                    assert(order0.take(k + 1) =~= order0.take(k as int).push(node));
                    assert forall|e: int|
                        0 <= e < es.len() implies (taken@.contains(e as usize) <==> order0.take(k + 1).contains(
                            (#[trigger] es[e]).0,
                        )) by {
                        if ids.contains(e as usize) {
                            let q = choose|q: int| 0 <= q < ids.len() && ids[q] == e as usize;
                            assert(outs@.contains(outs@[q]));
                            lemma_out_edges_membership(es, node, es.len(), outs@[q].0, outs@[q].1);
                            assert(order0.take(k + 1)[k as int] == node);
                        }
                        if es[e].0 == node {
                            lemma_out_edges_membership(es, node, es.len(), e as usize, es[e].1);
                            let q = choose|q: int| 0 <= q < outs@.len() && outs@[q] == (e as usize, es[e].1);
                            assert(ids[q] == e as usize);
                            assert(taken@[taken0.len() + q] == e as usize);
                        }
                        if taken@.contains(e as usize) {
                            let q = choose|q: int| 0 <= q < taken@.len() && taken@[q] == e as usize;
                            if q < taken0.len() {
                                assert(taken0[q] == e as usize);
                            } else {
                                assert(ids[q - taken0.len()] == e as usize);
                            }
                        }
                        if order0.take(k + 1).contains(es[e].0) && es[e].0 != node {
                            let q = choose|q: int| 0 <= q < k + 1 && #[trigger] order0.take(k + 1)[q] == es[e].0;
                            assert(order0.take(k as int)[q] == es[e].0);
                        }
                        if taken0.contains(e as usize) {
                            let q = choose|q: int| 0 <= q < taken0.len() && taken0[q] == e as usize;
                            assert(taken@[q] == e as usize);
                        }
                    }
                    assert forall|e: int| 0 <= e < es.len() && #[trigger] taken@.contains(e as usize) implies visited@[es[e].1 as int] by {
                        let q = choose|q: int| 0 <= q < taken@.len() && taken@[q] == e as usize;
                        if q < taken0.len() {
                            assert(taken0.contains(e as usize));
                        } else {
                            let jj = q - taken0.len();
                            assert(outs@[jj].0 == e as usize);
                            assert(outs@.contains(outs@[jj]));
                            lemma_out_edges_membership(es, node, es.len(), outs@[jj].0, outs@[jj].1);
                        }
                    }
                }
                k = k + 1;
            }
            proof {
                assert(order0.take(hi as int) =~= order0);
                let new_order = order@;
                assert forall|q: int| 0 <= q < new_order.len() implies reachable_within(es, start, #[trigger] new_order[q], (r + 1) as nat) by {
                    if q < hi {
                        assert(new_order[q] == order0[q]);
                        lemma_reachable_monotone(es, start, order0[q], r as nat, (r + 1) as nat);
                    }
                }
                assert forall|i: usize| #[trigger] reachable_within(es, start, i, (r + 1) as nat) implies i < n && visited@[i as int] by {
                    if i == start {
                        assert(new_order[0] == order0[0]);
                    } else {
                        let ei = choose|ei: int|
                            0 <= ei < es.len() && (#[trigger] es[ei]).1 == i && reachable_within(
                                es,
                                start,
                                es[ei].0,
                                r as nat,
                            );
                        assert(order0.contains(es[ei].0));
                        assert(taken@.contains(ei as usize));
                    }
                }
                assert forall|i: usize| #[trigger] reachable_within(es, start, i, r as nat) implies order@.take(hi as int).contains(i) by {
                    assert(order0.contains(i));
                    let q = choose|q: int| 0 <= q < order0.len() && order0[q] == i;
                    assert(order@.take(hi as int)[q] == i);
                }
                assert(order@.take(hi as int) =~= order0);
                assert forall|q: int| 0 <= q < hi implies reachable_within(es, start, #[trigger] order@[q], r as nat) by {
                    assert(order@[q] == order0[q]);
                }
            }
            lo = hi;
            hi = order.len();
            r = r + 1;
        }
        proof {
            if r < depth {
                assert(lo == hi);
                assert(r > 0);
                assert(order@.take(lo as int) =~= order@);
                let d = (r - 1) as nat;
                assert forall|y: usize| #[trigger] reachable_within(es, start, y, d + 1) implies reachable_within(es, start, y, d) by {
                    assert(order@.take(lo as int).contains(y));
                    let q = choose|q: int| 0 <= q < lo && #[trigger] order@.take(lo as int)[q] == y;
                    assert(reachable_within(es, start, order@[q], d));
                }
                assert forall|i: usize| #[trigger] reachable_within(es, start, i, depth as nat) implies order@.contains(i) by {
                    lemma_reachable_stable(es, start, d, depth as nat, i);
                    assert(order@.take(lo as int).contains(i));
                }
                assert forall|k: int| 0 <= k < order@.len() implies (#[trigger] order@[k]) < n && reachable_within(es, start, order@[k], depth as nat) by {
                    lemma_reachable_monotone(es, start, order@[k], r as nat, depth as nat);
                }
                assert forall|e: int| 0 <= e < es.len() implies (taken@.contains(e as usize) <==> (depth > 0
                    && reachable_within(es, start, (#[trigger] es[e]).0, (depth - 1) as nat))) by {
                    if taken@.contains(e as usize) {
                        let q = choose|q: int| 0 <= q < lo && #[trigger] order@.take(lo as int)[q] == es[e].0;
                        lemma_reachable_monotone(es, start, es[e].0, d, (depth - 1) as nat);
                    }
                    if depth > 0 && reachable_within(es, start, es[e].0, (depth - 1) as nat) {
                        lemma_reachable_stable(es, start, d, (depth - 1) as nat, es[e].0);
                    }
                }
            } else {
                assert(r == depth);
                assert forall|i: usize| #[trigger] reachable_within(es, start, i, depth as nat) implies order@.contains(i) by {
                    assert(order@.contains(i as usize));
                }
                assert forall|e: int| 0 <= e < es.len() implies (taken@.contains(e as usize) <==> (depth > 0
                    && reachable_within(es, start, (#[trigger] es[e]).0, (depth - 1) as nat))) by {
                    if taken@.contains(e as usize) {
                        assert(order@.take(lo as int).contains(es[e].0));
                        let q = choose|q: int| 0 <= q < order@.take(lo as int).len() && #[trigger] order@.take(lo as int)[q] == es[e].0;
                        assert(order@.take(lo as int)[q] == order@[q]);
                        assert(r > 0);
                        assert(reachable_within(es, start, order@[q], (r - 1) as nat));
                    }
                    if depth > 0 && reachable_within(es, start, es[e].0, (depth - 1) as nat) {
                        assert(order@.take(lo as int).contains(es[e].0));
                    }
                }
            }
        }
        (order, taken)
    }

    /// Number of outgoing edges of `entity`, or 0 when it is unknown.
    pub fn out_degree(&self, entity: &str) -> (d: usize)
        ensures
            d == out_degree_model(self.names(), self.edges(), entity@),
    {
        proof {
            use_type_invariant(self);
        }
        let name = entity.to_owned();
        match Self::find_node(&self.graph, &name) {
            Some(i) => outgoing_edges(&self.graph, i).len(),
            None => 0,
        }
    }

    /// The largest out-degree of any entity, or 0 for an empty graph.
    pub fn max_out_degree(&self) -> (d: usize)
        ensures
            d == max_degree_upto(self.edges(), self.names().len()),
            forall|x: Seq<char>| #[trigger] out_degree_model(self.names(), self.edges(), x) <= d,
            self.names().len() > 0 ==> exists|x: Seq<char>|
                self.names().contains(x) && #[trigger] out_degree_model(self.names(), self.edges(), x) == d,
            self.names().len() == 0 ==> d == 0,
    {
        proof {
            use_type_invariant(self);
            law_max_degree_attained(self.names(), self.edges());
        }
        let n = node_count(&self.graph);
        let mut best: usize = 0;
        let mut i: usize = 0;
        while i < n
            invariant
                n == graph_nodes(self.graph).len(),
                i <= n,
                best == max_degree_upto(graph_edges(self.graph), i as nat),
            decreases n - i,
        {
            let d = outgoing_edges(&self.graph, i).len();
            if d > best {
                best = d;
            }
            i = i + 1;
        }
        best
    }

    /// The parts of the normalised out-degree centrality of `entity`:
    /// `None` when no entity has an outgoing edge (centrality 0), otherwise
    /// `Some((degree, max))` with `degree <= max` and `max > 0`.
    pub fn centrality_parts(&self, entity: &str) -> (parts: Option<(usize, usize)>)
        ensures
            match parts {
                None => max_degree_upto(self.edges(), self.names().len()) == 0,
                Some((degree, max)) => {
                    &&& max == max_degree_upto(self.edges(), self.names().len())
                    &&& max > 0
                    &&& degree == out_degree_model(self.names(), self.edges(), entity@)
                    &&& degree <= max
                },
            },
    {
        proof {
            use_type_invariant(self);
            law_degree_at_most_max(self.names(), self.edges(), entity@);
        }
        let max = self.max_out_degree();
        if max == 0 {
            return None;
        }
        let degree = self.out_degree(entity);
        Some((degree, max))
    }
}

} // verus!
