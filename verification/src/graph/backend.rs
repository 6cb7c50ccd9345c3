//! The `petgraph` directed graph that backs [`crate::graph::inmem::InMemoryGraph`],
//! seen through the node names and edge triples it holds.

use petgraph::graph::{EdgeIndex, Graph, NodeIndex};
use petgraph::visit::EdgeRef;
use petgraph::{Directed, Direction};
use vstd::prelude::*;

use std::time::SystemTime;

use crate::graph::store::GraphEdge;

verus! {

/// `petgraph::graph::Graph`, declared so that it can stand in fields and
/// signatures; its contents are seen through [`graph_nodes`] and [`graph_edges`].
#[verifier::external_type_specification]
#[verifier::external_body]
#[verifier::reject_recursive_types(N)]
#[verifier::reject_recursive_types(E)]
#[verifier::reject_recursive_types(Ty)]
#[verifier::reject_recursive_types(Ix)]
pub struct ExGraph<N, E, Ty, Ix>(Graph<N, E, Ty, Ix>);

/// `petgraph::Directed`, the edge-type marker of directed graphs.
#[verifier::external_type_specification]
#[verifier::external_body]
pub struct ExDirected(Directed);

/// The directed entity graph: node weights are entity names, edge weights
/// are the edges that were stored.
pub type EntityGraph = Graph<String, GraphEdge, Directed, u32>;

/// One stored edge: `(source node index, target node index, (src, dst, kind),
/// observation time)`.
pub type EdgeEntry = (usize, usize, (Seq<char>, Seq<char>, Seq<char>), SystemTime);

/// The node weights of a graph, in node-index order.
pub uninterp spec fn graph_nodes(g: Graph<String, GraphEdge, Directed, u32>) -> Seq<Seq<char>>;

/// The edges of a graph, in edge-index order, each with its endpoints and its
/// weight: the weight's `(src, dst, kind)` and timestamp.
pub uninterp spec fn graph_edges(g: Graph<String, GraphEdge, Directed, u32>) -> Seq<(usize, usize, (Seq<char>, Seq<char>, Seq<char>), SystemTime)>;

/// The outgoing edges of `node` among the first `upto` edges, as
/// `(edge index, target)` pairs, most recently added first.
pub open spec fn out_edges(edges: Seq<EdgeEntry>, node: usize, upto: nat) -> Seq<(usize, usize)>
    decreases upto,
{
    if upto == 0 || upto > edges.len() {
        Seq::empty()
    } else {
        let i = (upto - 1) as int;
        let rest = out_edges(edges, node, (upto - 1) as nat);
        if edges[i].0 == node {
            seq![(i as usize, edges[i].1)] + rest
        } else {
            rest
        }
    }
}

/// All outgoing edges of `node`, most recently added first.
pub open spec fn outgoing(edges: Seq<EdgeEntry>, node: usize) -> Seq<(usize, usize)> {
    out_edges(edges, node, edges.len())
}

/// The indices of the edges from `a` to `b` among the first `upto` edges,
/// most recently added first.
pub open spec fn connecting_upto(edges: Seq<EdgeEntry>, a: usize, b: usize, upto: nat) -> Seq<usize>
    decreases upto,
{
    if upto == 0 || upto > edges.len() {
        Seq::empty()
    } else {
        let i = (upto - 1) as int;
        let rest = connecting_upto(edges, a, b, (upto - 1) as nat);
        if edges[i].0 == a && edges[i].1 == b {
            seq![i as usize] + rest
        } else {
            rest
        }
    }
}

/// The edges from `a` to `b`, as edge indices, most recently added first:
/// the outgoing edges of `a` whose target is `b`.
pub open spec fn connecting(edges: Seq<EdgeEntry>, a: usize, b: usize) -> Seq<usize> {
    connecting_upto(edges, a, b, edges.len())
}

/// `Graph::new`: an empty directed graph.
#[verifier::external_body]
pub(crate) fn new_graph() -> (g: EntityGraph)
    ensures
        graph_nodes(g) == Seq::<Seq<char>>::empty(),
        graph_edges(g) == Seq::<EdgeEntry>::empty(),
{
    Graph::new()
}

/// `Graph::node_count`: the number of nodes.
#[verifier::external_body]
pub(crate) fn node_count(g: &EntityGraph) -> (n: usize)
    ensures
        n == graph_nodes(*g).len(),
{
    g.node_count()
}

/// `Graph::edge_count`: the number of edges.
#[verifier::external_body]
pub(crate) fn edge_count(g: &EntityGraph) -> (n: usize)
    ensures
        n == graph_edges(*g).len(),
{
    g.edge_count()
}

/// `Graph::add_node`: appends a node and returns its index. The graph
/// panics once `u32::MAX` nodes exist, so that is excluded.
#[verifier::external_body]
pub(crate) fn add_node(g: &mut EntityGraph, name: String) -> (ix: usize)
    requires
        graph_nodes(*old(g)).len() < u32::MAX,
    ensures
        ix == graph_nodes(*old(g)).len(),
        graph_nodes(*final(g)) == graph_nodes(*old(g)).push(name@),
        graph_edges(*final(g)) == graph_edges(*old(g)),
{
    g.add_node(name).index()
}

/// `Graph::add_edge`: appends an edge from `a` to `b` and returns its index.
/// The graph panics on a missing endpoint or once `u32::MAX` edges exist.
#[verifier::external_body]
pub(crate) fn add_edge(g: &mut EntityGraph, a: usize, b: usize, weight: GraphEdge) -> (ix: usize)
    requires
        a < graph_nodes(*old(g)).len(),
        b < graph_nodes(*old(g)).len(),
        graph_edges(*old(g)).len() < u32::MAX,
    ensures
        ix == graph_edges(*old(g)).len(),
        graph_nodes(*final(g)) == graph_nodes(*old(g)),
        graph_edges(*final(g)) == graph_edges(*old(g)).push((a, b, weight@, weight.ts)),
{
    g.add_edge(NodeIndex::new(a), NodeIndex::new(b), weight).index()
}

/// `IndexMut<EdgeIndex>` on `Graph`: replaces the weight of edge `e`,
/// keeping its endpoints. Panics on a missing edge, which is excluded.
#[verifier::external_body]
pub(crate) fn set_edge_weight(g: &mut EntityGraph, e: usize, weight: GraphEdge)
    requires
        e < graph_edges(*old(g)).len(),
    ensures
        graph_nodes(*final(g)) == graph_nodes(*old(g)),
        graph_edges(*final(g)) == graph_edges(*old(g)).update(
            e as int,
            (graph_edges(*old(g))[e as int].0, graph_edges(*old(g))[e as int].1, weight@, weight.ts),
        ),
{
    g[EdgeIndex::new(e)] = weight;
}

/// `Index<NodeIndex>` on `Graph`: the name stored at node `i`.
#[verifier::external_body]
pub(crate) fn node_name(g: &EntityGraph, i: usize) -> (name: &String)
    requires
        i < graph_nodes(*g).len(),
    ensures
        name@ == graph_nodes(*g)[i as int],
{
    &g[NodeIndex::new(i)]
}

/// `Index<EdgeIndex>` on `Graph`: the weight stored at edge `e`.
#[verifier::external_body]
pub(crate) fn edge_weight(g: &EntityGraph, e: usize) -> (weight: &GraphEdge)
    requires
        e < graph_edges(*g).len(),
    ensures
        weight@ == graph_edges(*g)[e as int].2,
        weight.ts == graph_edges(*g)[e as int].3,
{
    &g[EdgeIndex::new(e)]
}

/// `Graph::edges_directed(node, Outgoing)`: the outgoing edges of `node`
/// as `(edge index, target)` pairs, in petgraph's documented order (most
/// recently added first).
#[verifier::external_body]
pub(crate) fn outgoing_edges(g: &EntityGraph, node: usize) -> (out: Vec<(usize, usize)>)
    requires
        node < graph_nodes(*g).len(),
    ensures
        out@ == outgoing(graph_edges(*g), node),
{
    g.edges_directed(NodeIndex::new(node), Direction::Outgoing)
        .map(|edge| (edge.id().index(), edge.target().index()))
        .collect()
}

/// `Graph::edges_connecting(a, b)`: the indices of the edges from `a` to
/// `b` (in a directed graph, the outgoing edges of `a` whose target is
/// `b`), most recently added first.
#[verifier::external_body]
pub(crate) fn connecting_edges(g: &EntityGraph, a: usize, b: usize) -> (out: Vec<usize>)
    requires
        a < graph_nodes(*g).len(),
        b < graph_nodes(*g).len(),
    ensures
        out@ == connecting(graph_edges(*g), a, b),
{
    g.edges_connecting(NodeIndex::new(a), NodeIndex::new(b)).map(|edge| edge.id().index()).collect()
}

} // verus!
