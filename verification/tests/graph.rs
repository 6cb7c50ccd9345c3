use std::time::{Duration, UNIX_EPOCH};

use rig_resources::graph::skills::{distinct_neighbour_count, GraphExpansionConfig};
use rig_resources::graph::tool::default_depth;
use rig_resources::{GraphEdge, GraphError, InMemoryGraph, Subgraph};

const FIXTURE_EDGES: &[(&str, &str, &str)] = &[
    ("host-a", "host-b", "auth.success"),
    ("host-a", "host-c", "process.spawn"),
    ("host-a", "host-d", "net.connect"),
    ("host-b", "host-e", "auth.success"),
    ("host-c", "svc-payments", "dns.query"),
    ("svc-payments", "db-ledger", "sql.connect"),
];

fn fixture_graph() -> InMemoryGraph {
    let mut graph = InMemoryGraph::new();
    for (src, dst, kind) in FIXTURE_EDGES {
        graph.upsert_edge(GraphEdge::new(src, dst, kind));
    }
    graph
}

fn sorted_nodes(sub: &Subgraph) -> Vec<String> {
    let mut nodes = sub.nodes.clone();
    nodes.sort();
    nodes
}

#[test]
fn upsert_is_idempotent_per_kind() {
    let mut graph = InMemoryGraph::new();
    graph.upsert_edge(GraphEdge::new("a", "b", "auth"));
    graph.upsert_edge(GraphEdge::new("a", "b", "auth"));
    graph.upsert_edge(GraphEdge::new("a", "b", "spawn"));
    assert_eq!(graph.node_count(), 2);
    assert_eq!(graph.edge_count(), 2);
}

#[test]
fn expand_unknown_seed_is_not_found() {
    let graph = fixture_graph();
    match graph.expand("nobody", 2) {
        Err(GraphError::NotFound(name)) => assert_eq!(name, "nobody"),
        Ok(_) => panic!("unknown seed expanded"),
    }
}

#[test]
fn expand_depth_zero_returns_only_seed() {
    let graph = fixture_graph();
    let sub = graph.expand("host-a", 0).unwrap();
    assert_eq!(sub.seed, "host-a");
    assert_eq!(sub.nodes, vec!["host-a".to_string()]);
    assert!(sub.edges.is_empty());
}

#[test]
fn expand_depth_one_reaches_direct_neighbours() {
    let graph = fixture_graph();
    let sub = graph.expand("host-a", 1).unwrap();
    assert_eq!(sub.nodes[0], "host-a");
    assert_eq!(
        sorted_nodes(&sub),
        vec!["host-a", "host-b", "host-c", "host-d"]
    );
    assert_eq!(sub.edges.len(), 3);
    assert!(sub.edges.iter().all(|e| e.src == "host-a"));
}

#[test]
fn expand_depth_two_reaches_second_hop_only() {
    let graph = fixture_graph();
    let sub = graph.expand("host-a", default_depth()).unwrap();
    assert_eq!(default_depth(), 2);
    assert_eq!(
        sorted_nodes(&sub),
        vec!["host-a", "host-b", "host-c", "host-d", "host-e", "svc-payments"]
    );
    assert!(!sub.nodes.iter().any(|n| n == "db-ledger"));
    assert_eq!(sub.edges.len(), 5);
    // Every edge of the expansion runs between expanded nodes.
    for e in &sub.edges {
        assert!(sub.nodes.contains(&e.src));
        assert!(sub.nodes.contains(&e.dst));
    }
}

#[test]
fn expand_follows_edges_in_their_direction_only() {
    let graph = fixture_graph();
    let sub = graph.expand("db-ledger", 3).unwrap();
    assert_eq!(sub.nodes, vec!["db-ledger".to_string()]);
    assert!(sub.edges.is_empty());
}

#[test]
fn degrees_and_centrality_parts() {
    let graph = fixture_graph();
    assert_eq!(graph.node_count(), 7);
    assert_eq!(graph.edge_count(), 6);
    assert_eq!(graph.out_degree("host-a"), 3);
    assert_eq!(graph.out_degree("host-b"), 1);
    assert_eq!(graph.out_degree("db-ledger"), 0);
    assert_eq!(graph.out_degree("nobody"), 0);
    assert_eq!(graph.max_out_degree(), 3);
    assert_eq!(graph.centrality_parts("host-a"), Some((3, 3)));
    assert_eq!(graph.centrality_parts("host-b"), Some((1, 3)));
    assert_eq!(graph.centrality_parts("nobody"), Some((0, 3)));
}

#[test]
fn centrality_of_edgeless_graph_is_none() {
    let graph = InMemoryGraph::new();
    assert_eq!(graph.max_out_degree(), 0);
    assert_eq!(graph.centrality_parts("anything"), None);
}

#[test]
fn upsert_replaces_edge_of_same_kind() {
    let mut graph = InMemoryGraph::new();
    graph.upsert_edge(GraphEdge::new("a", "b", "auth"));
    graph.upsert_edge(GraphEdge::new("a", "b", "auth"));
    let sub = graph.expand("a", 1).unwrap();
    assert_eq!(sub.edges.len(), 1);
    assert_eq!(sub.edges[0].kind, "auth");
    assert_eq!(graph.out_degree("a"), 1);
}

#[test]
fn multi_host_fanout_counts_distinct_neighbours() {
    let mut graph = InMemoryGraph::new();
    for target in ["h1", "h2", "h3", "h4"] {
        graph.upsert_edge(GraphEdge::new("attacker", target, "auth"));
    }
    let sub = graph.expand("attacker", default_depth()).unwrap();
    assert_eq!(distinct_neighbour_count(&sub.nodes, "attacker"), 4);
}

#[test]
fn distinct_neighbour_count_skips_seed_and_repeats() {
    let nodes: Vec<String> = ["seed", "x", "y", "x", "seed", "z"]
        .iter()
        .map(|s| s.to_string())
        .collect();
    assert_eq!(distinct_neighbour_count(&nodes, "seed"), 3);
    assert_eq!(distinct_neighbour_count(&Vec::new(), "seed"), 0);
}

#[test]
fn expansion_config_fires_at_threshold() {
    let cfg = GraphExpansionConfig::default();
    assert_eq!(cfg.depth, 2);
    assert_eq!(cfg.fanout_threshold, 3);
    assert!((f32::from_bits(cfg.min_confidence.0) - 0.4).abs() < 1e-6);
    assert!((f32::from_bits(cfg.confidence_lift.0) - 0.15).abs() < 1e-6);
    let three: Vec<String> = ["s", "a", "b", "c"].iter().map(|x| x.to_string()).collect();
    let two: Vec<String> = ["s", "a", "b", "a"].iter().map(|x| x.to_string()).collect();
    assert_eq!(cfg.fanout_exceeded(&three, "s"), Some(3));
    assert_eq!(cfg.fanout_exceeded(&two, "s"), None);
}

#[test]
fn expand_reaches_nodes_first_seen_on_a_longer_path() {
    let mut graph = InMemoryGraph::new();
    graph.upsert_edge(GraphEdge::new("a", "c", "k"));
    graph.upsert_edge(GraphEdge::new("a", "b", "k"));
    graph.upsert_edge(GraphEdge::new("c", "b", "k"));
    graph.upsert_edge(GraphEdge::new("b", "d", "k"));
    let sub = graph.expand("a", 2).unwrap();
    assert_eq!(sub.nodes[0], "a");
    assert_eq!(sorted_nodes(&sub), vec!["a", "b", "c", "d"]);
    assert_eq!(sub.edges.len(), 4);
    assert!(sub.edges.iter().any(|e| e.src == "b" && e.dst == "d"));
    let shallow = graph.expand("a", 1).unwrap();
    assert_eq!(sorted_nodes(&shallow), vec!["a", "b", "c"]);
    assert_eq!(shallow.edges.len(), 2);
}

#[test]
fn edge_at_keeps_its_timestamp_and_upsert_replaces_it() {
    let t1 = UNIX_EPOCH + Duration::from_secs(100);
    let t2 = UNIX_EPOCH + Duration::from_secs(200);
    let first = GraphEdge::at("a", "b", "auth", t1);
    assert_eq!(first.ts, t1);
    assert_eq!((first.src.as_str(), first.dst.as_str(), first.kind.as_str()), ("a", "b", "auth"));
    let mut graph = InMemoryGraph::new();
    graph.upsert_edge(first);
    assert_eq!(graph.expand("a", 1).unwrap().edges[0].ts, t1);
    graph.upsert_edge(GraphEdge::at("a", "b", "auth", t2));
    let sub = graph.expand("a", 1).unwrap();
    assert_eq!(sub.edges.len(), 1);
    assert_eq!(sub.edges[0].ts, t2);
    assert_eq!(graph.edge_count(), 1);
    assert_eq!(graph.node_count(), 2);
}
