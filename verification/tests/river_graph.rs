use terrain::river_graph::{RiverGraph, RiverNode};
use terrain::Point3;

fn node(x: i64, y: i64, z: i64, priority: u32) -> RiverNode {
    RiverNode { pos: Point3 { x, y, z }, priority }
}

#[test]
fn arena_identifiers_are_stable() {
    let mut g = RiverGraph::new();
    assert_eq!(g.node_count(), 0);
    assert_eq!(g.edge_count(), 0);

    let a = g.add_node(node(0, 0, 0, 3));
    let b = g.add_node(node(10, 0, 5, 2));
    let c = g.add_node(node(0, 10, 7, 2));
    assert_eq!((a, b, c), (0, 1, 2));
    assert_eq!(g.node_count(), 3);

    g.add_edge(a, b);
    g.add_edge(a, c);
    assert_eq!(g.edge_count(), 2);
    assert_eq!(g.get_edge(0), (a, b));
    assert_eq!(g.get_edge(1), (a, c));
    assert_eq!(g.get_node(b), node(10, 0, 5, 2));
}

#[test]
fn outgoing_edges_mark_grown_tips() {
    let mut g = RiverGraph::new();
    let a = g.add_node(node(0, 0, 0, 3));
    let b = g.add_node(node(10, 0, 1, 3));
    assert!(!g.has_outgoing(a));
    assert!(!g.has_outgoing(b));
    g.add_edge(a, b);
    assert!(g.has_outgoing(a));
    assert!(!g.has_outgoing(b));
}
